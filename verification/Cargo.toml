[package]
name = "cargo_mutants"
version = "0.1.0"
edition = "2021"
publish = false

[dependencies]
anyhow = "1"
camino = "1"
console = "0.15"
fastrand = "2"
itertools = "0.14"
jiff = "0.2"
jobserver = "0.1"
nextest-metadata = "0.12"
nix = { version = "0.29", features = ["process", "signal"] }
num_cpus = "1"
proc-macro2 = { version = "1", features = ["span-locations"] }
quote = "1"
regex = "1"
serde = { version = "1", features = ["derive"] }
serde_json = "1"
similar = "2"
syn = { version = "2", features = ["full", "extra-traits", "visit"] }
tracing = "0.1"
