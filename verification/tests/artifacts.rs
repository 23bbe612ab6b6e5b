//! Fingerprints of build artifacts.

use cargo_mutants::artifacts::{
    deps_dir, fingerprint_build_artifacts, is_test_executable, is_windows_test_executable, profile_dir_name,
    test_executables, BuildFile, Fingerprint,
};
use cargo_mutants::Options;

fn file(name: &str, executable: bool) -> BuildFile {
    BuildFile {
        path: format!("/build/target/debug/deps/{name}"),
        is_file: true,
        mode: if executable { 0o755 } else { 0o644 },
    }
}

/// The fingerprint of the executables among some files.
fn fingerprint(deps: &[(&str, &[u8], bool)]) -> Option<Fingerprint> {
    let files: Vec<BuildFile> = deps.iter().map(|(name, _, executable)| file(name, *executable)).collect();
    let mut artifacts = Vec::new();
    for path in test_executables(&files, false) {
        for (name, contents, _) in deps {
            if path.ends_with(&format!("/{name}")) {
                artifacts.push(((*name).to_owned(), contents.to_vec()));
            }
        }
    }
    fingerprint_build_artifacts(&artifacts)
}

#[test]
fn missing_deps_directory_returns_none() {
    assert_eq!(fingerprint(&[]), None);
}

#[test]
fn identical_test_executable_contents_produce_equal_fingerprints() {
    let fp_a = fingerprint(&[("a-1234", b"same bytes", true)]);
    let fp_b = fingerprint(&[("a-1234", b"same bytes", true)]);
    assert!(fp_a.is_some());
    assert_eq!(fp_a, fp_b);
}

#[test]
fn different_test_executable_contents_produce_different_fingerprints() {
    let fp_a = fingerprint(&[("a-1234", b"same bytes", true)]);
    let fp_b = fingerprint(&[("a-1234", b"different bytes", true)]);
    assert_ne!(fp_a, fp_b);
}

#[test]
fn non_executable_and_intermediate_files_are_ignored() {
    let fp = fingerprint(&[
        ("a-1234", b"exe bytes", true),
        ("a-1234.d", b"dep info, differs every build", false),
        ("liba-5678.rlib", b"rlib bytes", false),
        ("liba-5678.rmeta", b"rmeta bytes", false),
        ("a-1234.o", b"object bytes", false),
        // A proc-macro dependency's shared library is executable on
        // Unix, but is not a test binary and must be ignored too.
        ("libmutants-9abc.dylib", b"dylib bytes", true),
    ]);
    assert!(fp.is_some());

    // A second build dir with only the executable, and different (but
    // ignored) auxiliary file contents, must fingerprint the same.
    let fp2 = fingerprint(&[
        ("a-1234", b"exe bytes", true),
        ("a-1234.d", b"totally different dep info", false),
    ]);
    assert_eq!(fp, fp2);
}

#[test]
fn dev_and_test_profiles_use_the_debug_directory() {
    assert_eq!(profile_dir_name(&Options::new()), "debug");
    let mut options = Options::new();
    options.profile = Some("dev".to_owned());
    assert_eq!(profile_dir_name(&options), "debug");
    options.profile = Some("test".to_owned());
    assert_eq!(profile_dir_name(&options), "debug");
}

#[test]
fn release_and_bench_profiles_use_the_release_directory() {
    let mut options = Options::new();
    options.profile = Some("release".to_owned());
    assert_eq!(profile_dir_name(&options), "release");
    options.profile = Some("bench".to_owned());
    assert_eq!(profile_dir_name(&options), "release");
}

#[test]
fn custom_profile_name_is_used_as_the_directory_name() {
    let mut options = Options::new();
    options.profile = Some("mutants".to_owned());
    assert_eq!(profile_dir_name(&options), "mutants");
}

#[test]
fn where_cargo_puts_test_executables() {
    let mut options = Options::new();
    assert_eq!(deps_dir("/tmp/build", &options).replace('\\', "/"), "/tmp/build/target/debug/deps");
    options.profile = Some("mutants".to_owned());
    assert_eq!(deps_dir("/tmp/build", &options).replace('\\', "/"), "/tmp/build/target/mutants/deps");
}

#[test]
fn executables_are_sorted() {
    let files = vec![file("b-2", true), file("c-3.so", true), file("a-1", true), file("a-1.d", true), file("a", false)];
    assert_eq!(
        test_executables(&files, false),
        ["/build/target/debug/deps/a-1", "/build/target/debug/deps/b-2"]
    );
    let files = vec![file("b.exe", false), file("a.exe", false), file("c.pdb", true)];
    assert_eq!(
        test_executables(&files, true),
        ["/build/target/debug/deps/a.exe", "/build/target/debug/deps/b.exe"]
    );
}

#[test]
fn what_looks_like_a_test_executable() {
    assert!(is_test_executable(true, 0o100, None));
    assert!(is_test_executable(true, 0o755, Some("bin")));
    assert!(!is_test_executable(false, 0o755, None));
    assert!(!is_test_executable(true, 0o644, None));
    for extension in ["d", "rmeta", "rlib", "o", "dylib", "so"] {
        assert!(!is_test_executable(true, 0o755, Some(extension)));
    }
    assert!(is_windows_test_executable(true, Some("exe")));
    assert!(!is_windows_test_executable(true, Some("dll")));
    assert!(!is_windows_test_executable(true, None));
    assert!(!is_windows_test_executable(false, Some("exe")));
}

#[test]
fn names_and_contents_are_told_apart() {
    let one = vec![("ab".to_owned(), b"c".to_vec())];
    let other = vec![("a".to_owned(), b"bc".to_vec())];
    assert_ne!(fingerprint_build_artifacts(&one), fingerprint_build_artifacts(&other));
    let two = vec![("a".to_owned(), b"b".to_vec()), ("c".to_owned(), b"".to_vec())];
    let swapped = vec![("c".to_owned(), b"".to_vec()), ("a".to_owned(), b"b".to_vec())];
    assert_ne!(fingerprint_build_artifacts(&two), fingerprint_build_artifacts(&swapped));
}

#[test]
fn executables_are_found_in_any_directory() {
    let listed = |path: &str| BuildFile { path: path.to_owned(), is_file: true, mode: 0o755 };
    let files = vec![listed("../deps/b-2"), listed("../deps/b-2.d"), listed("x:y/deps/c.rlib"), listed("C:/deps/a-1")];
    assert_eq!(test_executables(&files, false), ["../deps/b-2", "C:/deps/a-1"]);
    let files = vec![listed("C:\\deps\\b.exe"), listed("C:\\deps\\b.pdb"), listed("C:\\deps.exe\\a"), listed("..\\a.exe")];
    assert_eq!(test_executables(&files, true), ["..\\a.exe", "C:\\deps\\b.exe"]);
}

#[test]
fn other_files_beside_the_executables_do_not_matter() {
    let mut files = vec![file("b-2", true), file("a-1", true)];
    let before = test_executables(&files, false);
    for other in ["a-1.d", "liba.rlib", "liba.rmeta", "a.o", "liba.so", "liba.dylib"] {
        files.push(file(other, true));
    }
    files.push(file("notes", false));
    assert_eq!(test_executables(&files, false), before);
}
