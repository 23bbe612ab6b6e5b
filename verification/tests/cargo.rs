//! How cargo is called.

use cargo_mutants::cargo::{
    cargo_argv, cargo_env, encoded_rustflags, is_unexpected_nextest_exit, PackageSelection, Phase,
};
use cargo_mutants::options::TestTool;
use cargo_mutants::process::Exit;
use cargo_mutants::{Options, Package};

/// The arguments behind the name of the cargo binary.
fn argv(packages: &PackageSelection, phase: Phase, options: &Options) -> Vec<String> {
    let argv = cargo_argv("cargo", packages, phase, options);
    assert_eq!(argv[0], "cargo");
    argv[1..].to_vec()
}

fn strings(args: &[&str]) -> Vec<String> {
    args.iter().map(|arg| (*arg).to_owned()).collect()
}

#[test]
fn generate_cargo_args_for_baseline_with_default_options() {
    let options = Options::new();
    assert_eq!(
        argv(&PackageSelection::All, Phase::Check, &options),
        ["check", "--tests", "--verbose", "--workspace"]
    );
    assert_eq!(
        argv(&PackageSelection::All, Phase::Build, &options),
        ["test", "--no-run", "--verbose", "--workspace"]
    );
    assert_eq!(
        argv(&PackageSelection::All, Phase::Test, &options),
        ["test", "--verbose", "--workspace"]
    );
}

#[test]
fn generate_cargo_args_with_additional_cargo_test_args_and_package() {
    let mut options = Options::new();
    options.additional_cargo_test_args.extend(strings(&["--lib", "--no-fail-fast"]));
    let package = Package {
        name: "cargo-mutants-testdata-something".to_owned(),
        version: "0.1.0".to_owned(),
        top_sources: vec!["src/lib.rs".to_owned()],
    };
    assert_eq!(
        argv(&PackageSelection::Explicit(vec![package]), Phase::Check, &options),
        [
            "check",
            "--tests",
            "--verbose",
            "--package=cargo-mutants-testdata-something@0.1.0",
        ]
    );
}

#[test]
fn generate_cargo_args_with_additional_cargo_args_and_test_args() {
    let mut options = Options::new();
    options.additional_cargo_test_args.extend(strings(&["--lib", "--no-fail-fast"]));
    options.additional_cargo_args.extend(strings(&["--release"]));
    assert_eq!(
        argv(&PackageSelection::All, Phase::Check, &options),
        ["check", "--tests", "--verbose", "--workspace", "--release"]
    );
    assert_eq!(
        argv(&PackageSelection::All, Phase::Build, &options),
        ["test", "--no-run", "--verbose", "--workspace", "--release"]
    );
    assert_eq!(
        argv(&PackageSelection::All, Phase::Test, &options),
        [
            "test",
            "--verbose",
            "--workspace",
            "--release",
            "--lib",
            "--no-fail-fast"
        ]
    );
}

#[test]
fn no_default_features_args_passed_to_cargo() {
    let mut options = Options::new();
    options.no_default_features = true;
    assert_eq!(
        argv(&PackageSelection::All, Phase::Check, &options),
        [
            "check",
            "--tests",
            "--verbose",
            "--workspace",
            "--no-default-features"
        ]
    );
}

#[test]
fn all_features_args_passed_to_cargo() {
    let mut options = Options::new();
    options.all_features = true;
    assert_eq!(
        argv(&PackageSelection::All, Phase::Check, &options),
        [
            "check",
            "--tests",
            "--verbose",
            "--workspace",
            "--all-features"
        ]
    );
}

#[test]
fn cap_lints_passed_to_cargo() {
    let mut options = Options::new();
    options.cap_lints = true;
    assert_eq!(
        argv(&PackageSelection::All, Phase::Check, &options),
        ["check", "--tests", "--verbose", "--workspace",]
    );
}

#[test]
fn feature_args_passed_to_cargo() {
    let mut options = Options::new();
    options.features = strings(&["foo", "bar,baz"]);
    assert_eq!(
        argv(&PackageSelection::All, Phase::Check, &options),
        [
            "check",
            "--tests",
            "--verbose",
            "--workspace",
            "--features=foo",
            "--features=bar,baz"
        ]
    );
}

#[test]
fn profile_arg_passed_to_cargo() {
    let mut options = Options::new();
    options.profile = Some("mutants".to_owned());
    assert_eq!(
        argv(&PackageSelection::All, Phase::Check, &options),
        [
            "check",
            "--tests",
            "--profile=mutants",
            "--verbose",
            "--workspace",
        ]
    );
}

#[test]
fn nextest_gets_special_cargo_profile_option() {
    let mut options = Options::new();
    options.test_tool = TestTool::Nextest;
    options.profile = Some("mutants".to_owned());
    assert_eq!(
        argv(&PackageSelection::All, Phase::Build, &options),
        [
            "nextest",
            "run",
            "--no-run",
            "--cargo-profile=mutants",
            "--verbose",
            "--workspace",
        ]
    );
}

#[test]
fn detect_equivalent_mutants_excludes_doc_tests_from_the_cargo_test_invocation() {
    let mut options = Options::new();
    options.detect_equivalent_mutants = true;
    assert_eq!(
        argv(&PackageSelection::All, Phase::Test, &options),
        [
            "test",
            "--lib",
            "--bins",
            "--tests",
            "--verbose",
            "--workspace"
        ]
    );
}

#[test]
fn skip_uncovered_excludes_doc_tests_from_the_cargo_test_invocation() {
    let mut options = Options::new();
    options.skip_uncovered = true;
    assert_eq!(
        argv(&PackageSelection::All, Phase::Test, &options),
        [
            "test",
            "--lib",
            "--bins",
            "--tests",
            "--verbose",
            "--workspace"
        ]
    );
}

#[test]
fn without_detect_equivalent_mutants_or_skip_uncovered_doc_tests_are_not_excluded() {
    let options = Options::new();
    assert_eq!(
        argv(&PackageSelection::All, Phase::Test, &options),
        ["test", "--verbose", "--workspace"]
    );
}

#[test]
fn detect_equivalent_mutants_does_not_change_the_nextest_invocation() {
    let mut options = Options::new();
    options.test_tool = TestTool::Nextest;
    options.detect_equivalent_mutants = true;
    assert_eq!(
        argv(&PackageSelection::All, Phase::Test, &options),
        ["nextest", "run", "--verbose", "--workspace"]
    );
}

fn with_flags(cap_lints: bool, detect_equivalent_mutants: bool) -> Options {
    let mut options = Options::new();
    options.cap_lints = cap_lints;
    options.detect_equivalent_mutants = detect_equivalent_mutants;
    options
}

#[test]
fn rustflags_without_cap_lints_and_no_environment_variables() {
    assert_eq!(encoded_rustflags(&with_flags(false, false), None, None), None);
}

#[test]
fn rustflags_with_cap_lints_and_no_environment_variables() {
    assert_eq!(encoded_rustflags(&with_flags(true, false), None, None), Some("--cap-lints=warn".into()));
}

// Don't generate an empty argument if the encoded rustflags is empty.
#[test]
fn rustflags_with_empty_encoded_rustflags() {
    assert_eq!(encoded_rustflags(&with_flags(true, false), Some(""), None).unwrap(), "--cap-lints=warn");
    assert_eq!(encoded_rustflags(&with_flags(true, false), None, Some("")).unwrap(), "--cap-lints=warn");
}

#[test]
fn rustflags_added_to_existing_encoded_rustflags() {
    assert_eq!(
        encoded_rustflags(&with_flags(true, false), None, Some("--something\x1f--else")).unwrap(),
        "--something\x1f--else\x1f--cap-lints=warn"
    );
    assert_eq!(
        encoded_rustflags(&with_flags(true, false), Some("--something\x1f--else"), Some("ignored")).unwrap(),
        "--something\x1f--else\x1f--cap-lints=warn"
    );
}

#[test]
fn rustflags_added_to_existing_rustflags() {
    assert_eq!(
        encoded_rustflags(&with_flags(true, false), None, Some("-Dwarnings")).unwrap(),
        "-Dwarnings\x1f--cap-lints=warn"
    );
    assert_eq!(
        encoded_rustflags(&with_flags(true, false), None, Some("  -Dwarnings   -Copt ")).unwrap(),
        "-Dwarnings\x1f-Copt\x1f--cap-lints=warn"
    );
}

#[test]
fn detect_equivalent_mutants_adds_debuginfo_0_rustflag() {
    assert_eq!(encoded_rustflags(&with_flags(false, true), None, None), Some("-Cdebuginfo=0".into()));
}

#[test]
fn debuginfo_flag_is_absent_when_detect_equivalent_mutants_is_off() {
    assert_eq!(encoded_rustflags(&with_flags(false, false), None, None), None);
}

#[test]
fn detect_equivalent_mutants_and_cap_lints_are_both_present() {
    assert_eq!(
        encoded_rustflags(&with_flags(true, true), None, None),
        Some("--cap-lints=warn\x1f-Cdebuginfo=0".into())
    );
}

#[test]
fn extra_variables_come_last() {
    let extra = vec![("CARGO_ENCODED_RUSTFLAGS".to_owned(), "mine".to_owned())];
    let env = cargo_env(&Some("theirs".to_owned()), &extra);
    let expected: Vec<(String, String)> = [
        ("INSTA_UPDATE", "no"),
        ("INSTA_FORCE_PASS", "0"),
        ("CARGO_ENCODED_RUSTFLAGS", "theirs"),
        ("CARGO_ENCODED_RUSTFLAGS", "mine"),
    ]
    .iter()
    .map(|(k, v)| ((*k).to_owned(), (*v).to_owned()))
    .collect();
    assert_eq!(env, expected);
    assert_eq!(cargo_env(&None, &vec![]).len(), 2);
}

#[test]
fn only_unknown_nextest_codes_are_unexpected() {
    let nextest = strings(&["cargo", "nextest", "run"]);
    let test = strings(&["cargo", "test"]);
    for code in [4, 100, 101] {
        assert!(!is_unexpected_nextest_exit(&nextest, Exit::Failure(code)));
    }
    assert!(is_unexpected_nextest_exit(&nextest, Exit::Failure(1)));
    assert!(!is_unexpected_nextest_exit(&test, Exit::Failure(1)));
    assert!(!is_unexpected_nextest_exit(&nextest, Exit::Timeout));
}
