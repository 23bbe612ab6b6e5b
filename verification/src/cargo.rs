//! Run Cargo as a subprocess: the command lines and the environment.

use nextest_metadata::NextestExitCode;
use vstd::prelude::*;
use crate::mutant;
use crate::options::{Options, TestTool};
use crate::process::Exit;
use crate::source::Package;
use crate::text;
use crate::text::{chars_of, join, same_text, string_of};

verus! {

/// A step of testing one scenario.
#[derive(Clone, Copy, Debug, PartialEq, Eq, Structural)]
pub enum Phase {
    Check,
    Build,
    Test,
}

/// Which packages a cargo command is about.
pub enum PackageSelection {
    /// All packages of the workspace.
    All,
    /// The given packages.
    Explicit(Vec<Package>),
}

/// What the phase and the test tool ask of cargo.
pub open spec fn phase_args(phase: Phase, options: Options) -> Seq<Seq<char>> {
    match (phase, options.test_tool) {
        (Phase::Test, TestTool::Cargo) => {
            if options.detect_equivalent_mutants || options.skip_uncovered {
                seq!["test"@, "--lib"@, "--bins"@, "--tests"@]
            } else {
                seq!["test"@]
            }
        },
        (Phase::Test, TestTool::Nextest) => seq!["nextest"@, "run"@],
        (Phase::Build, TestTool::Cargo) => seq!["test"@, "--no-run"@],
        (Phase::Build, TestTool::Nextest) => seq!["nextest"@, "run"@, "--no-run"@],
        (Phase::Check, _) => seq!["check"@, "--tests"@],
    }
}

/// The profile, as the test tool takes it.
pub open spec fn profile_args(options: Options) -> Seq<Seq<char>> {
    match options.profile {
        Some(profile) => match options.test_tool {
            TestTool::Cargo => seq!["--profile="@ + profile@],
            TestTool::Nextest => seq!["--cargo-profile="@ + profile@],
        },
        None => Seq::<Seq<char>>::empty(),
    }
}

/// The packages.
pub open spec fn package_args(packages: PackageSelection) -> Seq<Seq<char>> {
    match packages {
        PackageSelection::All => seq!["--workspace"@],
        PackageSelection::Explicit(packages) => Seq::new(
            packages@.len(),
            |i: int| "--package="@ + packages@[i]@.qualified_name(),
        ),
    }
}

/// An argument, where it is wanted.
pub open spec fn arg_if(wanted: bool, arg: Seq<char>) -> Seq<Seq<char>> {
    if wanted {
        seq![arg]
    } else {
        Seq::<Seq<char>>::empty()
    }
}

/// The features.
pub open spec fn feature_args(options: Options) -> Seq<Seq<char>> {
    arg_if(options.no_default_features, "--no-default-features"@) + arg_if(options.all_features, "--all-features"@)
        + Seq::new(options.features@.len(), |i: int| "--features="@ + options.features@[i]@)
}

/// The argv for a cargo check/build/test invocation.
pub open spec fn argv(
    cargo_bin: Seq<char>,
    packages: PackageSelection,
    phase: Phase,
    options: Options,
) -> Seq<Seq<char>> {
    seq![cargo_bin] + phase_args(phase, options) + profile_args(options) + seq!["--verbose"@] + package_args(packages)
        + feature_args(options) + text::texts(options.additional_cargo_args@) + (if phase == Phase::Test {
        text::texts(options.additional_cargo_test_args@)
    } else {
        Seq::<Seq<char>>::empty()
    })
}

/// Appends an argument.
fn push_arg(args: &mut Vec<String>, arg: &str)
    ensures
        text::texts(final(args)@) == text::texts(old(args)@).push(arg@),
{
    let ghost before = args@;
    args.push(arg.to_owned());
    assert(text::texts(args@) =~= text::texts(before).push(arg@));
}

/// Appends an argument that is a flag and its value.
fn push_flag(args: &mut Vec<String>, flag: &str, value: &str)
    ensures
        text::texts(final(args)@) == text::texts(old(args)@).push(flag@ + value@),
{
    let mut arg = flag.to_owned();
    arg.push_str(value);
    push_arg(args, arg.as_str());
}

/// Appends some arguments.
fn push_args(args: &mut Vec<String>, more: &Vec<String>)
    ensures
        text::texts(final(args)@) == text::texts(old(args)@) + text::texts(more@),
{
    let ghost before = text::texts(args@);
    let ghost all = text::texts(more@);
    assert(all.take(0) =~= Seq::<Seq<char>>::empty());
    for i in 0..more.len()
        invariant
            all == text::texts(more@),
            text::texts(args@) == before + all.take(i as int),
    {
        push_arg(args, more[i].as_str());
        assert(text::texts(args@) =~= before + all.take(i + 1));
    }
    assert(all.take(more@.len() as int) =~= all);
}

/// Appends what the phase and the test tool ask of cargo.
fn push_phase_args(args: &mut Vec<String>, phase: Phase, options: &Options)
    ensures
        text::texts(final(args)@) == text::texts(old(args)@) + phase_args(phase, *options),
{
    let ghost before = text::texts(args@);
    match phase {
        Phase::Test => match options.test_tool {
            TestTool::Cargo => {
                push_arg(args, "test");
                if options.detect_equivalent_mutants || options.skip_uncovered {
                    // Both options infer a mutant's outcome from a signal that doc tests never contribute to:
                    // equivalent-mutant detection compares the compiled test executables, and coverage counters
                    // aren't kept by rustdoc. A function exercised only by a doc test looks exactly like dead
                    // code to the signal being used, so a mutant there could be wrongly judged. Restricting the
                    // run to the same targets the signal covers makes the signal a sound proxy for everything
                    // this run can catch. `--lib --bins --tests` is the narrowest selection that still runs
                    // everything a plain `cargo test` would, while excluding doc tests.
                    push_arg(args, "--lib");
                    push_arg(args, "--bins");
                    push_arg(args, "--tests");
                }
            },
            TestTool::Nextest => {
                push_arg(args, "nextest");
                push_arg(args, "run");
            },
        },
        Phase::Build => match options.test_tool {
            TestTool::Cargo => {
                // Generally we want to do everything to make the tests build, but not actually run them.
                push_arg(args, "test");
                push_arg(args, "--no-run");
            },
            TestTool::Nextest => {
                push_arg(args, "nextest");
                push_arg(args, "run");
                push_arg(args, "--no-run");
            },
        },
        Phase::Check => {
            push_arg(args, "check");
            push_arg(args, "--tests");
        },
    }
    assert(text::texts(args@) =~= before + phase_args(phase, *options));
}

/// Appends the packages.
fn push_package_args(args: &mut Vec<String>, packages: &PackageSelection)
    ensures
        text::texts(final(args)@) == text::texts(old(args)@) + package_args(*packages),
{
    let ghost before = text::texts(args@);
    match packages {
        PackageSelection::All => {
            push_arg(args, "--workspace");
        },
        PackageSelection::Explicit(packages) => {
            for i in 0..packages.len()
                invariant
                    text::texts(args@) == before + Seq::new(
                        i as nat,
                        |j: int| "--package="@ + packages@[j]@.qualified_name(),
                    ),
            {
                push_flag(args, "--package=", packages[i].version_qualified_name().as_str());
                assert(text::texts(args@) =~= before + Seq::new(
                    (i + 1) as nat,
                    |j: int| "--package="@ + packages@[j]@.qualified_name(),
                ));
            }
        },
    }
    assert(text::texts(args@) =~= before + package_args(*packages));
}

/// Appends the features.
fn push_feature_args(args: &mut Vec<String>, options: &Options)
    ensures
        text::texts(final(args)@) == text::texts(old(args)@) + feature_args(*options),
{
    let ghost before = text::texts(args@);
    if options.no_default_features {
        push_arg(args, "--no-default-features");
    }
    if options.all_features {
        push_arg(args, "--all-features");
    }
    // N.B. it can make sense to have --all-features and also explicit features from non-default packages.
    let ghost flags = arg_if(options.no_default_features, "--no-default-features"@) + arg_if(
        options.all_features,
        "--all-features"@,
    );
    assert(text::texts(args@) =~= before + flags);
    for i in 0..options.features.len()
        invariant
            text::texts(args@) == before + flags + Seq::new(
                i as nat,
                |j: int| "--features="@ + options.features@[j]@,
            ),
    {
        push_flag(args, "--features=", options.features[i].as_str());
        assert(text::texts(args@) =~= before + flags + Seq::new(
            (i + 1) as nat,
            |j: int| "--features="@ + options.features@[j]@,
        ));
    }
    assert(text::texts(args@) =~= before + feature_args(*options));
}

/// Make up the argv for a cargo check/build/test invocation, including argv[0] as the cargo binary itself.
pub fn cargo_argv(cargo_bin: &str, packages: &PackageSelection, phase: Phase, options: &Options) -> (r: Vec<String>)
    ensures
        text::texts(r@) == argv(cargo_bin@, *packages, phase, *options),
{
    let mut args: Vec<String> = Vec::new();
    push_arg(&mut args, cargo_bin);
    assert(text::texts(args@) =~= seq![cargo_bin@]);
    push_phase_args(&mut args, phase, options);
    let ghost before = text::texts(args@);
    if let Some(profile) = &options.profile {
        match options.test_tool {
            TestTool::Cargo => push_flag(&mut args, "--profile=", profile.as_str()),
            TestTool::Nextest => push_flag(&mut args, "--cargo-profile=", profile.as_str()),
        }
    }
    assert(text::texts(args@) =~= before + profile_args(*options));
    push_arg(&mut args, "--verbose");
    assert(text::texts(args@) =~= before + profile_args(*options) + seq!["--verbose"@]);
    push_package_args(&mut args, packages);
    push_feature_args(&mut args, options);
    push_args(&mut args, &options.additional_cargo_args);
    if phase == Phase::Test {
        push_args(&mut args, &options.additional_cargo_test_args);
    }
    assert(text::texts(args@) =~= argv(cargo_bin@, *packages, phase, *options));
    args
}

/// The words in the first `n` characters of `s` that are followed by a space, and the word that is not.
pub open spec fn words_prefix(s: Seq<char>, n: int) -> (Seq<Seq<char>>, Seq<char>)
    decreases n,
{
    if n <= 0 {
        (Seq::<Seq<char>>::empty(), Seq::<char>::empty())
    } else {
        let (words, word) = words_prefix(s, n - 1);
        if s[n - 1] != ' ' {
            (words, word.push(s[n - 1]))
        } else if word.len() > 0 {
            (words.push(word), Seq::<char>::empty())
        } else {
            (words, word)
        }
    }
}

/// The words of `s`: what stands between spaces and is not empty.
pub open spec fn words(s: Seq<char>) -> Seq<Seq<char>> {
    let (words, word) = words_prefix(s, s.len() as int);
    if word.len() > 0 {
        words.push(word)
    } else {
        words
    }
}

/// The compiler flags that the options ask for.
pub open spec fn extra_flags(options: Options) -> Seq<Seq<char>> {
    arg_if(options.cap_lints, "--cap-lints=warn"@) + arg_if(options.detect_equivalent_mutants, "-Cdebuginfo=0"@)
}

/// The compiler flags that are already in the environment: `CARGO_ENCODED_RUSTFLAGS` as it is, which counts where it is
/// set, and otherwise the words of `RUSTFLAGS`.
pub open spec fn inherited_flags(encoded: Option<Seq<char>>, rustflags: Option<Seq<char>>) -> Seq<Seq<char>> {
    match encoded {
        Some(encoded) => arg_if(encoded.len() > 0, encoded),
        None => match rustflags {
            Some(rustflags) => words(rustflags),
            None => Seq::<Seq<char>>::empty(),
        },
    }
}

/// The words of `s`: what stands between spaces and is not empty.
fn split_words(s: &str) -> (r: Vec<String>)
    ensures
        text::texts(r@) == words(s@),
{
    let chars = chars_of(s);
    let mut all: Vec<String> = Vec::new();
    let mut word: Vec<char> = Vec::new();
    assert(text::texts(all@) =~= Seq::<Seq<char>>::empty());
    for i in 0..chars.len()
        invariant
            chars@ == s@,
            words_prefix(s@, i as int) == (text::texts(all@), word@),
    {
        if chars[i] != ' ' {
            word.push(chars[i]);
        } else if word.len() > 0 {
            push_arg(&mut all, string_of(&word).as_str());
            word = Vec::new();
        }
    }
    if word.len() > 0 {
        push_arg(&mut all, string_of(&word).as_str());
    }
    all
}

/// Return adjusted `CARGO_ENCODED_RUSTFLAGS`, including any changes to cap-lints, given the two variables as the
/// environment has them.
///
/// This does not currently read config files; it's too complicated.
pub fn encoded_rustflags(options: &Options, encoded: Option<&str>, rustflags: Option<&str>) -> (r: Option<String>)
    ensures
        match r {
            Some(flags) => extra_flags(*options).len() > 0 && flags@ == text::joined(
                inherited_flags(
                    match encoded {
                        Some(s) => Some(s@),
                        None => None,
                    },
                    match rustflags {
                        Some(s) => Some(s@),
                        None => None,
                    },
                ) + extra_flags(*options),
                "\x1f"@,
            ),
            None => extra_flags(*options).len() == 0,
        },
{
    let mut extra: Vec<String> = Vec::new();
    if options.cap_lints {
        push_arg(&mut extra, "--cap-lints=warn");
    }
    if options.detect_equivalent_mutants {
        // Equivalent-mutant detection compares build artifacts byte for byte. Embedded debug info records source line
        // numbers, which necessarily move when a mutation is applied even if the generated code is identical, so
        // debug info must be turned off for the comparison to be meaningful.
        push_arg(&mut extra, "-Cdebuginfo=0");
    }
    assert(text::texts(extra@) =~= extra_flags(*options));
    if extra.len() == 0 {
        return None;
    }
    let mut flags: Vec<String> = match encoded {
        Some(encoded) => {
            let mut flags: Vec<String> = Vec::new();
            if !encoded.is_empty() {
                push_arg(&mut flags, encoded);
            }
            assert(text::texts(flags@) =~= arg_if(encoded@.len() > 0, encoded@));
            flags
        },
        None => match rustflags {
            Some(rustflags) => split_words(rustflags),
            None => {
                let flags: Vec<String> = Vec::new();
                assert(text::texts(flags@) =~= Seq::<Seq<char>>::empty());
                flags
            },
        },
    };
    push_args(&mut flags, &extra);
    Some(join(&flags, "\x1f"))
}

/// Doc tests are left out of the tests that are run whenever builds are compared or coverage is measured, because neither
/// says anything of them.
pub proof fn doc_tests_are_left_out(cargo_bin: Seq<char>, packages: PackageSelection, options: Options)
    requires
        options.detect_equivalent_mutants || options.skip_uncovered,
    ensures
        options.test_tool == TestTool::Cargo ==> argv(cargo_bin, packages, Phase::Test, options).subrange(1, 5) == seq![
            "test"@,
            "--lib"@,
            "--bins"@,
            "--tests"@,
        ],
        options.test_tool == TestTool::Nextest ==> argv(cargo_bin, packages, Phase::Test, options).subrange(1, 3) == seq![
            "nextest"@,
            "run"@,
        ],
{
}

/// Debug info is turned off whenever builds are compared, and by the last flag, behind those that the environment has: what
/// those flags say of it does not count.
pub proof fn debug_info_is_turned_off(options: Options, encoded: Option<Seq<char>>, rustflags: Option<Seq<char>>)
    requires
        options.detect_equivalent_mutants,
    ensures
        extra_flags(options).len() > 0,
        ({
            let flags = inherited_flags(encoded, rustflags) + extra_flags(options);
            &&& flags.last() == "-Cdebuginfo=0"@
            &&& flags.take(inherited_flags(encoded, rustflags).len() as int) == inherited_flags(encoded, rustflags)
        }),
{
}

/// The environment variables that a cargo command is given, one behind the other.
pub open spec fn variables(
    flags: Option<Seq<char>>,
    extra_env: Seq<(Seq<char>, Seq<char>)>,
) -> Seq<(Seq<char>, Seq<char>)> {
    seq![("INSTA_UPDATE"@, "no"@), ("INSTA_FORCE_PASS"@, "0"@)] + (match flags {
        Some(flags) => seq![("CARGO_ENCODED_RUSTFLAGS"@, flags)],
        None => Seq::<(Seq<char>, Seq<char>)>::empty(),
    }) + extra_env
}

/// The models of some variables.
pub open spec fn variable_models(env: Seq<(String, String)>) -> Seq<(Seq<char>, Seq<char>)> {
    Seq::new(env.len(), |i: int| (env[i].0@, env[i].1@))
}

/// Appends a variable.
fn push_variable(env: &mut Vec<(String, String)>, name: &str, value: &str)
    ensures
        variable_models(final(env)@) == variable_models(old(env)@).push((name@, value@)),
{
    let ghost before = env@;
    env.push((name.to_owned(), value.to_owned()));
    assert(variable_models(env@) =~= variable_models(before).push((name@, value@)));
}

/// The environment variables that a cargo command is given.
///
/// `extra_env` is appended after every other variable, so a later duplicate key (e.g. a caller overriding
/// `CARGO_ENCODED_RUSTFLAGS`) wins.
pub fn cargo_env(encoded_rustflags: &Option<String>, extra_env: &Vec<(String, String)>) -> (r: Vec<(String, String)>)
    ensures
        variable_models(r@) == variables(mutant::optional_text(*encoded_rustflags), variable_models(extra_env@)),
{
    let mut env: Vec<(String, String)> = Vec::new();
    // The tests might use Insta <https://insta.rs>, and we don't want it to write updates to the source tree, and we
    // *certainly* don't want it to write updates and then let the test pass.
    push_variable(&mut env, "INSTA_UPDATE", "no");
    push_variable(&mut env, "INSTA_FORCE_PASS", "0");
    if let Some(flags) = encoded_rustflags {
        push_variable(&mut env, "CARGO_ENCODED_RUSTFLAGS", flags.as_str());
    }
    let ghost fixed = variable_models(env@);
    let ghost extra = variable_models(extra_env@);
    assert(fixed =~= variables(mutant::optional_text(*encoded_rustflags), Seq::empty()));
    for i in 0..extra_env.len()
        invariant
            extra == variable_models(extra_env@),
            variable_models(env@) == fixed + extra.take(i as int),
    {
        push_variable(&mut env, extra_env[i].0.as_str(), extra_env[i].1.as_str());
        assert(variable_models(env@) =~= fixed + extra.take(i + 1));
    }
    assert(variable_models(env@) =~= variables(mutant::optional_text(*encoded_rustflags), extra));
    env
}

/// The value that a process sees of a variable: the last one that it is given.
pub open spec fn effective(env: Seq<(Seq<char>, Seq<char>)>, name: Seq<char>) -> Option<Seq<char>>
    decreases env.len(),
{
    if env.len() == 0 {
        None
    } else if env.last().0 == name {
        Some(env.last().1)
    } else {
        effective(env.drop_last(), name)
    }
}

proof fn lemma_effective_of_tail(
    front: Seq<(Seq<char>, Seq<char>)>,
    tail: Seq<(Seq<char>, Seq<char>)>,
    name: Seq<char>,
)
    ensures
        effective(front + tail, name) == if effective(tail, name) is Some {
            effective(tail, name)
        } else {
            effective(front, name)
        },
    decreases tail.len(),
{
    if tail.len() == 0 {
        assert(front + tail =~= front);
    } else {
        assert((front + tail).drop_last() =~= front + tail.drop_last());
        lemma_effective_of_tail(front, tail.drop_last(), name);
    }
}

/// A variable that a caller passes wins over whatever else a cargo command is given.
pub proof fn extra_variables_win(
    flags: Option<Seq<char>>,
    extra_env: Seq<(Seq<char>, Seq<char>)>,
    name: Seq<char>,
)
    requires
        effective(extra_env, name) is Some,
    ensures
        effective(variables(flags, extra_env), name) == effective(extra_env, name),
{
    let front = variables(flags, Seq::empty());
    assert(variables(flags, extra_env) =~= front + extra_env);
    lemma_effective_of_tail(front, extra_env, name);
}

/// `NextestExitCode::NO_TESTS_RUN`: no tests were run.
#[verifier::external_body]
fn no_tests_run() -> (r: i32)
    ensures
        r == 4,
{
    NextestExitCode::NO_TESTS_RUN
}

/// `NextestExitCode::TEST_RUN_FAILED`: a test failed.
#[verifier::external_body]
fn test_run_failed() -> (r: i32)
    ensures
        r == 100,
{
    NextestExitCode::TEST_RUN_FAILED
}

/// `NextestExitCode::BUILD_FAILED`: the build failed.
#[verifier::external_body]
fn build_failed() -> (r: i32)
    ensures
        r == 101,
{
    NextestExitCode::BUILD_FAILED
}

/// Whether the exit of a process deserves a warning: nextest returns detailed exit codes, and those that are not among
/// the known ones are unexpected.
pub fn is_unexpected_nextest_exit(argv: &Vec<String>, exit: Exit) -> (r: bool)
    requires
        argv@.len() >= 2,
    ensures
        r <==> argv@[1]@ == "nextest"@ && (exit matches Exit::Failure(code) && code != 4 && code != 100 && code != 101),
{
    match exit {
        Exit::Failure(code) => same_text(argv[1].as_str(), "nextest") && code != no_tests_run() && code
            != test_run_failed() && code != build_failed(),
        _ => false,
    }
}

/// How many arguments come first in a cargo command: the binary, and what says which phase this is.
pub open spec fn leading_args(phase: Phase, options: Options) -> int {
    match phase {
        Phase::Check => 3,
        Phase::Build => if options.test_tool == TestTool::Cargo {
            3
        } else {
            4
        },
        Phase::Test => if options.test_tool == TestTool::Nextest {
            3
        } else if options.detect_equivalent_mutants || options.skip_uncovered {
            5
        } else {
            2
        },
    }
}

/// The position of the `--verbose` in a cargo command: behind the leading arguments and the profile, if there is one.
pub open spec fn verbose_at(phase: Phase, options: Options) -> int {
    if options.profile is Some {
        leading_args(phase, options) + 1
    } else {
        leading_args(phase, options)
    }
}

/// The position of the first argument behind the packages.
pub open spec fn features_at(packages: PackageSelection, phase: Phase, options: Options) -> int {
    match packages {
        PackageSelection::All => verbose_at(phase, options) + 2,
        PackageSelection::Explicit(packages) => verbose_at(phase, options) + 1 + packages@.len(),
    }
}

/// The position of the first of the features that are asked for by name.
pub open spec fn named_features_at(packages: PackageSelection, phase: Phase, options: Options) -> int {
    features_at(packages, phase, options) + (if options.no_default_features {
        1int
    } else {
        0
    }) + (if options.all_features {
        1int
    } else {
        0
    })
}

/// A cargo command starts with the binary and with what says which phase this is: checking and building do not run anything,
/// and the tests run under the chosen tool.
pub proof fn phases_run_what_they_are_for(
    cargo_bin: Seq<char>,
    packages: PackageSelection,
    phase: Phase,
    options: Options,
)
    ensures
        ({
            let args = argv(cargo_bin, packages, phase, options);
            &&& args.len() > leading_args(phase, options)
            &&& args[0] == cargo_bin
            &&& phase == Phase::Check ==> args[1] == "check"@ && args[2] == "--tests"@
            &&& phase != Phase::Check && options.test_tool == TestTool::Cargo ==> args[1] == "test"@
            &&& phase != Phase::Check && options.test_tool == TestTool::Nextest ==> args[1] == "nextest"@ && args[2]
                == "run"@
            &&& phase == Phase::Build ==> args[leading_args(phase, options) - 1] == "--no-run"@
            &&& phase == Phase::Test && leading_args(phase, options) == 5 ==> args[2] == "--lib"@ && args[3] == "--bins"@
                && args[4] == "--tests"@
        }),
{
}

/// Behind the phase come the profile in the words of the test tool, `--verbose`, and the packages: the whole workspace, or
/// each package by its name and version, in order.
pub proof fn profile_and_packages_are_passed_on(
    cargo_bin: Seq<char>,
    packages: PackageSelection,
    phase: Phase,
    options: Options,
)
    ensures
        ({
            let args = argv(cargo_bin, packages, phase, options);
            let verbose = verbose_at(phase, options);
            &&& options.profile matches Some(profile) ==> args[leading_args(phase, options)] == if options.test_tool
                == TestTool::Nextest {
                "--cargo-profile="@ + profile@
            } else {
                "--profile="@ + profile@
            }
            &&& args[verbose] == "--verbose"@
            &&& packages is All ==> args[verbose + 1] == "--workspace"@
            &&& packages matches PackageSelection::Explicit(packages) ==> forall|i: int|
                #![trigger packages@[i]]
                0 <= i < packages@.len() ==> args[verbose + 1 + i] == "--package="@ + (packages@[i].name@ + "@"@
                    + packages@[i].version@)
        }),
{
    let args = argv(cargo_bin, packages, phase, options);
    if packages is Explicit {
        let given = packages->Explicit_0@;
        let verbose = verbose_at(phase, options);
        assert forall|i: int| #![trigger given[i]] 0 <= i < given.len() implies args[verbose + 1 + i] == "--package="@ + (
        given[i].name@ + "@"@ + given[i].version@) by {
            assert(args[verbose + 1 + i] == package_args(packages)[i]);
        }
    }
}

/// In every phase, the features that are asked for are asked of cargo: the default ones are turned off if that is wanted,
/// all are turned on if that is wanted, and each that is asked for by name is turned on, in order. Nothing else stands
/// between the packages and the additional arguments.
pub proof fn features_are_passed_on(cargo_bin: Seq<char>, packages: PackageSelection, phase: Phase, options: Options)
    ensures
        ({
            let args = argv(cargo_bin, packages, phase, options);
            let first = features_at(packages, phase, options);
            let named = named_features_at(packages, phase, options);
            &&& args.len() >= named + options.features@.len()
            &&& options.no_default_features ==> args[first] == "--no-default-features"@
            &&& options.all_features ==> args[named - 1] == "--all-features"@
            &&& forall|i: int|
                #![trigger options.features@[i]]
                0 <= i < options.features@.len() ==> args[named + i] == "--features="@ + options.features@[i]@
            &&& options.no_default_features ==> args.contains("--no-default-features"@)
            &&& options.all_features ==> args.contains("--all-features"@)
            &&& forall|i: int|
                #![trigger options.features@[i]]
                0 <= i < options.features@.len() ==> args.contains("--features="@ + options.features@[i]@)
        }),
{
    let args = argv(cargo_bin, packages, phase, options);
    let first = features_at(packages, phase, options);
    let named = named_features_at(packages, phase, options);
    let wanted = feature_args(options);
    assert(package_args(packages).len() == features_at(packages, phase, options) - verbose_at(phase, options) - 1);
    assert forall|k: int| 0 <= k < wanted.len() implies args[first + k] == #[trigger] wanted[k] by {}
    assert(options.no_default_features ==> args[first] == wanted[0]);
    assert(options.all_features ==> args[named - 1] == wanted[named - 1 - first]);
    assert forall|i: int| #![trigger options.features@[i]] 0 <= i < options.features@.len() implies args[named + i]
        == "--features="@ + options.features@[i]@ && args.contains("--features="@ + options.features@[i]@) by {
        assert(args[named + i] == wanted[named - first + i]);
    }
}

/// A cargo command ends with the additional arguments, in every phase and in order, and, if it runs tests, with those for
/// tests behind them; nothing else stands behind the features.
pub proof fn additional_arguments_come_last(
    cargo_bin: Seq<char>,
    packages: PackageSelection,
    phase: Phase,
    options: Options,
)
    ensures
        ({
            let args = argv(cargo_bin, packages, phase, options);
            let more = named_features_at(packages, phase, options) + options.features@.len();
            let last = more + options.additional_cargo_args@.len();
            &&& forall|i: int|
                #![trigger options.additional_cargo_args@[i]]
                0 <= i < options.additional_cargo_args@.len() ==> args[more + i] == options.additional_cargo_args@[i]@
            &&& phase != Phase::Test ==> args.len() == last
            &&& phase == Phase::Test ==> args.len() == last + options.additional_cargo_test_args@.len()
            &&& phase == Phase::Test ==> forall|i: int|
                #![trigger options.additional_cargo_test_args@[i]]
                0 <= i < options.additional_cargo_test_args@.len() ==> args[last + i]
                    == options.additional_cargo_test_args@[i]@
        }),
{
    let args = argv(cargo_bin, packages, phase, options);
    let more = named_features_at(packages, phase, options) + options.features@.len();
    let last = more + options.additional_cargo_args@.len();
    assert(package_args(packages).len() == features_at(packages, phase, options) - verbose_at(phase, options) - 1);
    let every = text::texts(options.additional_cargo_args@);
    let tests = text::texts(options.additional_cargo_test_args@);
    assert forall|i: int|
        #![trigger options.additional_cargo_args@[i]]
        0 <= i < options.additional_cargo_args@.len() implies args[more + i] == options.additional_cargo_args@[i]@ by {
        assert(args[more + i] == every[i]);
    }
    if phase == Phase::Test {
        assert forall|i: int|
            #![trigger options.additional_cargo_test_args@[i]]
            0 <= i < options.additional_cargo_test_args@.len() implies args[last + i]
            == options.additional_cargo_test_args@[i]@ by {
            assert(args[last + i] == tests[i]);
        }
    }
}

/// All phases of a scenario are about the same packages and features: behind the arguments of the phase, the arguments are the
/// same whatever the phase, but for the additional arguments of tests, which are passed on only if tests are run.
pub proof fn phases_differ_only_in_their_own_arguments(
    cargo_bin: Seq<char>,
    packages: PackageSelection,
    options: Options,
)
    ensures
        ({
            let checked = argv(cargo_bin, packages, Phase::Check, options).skip(leading_args(Phase::Check, options));
            let built = argv(cargo_bin, packages, Phase::Build, options).skip(leading_args(Phase::Build, options));
            let tested = argv(cargo_bin, packages, Phase::Test, options).skip(leading_args(Phase::Test, options));
            &&& built == checked
            &&& tested.len() == built.len() + options.additional_cargo_test_args@.len()
            &&& tested.take(built.len() as int) == built
        }),
{
    let checked = argv(cargo_bin, packages, Phase::Check, options).skip(leading_args(Phase::Check, options));
    let built = argv(cargo_bin, packages, Phase::Build, options).skip(leading_args(Phase::Build, options));
    let tested = argv(cargo_bin, packages, Phase::Test, options).skip(leading_args(Phase::Test, options));
    assert(built =~= checked);
    assert(tested.take(built.len() as int) =~= built);
}

/// The words of a text hold no space and are not empty.
pub proof fn words_are_not_empty(s: Seq<char>, i: int)
    requires
        0 <= i < words(s).len(),
    ensures
        words(s)[i].len() > 0,
        !words(s)[i].contains(' '),
{
    lemma_words_prefix(s, s.len() as int);
}

proof fn lemma_words_prefix(s: Seq<char>, n: int)
    requires
        0 <= n <= s.len(),
    ensures
        forall|i: int|
            0 <= i < words_prefix(s, n).0.len() ==> (#[trigger] words_prefix(s, n).0[i]).len() > 0
                && !words_prefix(s, n).0[i].contains(' '),
        !words_prefix(s, n).1.contains(' '),
    decreases n,
{
    if n > 0 {
        lemma_words_prefix(s, n - 1);
        let (words, word) = words_prefix(s, n - 1);
        if s[n - 1] != ' ' {
            let longer = word.push(s[n - 1]);
            if longer.contains(' ') {
                let k = choose|k: int| 0 <= k < longer.len() && longer[k] == ' ';
                assert(word[k] == ' ');
            }
        }
    }
}

/// The words of two texts with a space between them are those of the first and then those of the second.
pub proof fn words_are_separated_by_spaces(a: Seq<char>, b: Seq<char>)
    ensures
        words(a.push(' ') + b) == words(a) + words(b),
{
    let s = a.push(' ') + b;
    let n = a.len() as int;
    lemma_words_prefix_of_front(a, s, n);
    assert(words_prefix(s, n + 1) == (words(a), Seq::<char>::empty()));
    lemma_words_prefix_of_tail(s, b, n + 1, b.len() as int);
}

proof fn lemma_words_prefix_of_front(a: Seq<char>, s: Seq<char>, n: int)
    requires
        0 <= n <= a.len(),
        a.len() <= s.len(),
        forall|i: int| 0 <= i < a.len() ==> a[i] == s[i],
    ensures
        words_prefix(a, n) == words_prefix(s, n),
    decreases n,
{
    if n > 0 {
        lemma_words_prefix_of_front(a, s, n - 1);
    }
}

proof fn lemma_words_prefix_of_tail(s: Seq<char>, b: Seq<char>, start: int, n: int)
    requires
        0 <= start,
        s.len() == start + b.len(),
        forall|i: int| 0 <= i < b.len() ==> #[trigger] b[i] == s[start + i],
        words_prefix(s, start).1.len() == 0,
        0 <= n <= b.len(),
    ensures
        words_prefix(s, start + n).0 == words_prefix(s, start).0 + words_prefix(b, n).0,
        words_prefix(s, start + n).1 == words_prefix(b, n).1,
    decreases n,
{
    if n > 0 {
        lemma_words_prefix_of_tail(s, b, start, n - 1);
        assert(b[n - 1] == s[start + n - 1]);
    }
}

/// A text without spaces is one word, and an empty text has none.
pub proof fn text_without_spaces_is_one_word(s: Seq<char>)
    requires
        !s.contains(' '),
    ensures
        words(s) == if s.len() > 0 {
            seq![s]
        } else {
            Seq::<Seq<char>>::empty()
        },
{
    lemma_one_word(s, s.len() as int);
    assert(s.take(s.len() as int) =~= s);
}

proof fn lemma_one_word(s: Seq<char>, n: int)
    requires
        !s.contains(' '),
        0 <= n <= s.len(),
    ensures
        words_prefix(s, n) == (Seq::<Seq<char>>::empty(), s.take(n)),
    decreases n,
{
    if n > 0 {
        lemma_one_word(s, n - 1);
        assert(s.contains(s[n - 1]));
        assert(s.take(n) =~= s.take(n - 1).push(s[n - 1]));
    } else {
        assert(s.take(0) =~= Seq::<char>::empty());
    }
}

/// Compiler flags are set exactly if lints are capped or builds are compared, and each of these has its flag. The encoded
/// flags of the environment stay as they are in front of them, and the plain ones count only where there are no encoded ones.
pub proof fn flags_are_added_to_those_of_the_environment(
    options: Options,
    encoded: Option<Seq<char>>,
    rustflags: Option<Seq<char>>,
)
    ensures
        extra_flags(options).len() > 0 <==> options.cap_lints || options.detect_equivalent_mutants,
        options.cap_lints <==> extra_flags(options).contains("--cap-lints=warn"@),
        options.detect_equivalent_mutants <==> extra_flags(options).contains("-Cdebuginfo=0"@),
        extra_flags(options).no_duplicates(),
        inherited_flags(encoded, rustflags) == (match (encoded, rustflags) {
            (Some(given), _) => if given.len() > 0 {
                seq![given]
            } else {
                Seq::<Seq<char>>::empty()
            },
            (None, Some(given)) => words(given),
            (None, None) => Seq::<Seq<char>>::empty(),
        }),
{
    reveal_strlit("--cap-lints=warn");
    reveal_strlit("-Cdebuginfo=0");
    let extra = extra_flags(options);
    assert("--cap-lints=warn"@[1] != "-Cdebuginfo=0"@[1]);
    if options.cap_lints {
        assert(extra[0] == "--cap-lints=warn"@);
    }
    if options.detect_equivalent_mutants {
        assert(extra.last() == "-Cdebuginfo=0"@);
    }
}

/// Unless the caller says otherwise, a cargo command does not let snapshot tests write or pass by themselves, and is given the
/// compiler flags if there are any.
pub proof fn snapshot_tests_are_kept_honest(flags: Option<Seq<char>>, extra_env: Seq<(Seq<char>, Seq<char>)>)
    ensures
        effective(extra_env, "INSTA_UPDATE"@) is None ==> effective(variables(flags, extra_env), "INSTA_UPDATE"@) == Some(
            "no"@,
        ),
        effective(extra_env, "INSTA_FORCE_PASS"@) is None ==> effective(variables(flags, extra_env), "INSTA_FORCE_PASS"@)
            == Some("0"@),
        effective(extra_env, "CARGO_ENCODED_RUSTFLAGS"@) is None ==> effective(
            variables(flags, extra_env),
            "CARGO_ENCODED_RUSTFLAGS"@,
        ) == flags,
{
    reveal_strlit("INSTA_UPDATE");
    reveal_strlit("INSTA_FORCE_PASS");
    reveal_strlit("CARGO_ENCODED_RUSTFLAGS");
    let update = "INSTA_UPDATE"@;
    let pass = "INSTA_FORCE_PASS"@;
    let encoded = "CARGO_ENCODED_RUSTFLAGS"@;
    assert(update[6] != pass[6]);
    assert(update[0] != encoded[0]);
    assert(pass[0] != encoded[0]);
    let one = seq![(update, "no"@)];
    let two = seq![(update, "no"@), (pass, "0"@)];
    let front = variables(flags, Seq::empty());
    assert(variables(flags, extra_env) =~= front + extra_env);
    lemma_effective_of_tail(front, extra_env, update);
    lemma_effective_of_tail(front, extra_env, pass);
    lemma_effective_of_tail(front, extra_env, encoded);
    reveal_with_fuel(effective, 4);
    assert(two.drop_last() =~= one);
    assert(one.drop_last() =~= Seq::<(Seq<char>, Seq<char>)>::empty());
    match flags {
        Some(given) => {
            assert(front.drop_last() =~= two);
        },
        None => {
            assert(front =~= two);
        },
    }
}

/// The compiler flags are those of the environment and then those that the options ask for, with the separator of cargo between
/// them; where the options ask for none, nothing is said of the flags.
pub proof fn flags_stand_behind_those_of_the_environment(
    options: &Options,
    encoded: Option<&str>,
    rustflags: Option<&str>,
    flags: Option<String>,
)
    requires
        call_ensures(encoded_rustflags, (options, encoded, rustflags), flags),
    ensures
        flags is Some <==> options.cap_lints || options.detect_equivalent_mutants,
        flags is Some && encoded is None && rustflags is None ==> flags->0@ == if !options.detect_equivalent_mutants {
            "--cap-lints=warn"@
        } else if !options.cap_lints {
            "-Cdebuginfo=0"@
        } else {
            "--cap-lints=warn"@ + "\x1f"@ + "-Cdebuginfo=0"@
        },
        flags is Some && (encoded matches Some(given) && given@.len() > 0) ==> flags->0@ == encoded->0@ + "\x1f"@ + (
        if !options.detect_equivalent_mutants {
            "--cap-lints=warn"@
        } else if !options.cap_lints {
            "-Cdebuginfo=0"@
        } else {
            "--cap-lints=warn"@ + "\x1f"@ + "-Cdebuginfo=0"@
        }),
{
    let lints = "--cap-lints=warn"@;
    let debug = "-Cdebuginfo=0"@;
    let sep = "\x1f"@;
    if flags is Some {
        reveal_with_fuel(text::joined, 4);
        if encoded is None && rustflags is None {
            let all = inherited_flags(None, None) + extra_flags(*options);
            if !options.detect_equivalent_mutants {
                assert(all =~= seq![lints]);
            } else if !options.cap_lints {
                assert(all =~= seq![debug]);
            } else {
                assert(all =~= seq![lints, debug]);
                assert(seq![lints, debug].drop_last() =~= seq![lints]);
            }
        }
        if encoded is Some && encoded->0@.len() > 0 {
            let given = encoded->0@;
            let others = match rustflags {
                Some(s) => Some(s@),
                None => None,
            };
            let all = inherited_flags(Some(given), others) + extra_flags(*options);
            if !options.detect_equivalent_mutants {
                assert(all =~= seq![given, lints]);
                assert(seq![given, lints].drop_last() =~= seq![given]);
            } else if !options.cap_lints {
                assert(all =~= seq![given, debug]);
                assert(seq![given, debug].drop_last() =~= seq![given]);
            } else {
                assert(all =~= seq![given, lints, debug]);
                assert(seq![given, lints, debug].drop_last() =~= seq![given, lints]);
                assert(seq![given, lints].drop_last() =~= seq![given]);
                assert(given + sep + lints + sep + debug =~= given + sep + (lints + sep + debug));
            }
        }
    }
}

/// Only nextest has exit codes that can be unexpected: those that say that no tests ran, that a test failed or that the build
/// failed are expected, and so is every end of another tool.
pub proof fn known_exits_are_expected(argv: &Vec<String>, exit: Exit, unexpected: bool)
    requires
        argv@.len() >= 2,
        call_ensures(is_unexpected_nextest_exit, (argv, exit), unexpected),
    ensures
        argv@[1]@ != "nextest"@ ==> !unexpected,
        exit == Exit::Success || exit == Exit::Timeout || exit == Exit::Other || exit is Signalled ==> !unexpected,
        exit == Exit::Failure(4) || exit == Exit::Failure(100) || exit == Exit::Failure(101) ==> !unexpected,
        argv@[1]@ == "nextest"@ && (exit matches Exit::Failure(code) && code != 4 && code != 100 && code != 101) ==> unexpected,
{
}

} // verus!
