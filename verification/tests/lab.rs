//! How a run that builds and tests mutants proceeds.

use cargo_mutants::artifacts::{fingerprint_build_artifacts, Fingerprint};
use cargo_mutants::cargo::{PackageSelection, Phase};
use cargo_mutants::coverage::{ExportFile, LineCoverage, Segment};
use cargo_mutants::lab::{
    after_baseline, baseline_packages, coverage_tools, first_failure, lab_warning, n_threads, phases, prints_thread_error,
    random_order, test_mutants, timeout_for, uncovered_message, BuildLog, LabAction, LabEvent, LabState, LabWarning,
    ScenarioAction, ScenarioEvent, ScenarioPlan, ScenarioState, SkipReason, TestPackages, TestsForMutant, TimeoutSource,
    Timeouts,
};
use cargo_mutants::options::BaselineStrategy;
use cargo_mutants::{Genre, Mutant, Options, Package, SourceFile, Span};

fn package(name: &str) -> Package {
    Package {
        name: name.to_owned(),
        version: "0.1.0".to_owned(),
        top_sources: vec!["src/lib.rs".to_owned()],
    }
}

fn mutant_in(package_name: &str) -> Mutant {
    Mutant {
        source_file: SourceFile::new(package(package_name), "src/m.rs", "const X: u32 =\n 1 + 2;\n", true),
        function: None,
        span: Span::quad(2, 4, 2, 5),
        short_replaced: None,
        replacement: "-".to_owned(),
        genre: Genre::BinaryOperator,
        target: None,
        const_eval: false,
    }
}

fn coverage_of_line(line: usize) -> LineCoverage {
    let file = ExportFile {
        filename: "/build/src/m.rs".to_owned(),
        segments: vec![Segment { line, count: 1, has_count: true }],
    };
    LineCoverage::from_relative_files(&vec![file], &vec![Some("src/m.rs".to_owned())])
}

fn fingerprint(contents: &[u8]) -> Option<Fingerprint> {
    fingerprint_build_artifacts(&vec![("t".to_owned(), contents.to_vec())])
}

/// What a scenario does, given what happens to each of its actions.
fn run(plan: &ScenarioPlan, events: &mut dyn FnMut(&ScenarioAction) -> ScenarioEvent) -> Vec<String> {
    let mut done = Vec::new();
    let mut state = ScenarioState::Idle;
    let mut event = ScenarioEvent::Done;
    while state != ScenarioState::Ended {
        let (next, action) = plan.next(state, &event);
        done.push(match &action {
            ScenarioAction::WriteDiff => "diff".to_owned(),
            ScenarioAction::Message(text) => format!("message: {text}"),
            ScenarioAction::Apply => "apply".to_owned(),
            ScenarioAction::RunPhase(phase) => format!("{phase:?}"),
            ScenarioAction::CompareBuild => "compare".to_owned(),
            ScenarioAction::Revert => "revert".to_owned(),
            ScenarioAction::Finish(reason) => format!("finish {reason:?}"),
            ScenarioAction::Fail => "fail".to_owned(),
        });
        state = next;
        if state != ScenarioState::Ended {
            event = events(&action);
        }
    }
    done
}

fn all_succeed(action: &ScenarioAction) -> ScenarioEvent {
    match action {
        ScenarioAction::RunPhase(_) => ScenarioEvent::PhaseFinished { success: true },
        ScenarioAction::CompareBuild => ScenarioEvent::Compared(None),
        _ => ScenarioEvent::Done,
    }
}

#[test]
fn a_mutant_is_built_tested_and_reverted() {
    let plan = ScenarioPlan::for_mutant(&mutant_in("p"), None, &Options::new());
    assert_eq!(run(&plan, &mut all_succeed), ["diff", "apply", "Build", "Test", "revert", "finish None"]);
    let mut options = Options::new();
    options.check_only = true;
    let plan = ScenarioPlan::for_mutant(&mutant_in("p"), None, &options);
    assert_eq!(run(&plan, &mut all_succeed), ["diff", "apply", "Check", "revert", "finish None"]);
}

#[test]
fn the_baseline_changes_no_code() {
    let plan = ScenarioPlan::baseline(&Options::new());
    assert_eq!(run(&plan, &mut all_succeed), ["Build", "Test", "finish None"]);
}

#[test]
fn a_failed_phase_ends_the_scenario() {
    let plan = ScenarioPlan::for_mutant(&mutant_in("p"), None, &Options::new());
    let steps = run(&plan, &mut |action| match action {
        ScenarioAction::RunPhase(_) => ScenarioEvent::PhaseFinished { success: false },
        _ => ScenarioEvent::Done,
    });
    assert_eq!(steps, ["diff", "apply", "Build", "revert", "finish None"]);
    let steps = run(&plan, &mut |action| match action {
        ScenarioAction::RunPhase(_) => ScenarioEvent::PhaseFailed,
        _ => ScenarioEvent::Done,
    });
    assert_eq!(steps, ["diff", "apply", "Build", "revert", "fail"]);
}

#[test]
fn a_mutant_that_no_test_reaches_is_not_built() {
    let coverage = coverage_of_line(1);
    let mut options = Options::new();
    options.skip_uncovered = true;
    let message = "no test executed src/m.rs:2, so no test can catch this mutant; skipping the build and test phases \
                   (--skip-uncovered)";
    let plan = ScenarioPlan::for_mutant(&mutant_in("p"), Some(&coverage), &options);
    assert_eq!(
        run(&plan, &mut all_succeed),
        ["diff".to_owned(), format!("message: {message}"), "finish Some(Uncovered)".to_owned()]
    );
    assert_eq!(uncovered_message(Some(&coverage), &mutant_in("p")).unwrap(), message);
    assert_eq!(uncovered_message(Some(&coverage_of_line(2)), &mutant_in("p")), None);
    assert_eq!(uncovered_message(None, &mutant_in("p")), None);
    let mut in_const = mutant_in("p");
    in_const.const_eval = true;
    assert_eq!(uncovered_message(Some(&coverage), &in_const), None);
}

#[test]
fn an_equivalent_mutant_is_not_tested() {
    let mut options = Options::new();
    options.detect_equivalent_mutants = true;
    let plan = ScenarioPlan::for_mutant(&mutant_in("p"), None, &options);
    assert_eq!(
        run(&plan, &mut all_succeed),
        ["diff", "apply", "Build", "compare", "Test", "revert", "finish None"]
    );
    let steps = run(&plan, &mut |action| match action {
        ScenarioAction::CompareBuild => ScenarioEvent::Compared(Some("the unmutated baseline".to_owned())),
        _ => all_succeed(action),
    });
    assert_eq!(
        steps,
        [
            "diff",
            "apply",
            "Build",
            "compare",
            "message: build artifacts are identical to the unmutated baseline; skipping the test phase \
             (--detect-equivalent-mutants)",
            "revert",
            "finish Some(Equivalent)"
        ]
    );
    assert_eq!(format!("{:?}", SkipReason::Equivalent), "Equivalent");
}

#[test]
fn builds_are_compared_with_the_baseline_and_with_earlier_ones() {
    let mut log = BuildLog::new(fingerprint(b"baseline"));
    assert_eq!(log.equivalent_build(None, "m0"), None);
    assert_eq!(log.equivalent_build(fingerprint(b"baseline"), "m1").unwrap(), "the unmutated baseline");
    assert_eq!(log.equivalent_build(fingerprint(b"other"), "m2 \"x\""), None);
    assert_eq!(log.equivalent_build(fingerprint(b"other"), "m3").unwrap(), "mutant \"m2 \\\"x\\\"\"");
    assert_eq!(log.equivalent_build(fingerprint(b"third"), "m4"), None);
    assert_eq!(log.equivalent_build(fingerprint(b"other"), "m5").unwrap(), "mutant \"m2 \\\"x\\\"\"");
    let mut log = BuildLog::new(None);
    assert_eq!(log.equivalent_build(fingerprint(b"baseline"), "m1"), None);
}

#[test]
fn phases_and_their_timeouts() {
    let mut options = Options::new();
    assert_eq!(phases(&options), [Phase::Build, Phase::Test]);
    options.check_only = true;
    assert_eq!(phases(&options), [Phase::Check]);
    let timeouts = Timeouts { build: Some(1), test: None };
    assert_eq!(timeout_for(Phase::Build, timeouts), Some(1));
    assert_eq!(timeout_for(Phase::Check, timeouts), Some(1));
    assert_eq!(timeout_for(Phase::Test, timeouts), None);
}

#[test]
fn skip_uncovered_is_rejected_with_baseline_skip() {
    let mut options = Options::new();
    options.skip_uncovered = true;
    options.baseline = BaselineStrategy::Skip;
    let message = coverage_tools(&options).err().unwrap();
    assert!(message.contains("--skip-uncovered"));
    assert!(message.contains("--baseline=skip"));
}

#[test]
fn skip_uncovered_is_rejected_with_check() {
    let mut options = Options::new();
    options.skip_uncovered = true;
    options.check_only = true;
    let message = coverage_tools(&options).err().unwrap();
    assert!(message.contains("--skip-uncovered"));
    assert!(message.contains("--check"));
}

#[test]
fn tools_are_found_only_where_they_are_needed() {
    let mut options = Options::new();
    assert_eq!(coverage_tools(&options), Ok(false));
    options.skip_uncovered = true;
    assert_eq!(coverage_tools(&options), Ok(true));
}

/// What a run does, with a baseline that succeeds or not.
fn lab_steps(options: &Options, n_mutants: usize, baseline: bool) -> Vec<LabAction> {
    let mut done = Vec::new();
    let mut state = LabState::Idle;
    let mut event = LabEvent::Done;
    while state != LabState::Ended {
        let (next, action) = test_mutants(options, n_mutants, state, event);
        done.push(action);
        event = match action {
            LabAction::RunBaseline => LabEvent::BaselineFinished { success: baseline, last_phase: Phase::Build },
            _ => LabEvent::Done,
        };
        state = next;
    }
    done
}

#[test]
fn the_baseline_comes_before_the_mutants() {
    let mut options = Options::new();
    options.jobs = Some(3);
    assert_eq!(
        lab_steps(&options, 2, true),
        [
            LabAction::OpenLog,
            LabAction::WriteList,
            LabAction::Prepare,
            LabAction::RunBaseline,
            LabAction::TestMutants { timeouts: TimeoutSource::Baseline, n_threads: 2 },
            LabAction::Finish,
        ]
    );
    assert_eq!(
        lab_steps(&options, 2, false),
        [
            LabAction::OpenLog,
            LabAction::WriteList,
            LabAction::Prepare,
            LabAction::RunBaseline,
            LabAction::EndAfterBaseline(Phase::Build),
        ]
    );
    options.baseline = BaselineStrategy::Skip;
    options.shuffle = true;
    assert_eq!(
        lab_steps(&options, 5, true),
        [
            LabAction::OpenLog,
            LabAction::Shuffle,
            LabAction::WriteList,
            LabAction::Prepare,
            LabAction::TestMutants { timeouts: TimeoutSource::Options, n_threads: 3 },
            LabAction::Finish,
        ]
    );
}

#[test]
fn nothing_is_built_without_mutants() {
    let mut options = Options::new();
    options.detect_equivalent_mutants = true;
    options.check_only = true;
    assert_eq!(
        lab_steps(&options, 0, true),
        [
            LabAction::WarnCheckSkipsDetection,
            LabAction::OpenLog,
            LabAction::WriteList,
            LabAction::EndWithoutMutants,
        ]
    );
    let mut options = Options::new();
    options.skip_uncovered = true;
    assert_eq!(lab_steps(&options, 0, true)[0], LabAction::FindTools);
    options.check_only = true;
    assert_eq!(lab_steps(&options, 1, true), [LabAction::RefuseOptions]);
}

#[test]
fn threads_and_failures() {
    assert_eq!(n_threads(None, 5), 1);
    assert_eq!(n_threads(Some(4), 5), 4);
    assert_eq!(n_threads(Some(4), 2), 2);
    assert_eq!(n_threads(Some(0), 2), 1);
    assert_eq!(first_failure(&vec![false, true, true]), Some(1));
    assert_eq!(first_failure(&vec![false]), None);
    assert!(prints_thread_error("anything"));
    assert!(!prints_thread_error("interrupted"));
}

#[test]
fn what_follows_the_baseline() {
    let mut options = Options::new();
    options.detect_equivalent_mutants = true;
    let follow_up = after_baseline(&options, true);
    assert!(follow_up.fingerprint && !follow_up.coverage);
    let follow_up = after_baseline(&options, false);
    assert!(!follow_up.fingerprint && !follow_up.coverage);
    options.skip_uncovered = true;
    assert!(after_baseline(&options, true).coverage);
}

#[test]
fn warnings_at_the_end() {
    assert_eq!(lab_warning(0, 0), Some(LabWarning::NoMutants));
    assert_eq!(lab_warning(3, 3), Some(LabWarning::NoViableMutants));
    assert_eq!(lab_warning(3, 2), None);
}

#[test]
fn the_baseline_holds_each_package_once() {
    let mutants: Vec<Mutant> = ["b", "a", "b", "a", "c"].iter().map(|name| mutant_in(name)).collect();
    let names: Vec<String> = baseline_packages(&mutants).into_iter().map(|package| package.name).collect();
    assert_eq!(names, ["a", "b", "c"]);
}

#[test]
fn packages_tested_for_a_mutant() {
    let named = vec![package("x"), package("y")];
    let names = |selection: PackageSelection| match selection {
        PackageSelection::All => vec!["(all)".to_owned()],
        PackageSelection::Explicit(packages) => packages.into_iter().map(|package| package.name).collect(),
    };
    let mutant = mutant_in("p");
    assert_eq!(names(TestsForMutant::new(&TestPackages::Workspace, &named).packages_for(&mutant)), ["(all)"]);
    assert_eq!(names(TestsForMutant::new(&TestPackages::Mutated, &named).packages_for(&mutant)), ["p"]);
    assert_eq!(
        names(TestsForMutant::new(&TestPackages::Named(vec![]), &named).packages_for(&mutant)),
        ["x", "y"]
    );
}

#[test]
fn a_random_order_holds_every_number_once() {
    let order = random_order(100);
    let mut sorted = order.clone();
    sorted.sort();
    assert_eq!(sorted, (0..100).collect::<Vec<usize>>());
    let another = random_order(100);
    assert!(order != sorted || another != sorted, "shuffling left the numbers in order twice");
}
