//! Successively apply mutations to the source code and run cargo to check, build, and test them: what is done in which
//! order, and what is skipped.

use vstd::prelude::*;
use crate::artifacts;
use crate::artifacts::Fingerprint;
use crate::cargo::{PackageSelection, Phase};
use crate::coverage;
use crate::coverage::LineCoverage;
use crate::mutant::{Mutant, MutantModel};
use crate::options::{BaselineStrategy, Options};
use crate::source::{Package, PackageModel};
use crate::text;
use crate::text::push_decimal;

verus! {

/// Why a scenario was not built or not tested.
#[derive(Clone, Copy, Debug, PartialEq, Eq, Structural)]
pub enum SkipReason {
    /// No test executes the line that the mutant changes.
    Uncovered,
    /// The build cannot be told from another one.
    Equivalent,
}

/// The phases of a scenario, in order.
pub open spec fn phases_of(options: Options) -> Seq<Phase> {
    if options.check_only {
        seq![Phase::Check]
    } else {
        seq![Phase::Build, Phase::Test]
    }
}

/// The phases of a scenario, in order.
pub fn phases(options: &Options) -> (r: Vec<Phase>)
    ensures
        r@ == phases_of(*options),
{
    let mut r: Vec<Phase> = Vec::new();
    if options.check_only {
        r.push(Phase::Check);
    } else {
        r.push(Phase::Build);
        r.push(Phase::Test);
    }
    assert(r@ =~= phases_of(*options));
    r
}

/// How long phases may take, in nanoseconds, where that is limited.
#[derive(Clone, Copy, Debug, PartialEq, Eq, Structural)]
pub struct Timeouts {
    pub build: Option<u128>,
    pub test: Option<u128>,
}

/// How long a phase may take.
pub fn timeout_for(phase: Phase, timeouts: Timeouts) -> (r: Option<u128>)
    ensures
        r == match phase {
            Phase::Test => timeouts.test,
            Phase::Build | Phase::Check => timeouts.build,
        },
{
    match phase {
        Phase::Test => timeouts.test,
        Phase::Build | Phase::Check => timeouts.build,
    }
}

/// What the log says of a mutant that no test reaches.
pub open spec fn uncovered_text(path: Seq<char>, line: usize) -> Seq<char> {
    "no test executed "@ + path + ":"@ + text::decimal(line as nat)
        + ", so no test can catch this mutant; skipping the build and test phases (--skip-uncovered)"@
}

/// If coverage was measured and no test executed the line this mutant changes, describe that, for the log and the
/// scenario's output file.
///
/// Returns `None` when coverage was not measured at all, so a run without `--skip-uncovered` never skips anything.
pub fn uncovered_message(coverage: Option<&LineCoverage>, mutant: &Mutant) -> (r: Option<String>)
    ensures
        match r {
            Some(message) => coverage is Some && !mutant.const_eval && coverage::fits_coverage(
                coverage->0@,
                mutant@.source_file.path,
                mutant.span.start.line,
                false,
            ) && message@ == uncovered_text(mutant@.source_file.path, mutant.span.start.line),
            None => coverage is None || mutant.const_eval || coverage::fits_coverage(
                coverage->0@,
                mutant@.source_file.path,
                mutant.span.start.line,
                true,
            ),
        },
{
    let coverage = match coverage {
        Some(coverage) => coverage,
        None => return None,
    };
    if mutant.const_eval {
        // A compile-time-evaluated position has no coverage counter, and a test can still catch a mutant here (e.g. by
        // asserting on the resulting constant), so treating it as uncovered would be wrong: build and test it as usual.
        return None;
    }
    let file = mutant.source_file.tree_relative_slashes();
    let line = mutant.span.start.line;
    if coverage.covers(file, line) {
        None
    } else {
        let mut message = "no test executed ".to_owned();
        message.push_str(file);
        message.push_str(":");
        push_decimal(&mut message, line);
        message.push_str(", so no test can catch this mutant; skipping the build and test phases (--skip-uncovered)");
        Some(message)
    }
}

/// What is known of builds: the fingerprint of the baseline, and those of the mutants built so far.
pub struct BuildLog {
    /// The fingerprint of the baseline build's test artifacts, if it was built and could be fingerprinted.
    baseline: Option<Fingerprint>,
    /// Fingerprints of every mutant build seen so far, each with the name of the first mutant that produced it.
    seen: Vec<(Fingerprint, String)>,
}

/// What some records say, by fingerprint.
pub open spec fn seen_map(seen: Seq<(Fingerprint, String)>, n: int) -> Map<Fingerprint, Seq<char>>
    decreases n,
{
    if n <= 0 {
        Map::empty()
    } else {
        seen_map(seen, n - 1).insert(seen[n - 1].0, seen[n - 1].1@)
    }
}

/// Only the first `n` records decide what they say.
proof fn lemma_seen_map_prefix(a: Seq<(Fingerprint, String)>, b: Seq<(Fingerprint, String)>, n: int)
    requires
        n <= a.len(),
        n <= b.len(),
        forall|i: int| 0 <= i < n ==> a[i] == b[i],
    ensures
        seen_map(a, n) == seen_map(b, n),
    decreases n,
{
    if n > 0 {
        lemma_seen_map_prefix(a, b, n - 1);
    }
}

impl BuildLog {
    /// The fingerprint of the baseline, if it is known.
    pub closed spec fn baseline_fingerprint(self) -> Option<Fingerprint> {
        self.baseline
    }

    /// The name of the first mutant that produced a fingerprint.
    pub closed spec fn firsts(self) -> Map<Fingerprint, Seq<char>> {
        seen_map(self.seen@, self.seen@.len() as int)
    }

    /// A log of no builds but that of the baseline, if it was fingerprinted.
    pub fn new(baseline: Option<Fingerprint>) -> (r: BuildLog)
        ensures
            r.baseline_fingerprint() == baseline,
            r.firsts() == Map::<Fingerprint, Seq<char>>::empty(),
    {
        BuildLog { baseline, seen: Vec::new() }
    }

    /// What the build of a mutant with the given fingerprint is indistinguishable from.
    pub open spec fn match_of(self, fingerprint: Option<Fingerprint>) -> Option<Seq<char>> {
        match fingerprint {
            None => None,
            Some(f) => {
                if self.baseline_fingerprint() == Some(f) {
                    Some("the unmutated baseline"@)
                } else if self.firsts().contains_key(f) {
                    Some("mutant "@ + text::debug_form(self.firsts()[f]))
                } else {
                    None
                }
            },
        }
    }

    /// That this is what was known before, and that a mutant of the given name was built, with the given fingerprint: it is
    /// the first with that fingerprint unless the build is indistinguishable from another.
    pub open spec fn follows(self, before: BuildLog, fingerprint: Option<Fingerprint>, name: Seq<char>) -> bool {
        &&& self.baseline_fingerprint() == before.baseline_fingerprint()
        &&& self.firsts() == (if fingerprint is None || before.match_of(fingerprint) is Some {
            before.firsts()
        } else {
            before.firsts().insert(fingerprint->0, name)
        })
    }

    /// Check whether the artifacts just built are indistinguishable from the baseline or an earlier mutant.
    ///
    /// If so, returns a description of what they match, for logging. Otherwise, if this build could be fingerprinted,
    /// records it as the first mutant to produce it (so a later, identical mutant can be found redundant with this one),
    /// and returns `None`.
    ///
    /// Returns `None` without recording anything if the artifacts can't be fingerprinted: a mutant must never be treated
    /// as equivalent just because we couldn't tell.
    pub fn equivalent_build(&mut self, fingerprint: Option<Fingerprint>, mutant_name: &str) -> (r: Option<String>)
        ensures
            crate::mutant::optional_text(r) == old(self).match_of(fingerprint),
            final(self).follows(*old(self), fingerprint, mutant_name@),
    {
        let f = match fingerprint {
            Some(f) => f,
            None => return None,
        };
        if let Some(baseline) = self.baseline {
            if baseline == f {
                return Some("the unmutated baseline".to_owned());
            }
        }
        let ghost before = self.seen@;
        let mut n: usize = self.seen.len();
        while n > 0
            invariant
                n <= self.seen@.len(),
                *self == *old(self),
                fingerprint == Some(f),
                self.baseline != Some(f),
                self.firsts().contains_key(f) == seen_map(self.seen@, n as int).contains_key(f),
                self.firsts().contains_key(f) ==> self.firsts()[f] == seen_map(
                    self.seen@,
                    n as int,
                )[f],
            decreases n,
        {
            if self.seen[n - 1].0 == f {
                let mut r = "mutant ".to_owned();
                r.push_str(text::debug_string(self.seen[n - 1].1.as_str()).as_str());
                return Some(r);
            }
            n = n - 1;
        }
        self.seen.push((f, mutant_name.to_owned()));
        proof {
            lemma_seen_map_prefix(before, self.seen@, before.len() as int);
        }
        None
    }
}

/// What a scenario is about, as far as its course depends on it.
pub struct ScenarioPlan {
    /// Whether a mutant is tested, and not the unmutated baseline.
    has_mutant: bool,
    /// What is said of the mutant, if no test reaches it.
    uncovered: Option<String>,
    /// Whether the build of the mutant is compared with other builds.
    compares_builds: bool,
    /// The phases to run, in order.
    phases: Vec<Phase>,
}

/// The model of a [`ScenarioPlan`].
pub ghost struct PlanModel {
    pub has_mutant: bool,
    pub uncovered: Option<Seq<char>>,
    pub compares_builds: bool,
    pub phases: Seq<Phase>,
}

impl View for ScenarioPlan {
    type V = PlanModel;

    closed spec fn view(&self) -> PlanModel {
        PlanModel {
            has_mutant: self.has_mutant,
            uncovered: crate::mutant::optional_text(self.uncovered),
            compares_builds: self.compares_builds,
            phases: self.phases@,
        }
    }
}

/// How a scenario ends.
#[derive(Clone, Copy, Debug, PartialEq, Eq, Structural)]
pub enum Ending {
    /// Its outcome is recorded.
    Finish(Option<SkipReason>),
    /// Some unexpected internal error stops the program.
    Fail,
}

/// Where a scenario stands: what was asked for last.
#[derive(Clone, Copy, Debug, PartialEq, Eq, Structural)]
pub enum ScenarioState {
    Idle,
    WritingDiff,
    SayingUncovered,
    Applying,
    /// The phase at this position is running.
    Running(usize),
    /// The build of the phase at this position is being compared with other builds.
    Comparing(usize),
    SayingEquivalent,
    Reverting(Ending),
    Ended,
}

/// What happened to a scenario.
pub enum ScenarioEvent {
    /// The scenario was started, or what was asked for was done.
    Done,
    /// The phase ran.
    PhaseFinished {
        success: bool,
    },
    /// The phase could not be run.
    PhaseFailed,
    /// The build was compared; what it is indistinguishable from, if anything.
    Compared(Option<String>),
}

/// The model of a [`ScenarioEvent`].
pub ghost enum EventModel {
    Done,
    PhaseFinished {
        success: bool,
    },
    PhaseFailed,
    Compared(Option<Seq<char>>),
}

impl View for ScenarioEvent {
    type V = EventModel;

    open spec fn view(&self) -> EventModel {
        match *self {
            ScenarioEvent::Done => EventModel::Done,
            ScenarioEvent::PhaseFinished { success } => EventModel::PhaseFinished { success },
            ScenarioEvent::PhaseFailed => EventModel::PhaseFailed,
            ScenarioEvent::Compared(what) => EventModel::Compared(crate::mutant::optional_text(what)),
        }
    }
}

/// What is to be done next for a scenario.
pub enum ScenarioAction {
    /// Write the diff of the mutant to the scenario's output.
    WriteDiff,
    /// Write a message to the scenario's log.
    Message(String),
    /// Write the mutated code to the build directory.
    Apply,
    /// Run cargo.
    RunPhase(Phase),
    /// Fingerprint the build, and compare it with the others.
    CompareBuild,
    /// Write the original code back.
    Revert,
    /// Record the outcome.
    Finish(Option<SkipReason>),
    /// Stop with the error of the phase.
    Fail,
}

/// The model of a [`ScenarioAction`].
pub ghost enum ActionModel {
    WriteDiff,
    Message(Seq<char>),
    Apply,
    RunPhase(Phase),
    CompareBuild,
    Revert,
    Finish(Option<SkipReason>),
    Fail,
}

impl View for ScenarioAction {
    type V = ActionModel;

    open spec fn view(&self) -> ActionModel {
        match *self {
            ScenarioAction::WriteDiff => ActionModel::WriteDiff,
            ScenarioAction::Message(s) => ActionModel::Message(s@),
            ScenarioAction::Apply => ActionModel::Apply,
            ScenarioAction::RunPhase(phase) => ActionModel::RunPhase(phase),
            ScenarioAction::CompareBuild => ActionModel::CompareBuild,
            ScenarioAction::Revert => ActionModel::Revert,
            ScenarioAction::Finish(reason) => ActionModel::Finish(reason),
            ScenarioAction::Fail => ActionModel::Fail,
        }
    }
}

/// What the log says of a mutant whose build is the same as another one.
pub open spec fn equivalent_text(what: Seq<char>) -> Seq<char> {
    "build artifacts are identical to "@ + what + "; skipping the test phase (--detect-equivalent-mutants)"@
}

impl PlanModel {
    /// That an event can happen where a scenario stands.
    pub open spec fn expects(self, state: ScenarioState, event: EventModel) -> bool {
        match state {
            ScenarioState::Running(k) => k < self.phases.len() && (event is PhaseFinished || event is PhaseFailed),
            ScenarioState::Comparing(k) => k < self.phases.len() && event is Compared,
            ScenarioState::Ended => false,
            _ => event is Done,
        }
    }

    /// The end of a scenario.
    pub open spec fn end(self, ending: Ending) -> (ScenarioState, ActionModel) {
        (
            ScenarioState::Ended,
            match ending {
                Ending::Finish(reason) => ActionModel::Finish(reason),
                Ending::Fail => ActionModel::Fail,
            },
        )
    }

    /// The way to the end of a scenario: a mutant is reverted first.
    pub open spec fn wind_down(self, ending: Ending) -> (ScenarioState, ActionModel) {
        if self.has_mutant {
            (ScenarioState::Reverting(ending), ActionModel::Revert)
        } else {
            self.end(ending)
        }
    }

    /// The start of the phase at position `k`, or the end where there is none.
    pub open spec fn run_from(self, k: int) -> (ScenarioState, ActionModel) {
        if k < self.phases.len() {
            (ScenarioState::Running(k as usize), ActionModel::RunPhase(self.phases[k]))
        } else {
            self.wind_down(Ending::Finish(None))
        }
    }

    /// What is done after an event, and where the scenario stands then.
    pub open spec fn step(self, state: ScenarioState, event: EventModel) -> (ScenarioState, ActionModel) {
        match state {
            ScenarioState::Idle => {
                if self.has_mutant {
                    (ScenarioState::WritingDiff, ActionModel::WriteDiff)
                } else {
                    self.run_from(0)
                }
            },
            ScenarioState::WritingDiff => match self.uncovered {
                Some(message) => (ScenarioState::SayingUncovered, ActionModel::Message(message)),
                None => (ScenarioState::Applying, ActionModel::Apply),
            },
            ScenarioState::SayingUncovered => self.end(Ending::Finish(Some(SkipReason::Uncovered))),
            ScenarioState::Applying => self.run_from(0),
            ScenarioState::Running(k) => match event {
                EventModel::PhaseFinished { success } => {
                    if !success {
                        self.wind_down(Ending::Finish(None))
                    } else if self.phases[k as int] == Phase::Build && self.compares_builds && self.has_mutant {
                        (ScenarioState::Comparing(k), ActionModel::CompareBuild)
                    } else {
                        self.run_from(k + 1)
                    }
                },
                _ => self.wind_down(Ending::Fail),
            },
            ScenarioState::Comparing(k) => match event {
                EventModel::Compared(Some(what)) => (
                    ScenarioState::SayingEquivalent,
                    ActionModel::Message(equivalent_text(what)),
                ),
                _ => self.run_from(k + 1),
            },
            ScenarioState::SayingEquivalent => self.wind_down(Ending::Finish(Some(SkipReason::Equivalent))),
            ScenarioState::Reverting(ending) => self.end(ending),
            ScenarioState::Ended => (ScenarioState::Ended, ActionModel::Fail),
        }
    }

    /// That a scenario can stand here: without a mutant, nothing is done but running the phases.
    pub open spec fn reaches(self, state: ScenarioState) -> bool {
        self.has_mutant || state is Idle || state is Running || state is Ended
    }

    /// Whether the build directory holds the mutated code, once what was asked for last is done.
    pub open spec fn holds_mutant(self, state: ScenarioState) -> bool {
        self.has_mutant && (state is Applying || state is Running || state is Comparing || state is SayingEquivalent)
    }
}

impl ScenarioPlan {
    /// The plan for the unmutated baseline.
    pub fn baseline(options: &Options) -> (r: ScenarioPlan)
        ensures
            r@ == (PlanModel {
                has_mutant: false,
                uncovered: None,
                compares_builds: options.detect_equivalent_mutants,
                phases: phases_of(*options),
            }),
    {
        ScenarioPlan {
            has_mutant: false,
            uncovered: None,
            compares_builds: options.detect_equivalent_mutants,
            phases: phases(options),
        }
    }

    /// The plan for a mutant, given what the coverage of the baseline says.
    pub fn for_mutant(mutant: &Mutant, coverage: Option<&LineCoverage>, options: &Options) -> (r: ScenarioPlan)
        ensures
            r@.has_mutant,
            r@.compares_builds == options.detect_equivalent_mutants,
            r@.phases == phases_of(*options),
            match r@.uncovered {
                Some(message) => coverage is Some && !mutant.const_eval && coverage::fits_coverage(
                    coverage->0@,
                    mutant@.source_file.path,
                    mutant.span.start.line,
                    false,
                ) && message == uncovered_text(mutant@.source_file.path, mutant.span.start.line),
                None => coverage is None || mutant.const_eval || coverage::fits_coverage(
                    coverage->0@,
                    mutant@.source_file.path,
                    mutant.span.start.line,
                    true,
                ),
            },
    {
        ScenarioPlan {
            has_mutant: true,
            uncovered: uncovered_message(coverage, mutant),
            compares_builds: options.detect_equivalent_mutants,
            phases: phases(options),
        }
    }

    fn end(ending: Ending) -> (r: (ScenarioState, ScenarioAction))
        ensures
            r.0 == ScenarioState::Ended,
            r.1@ == (match ending {
                Ending::Finish(reason) => ActionModel::Finish(reason),
                Ending::Fail => ActionModel::Fail,
            }),
    {
        match ending {
            Ending::Finish(reason) => (ScenarioState::Ended, ScenarioAction::Finish(reason)),
            Ending::Fail => (ScenarioState::Ended, ScenarioAction::Fail),
        }
    }

    fn wind_down(&self, ending: Ending) -> (r: (ScenarioState, ScenarioAction))
        ensures
            (r.0, r.1@) == self@.wind_down(ending),
    {
        if self.has_mutant {
            (ScenarioState::Reverting(ending), ScenarioAction::Revert)
        } else {
            ScenarioPlan::end(ending)
        }
    }

    fn run_from(&self, k: usize) -> (r: (ScenarioState, ScenarioAction))
        ensures
            (r.0, r.1@) == self@.run_from(k as int),
    {
        if k < self.phases.len() {
            (ScenarioState::Running(k), ScenarioAction::RunPhase(self.phases[k]))
        } else {
            self.wind_down(Ending::Finish(None))
        }
    }

    /// What to do after an event, and where the scenario stands then.
    ///
    /// The scenario starts idle. A mutant's diff is written first. If no test reaches the mutant, that is said and
    /// recorded, and nothing is built. Otherwise the mutant is applied, the phases are run until one does not succeed, and
    /// the mutant is reverted. If its build is the same as another one, that is said, and it is not tested.
    pub fn next(&self, state: ScenarioState, event: &ScenarioEvent) -> (r: (ScenarioState, ScenarioAction))
        requires
            self@.expects(state, event@),
        ensures
            (r.0, r.1@) == self@.step(state, event@),
    {
        let n_phases = self.phases.len();
        assert(n_phases == self@.phases.len());
        match state {
            ScenarioState::Idle => {
                if self.has_mutant {
                    (ScenarioState::WritingDiff, ScenarioAction::WriteDiff)
                } else {
                    self.run_from(0)
                }
            },
            ScenarioState::WritingDiff => match &self.uncovered {
                Some(message) => (ScenarioState::SayingUncovered, ScenarioAction::Message(message.clone())),
                None => (ScenarioState::Applying, ScenarioAction::Apply),
            },
            ScenarioState::SayingUncovered => ScenarioPlan::end(Ending::Finish(Some(SkipReason::Uncovered))),
            ScenarioState::Applying => self.run_from(0),
            ScenarioState::Running(k) => match event {
                ScenarioEvent::PhaseFinished { success } => {
                    if !*success {
                        self.wind_down(Ending::Finish(None))
                    } else if self.phases[k] == Phase::Build && self.compares_builds && self.has_mutant {
                        (ScenarioState::Comparing(k), ScenarioAction::CompareBuild)
                    } else {
                        self.run_from(k + 1)
                    }
                },
                _ => self.wind_down(Ending::Fail),
            },
            ScenarioState::Comparing(k) => match event {
                ScenarioEvent::Compared(Some(what)) => {
                    let mut message = "build artifacts are identical to ".to_owned();
                    message.push_str(what.as_str());
                    message.push_str("; skipping the test phase (--detect-equivalent-mutants)");
                    (ScenarioState::SayingEquivalent, ScenarioAction::Message(message))
                },
                _ => self.run_from(k + 1),
            },
            ScenarioState::SayingEquivalent => self.wind_down(Ending::Finish(Some(SkipReason::Equivalent))),
            ScenarioState::Reverting(ending) => ScenarioPlan::end(ending),
            ScenarioState::Ended => (ScenarioState::Ended, ScenarioAction::Fail),
        }
    }
}

/// The code in the build directory is mutated and restored in turn: a mutant is applied only where the original code
/// stands, cargo runs on a mutant only where the mutated code stands, a mutant is reverted only where the mutated code
/// stands, and a scenario never ends with the mutated code in place.
pub proof fn scenario_leaves_the_original_code(plan: PlanModel, state: ScenarioState, event: EventModel)
    requires
        plan.expects(state, event),
        plan.reaches(state),
    ensures
        ({
            let (next, action) = plan.step(state, event);
            let mutated = plan.holds_mutant(state);
            &&& plan.reaches(next)
            &&& action is Apply ==> !mutated
            &&& action is RunPhase ==> mutated == plan.has_mutant
            &&& action is Revert ==> mutated
            &&& action is Finish || action is Fail ==> !mutated
            &&& next is Ended <==> action is Finish || action is Fail
            &&& plan.holds_mutant(next) == (if action is Apply {
                true
            } else if action is Revert {
                false
            } else {
                mutated
            })
        }),
{
}

/// A mutant that no test reaches is neither applied nor built.
pub proof fn uncovered_mutant_is_not_built(plan: PlanModel)
    requires
        plan.has_mutant,
        plan.uncovered is Some,
    ensures
        ({
            let first = plan.step(ScenarioState::Idle, EventModel::Done);
            let second = plan.step(first.0, EventModel::Done);
            let third = plan.step(second.0, EventModel::Done);
            &&& first.1 == ActionModel::WriteDiff
            &&& second.1 == ActionModel::Message(plan.uncovered->0)
            &&& third == (ScenarioState::Ended, ActionModel::Finish(Some(SkipReason::Uncovered)))
        }),
{
}

/// A mutant whose build is the same as another one is reverted and recorded without being tested.
pub proof fn equivalent_mutant_is_not_tested(plan: PlanModel, k: usize, what: Seq<char>)
    requires
        plan.has_mutant,
        k < plan.phases.len(),
    ensures
        ({
            let first = plan.step(ScenarioState::Comparing(k), EventModel::Compared(Some(what)));
            let second = plan.step(first.0, EventModel::Done);
            let third = plan.step(second.0, EventModel::Done);
            &&& first.1 == ActionModel::Message(equivalent_text(what))
            &&& second.1 == ActionModel::Revert
            &&& third == (ScenarioState::Ended, ActionModel::Finish(Some(SkipReason::Equivalent)))
        }),
{
}

/// How many steps a scenario has left, at most.
pub open spec fn steps_left(plan: PlanModel, state: ScenarioState) -> int {
    let n = plan.phases.len() as int;
    match state {
        ScenarioState::Idle => 2 * n + 10,
        ScenarioState::WritingDiff => 2 * n + 9,
        ScenarioState::Applying => 2 * n + 8,
        ScenarioState::Running(k) => 2 * (n - k) + 6,
        ScenarioState::Comparing(k) => 2 * (n - k) + 5,
        ScenarioState::SayingEquivalent => 3,
        ScenarioState::SayingUncovered => 3,
        ScenarioState::Reverting(_) => 1,
        ScenarioState::Ended => 0,
    }
}

/// Every scenario ends: each step leaves fewer steps.
pub proof fn scenario_ends(plan: PlanModel, state: ScenarioState, event: EventModel)
    requires
        plan.expects(state, event),
        plan.phases.len() < usize::MAX,
    ensures
        0 <= steps_left(plan, plan.step(state, event).0) < steps_left(plan, state),
{
}

/// Of two builds with the same test executables the second is found to be indistinguishable from what the first is: from the
/// baseline, from an earlier mutant, or from the first of the two, which is tested.
pub proof fn second_identical_build_is_redundant(
    before: BuildLog,
    after: BuildLog,
    executables: Seq<(Seq<char>, Seq<u8>)>,
    first: Option<Fingerprint>,
    first_name: Seq<char>,
    second: Option<Fingerprint>,
)
    requires
        executables.len() > 0,
        artifacts::fingerprinted(executables, first),
        artifacts::fingerprinted(executables, second),
        after.follows(before, first, first_name),
    ensures
        after.match_of(second) == (match before.match_of(first) {
            Some(other) => Some(other),
            None => Some("mutant "@ + text::debug_form(first_name)),
        }),
{
    artifacts::same_artifacts_have_the_same_fingerprint(executables, first, second);
}

/// A build with the same test executables as the baseline is found to be indistinguishable from it, whatever was built since.
pub proof fn build_like_the_baseline_is_equivalent(
    log: BuildLog,
    executables: Seq<(Seq<char>, Seq<u8>)>,
    fingerprint: Option<Fingerprint>,
)
    requires
        executables.len() > 0,
        artifacts::fingerprinted(executables, log.baseline_fingerprint()),
        artifacts::fingerprinted(executables, fingerprint),
    ensures
        log.match_of(fingerprint) == Some("the unmutated baseline"@),
{
    artifacts::same_artifacts_have_the_same_fingerprint(executables, log.baseline_fingerprint(), fingerprint);
}

/// What contradicts a measurement of coverage.
pub open spec fn coverage_conflict(options: Options) -> Option<Seq<char>> {
    if !options.skip_uncovered {
        None
    } else if options.baseline == BaselineStrategy::Skip {
        Some(
            "--skip-uncovered measures coverage during the baseline test run, so it can't be used with --baseline=skip"@,
        )
    } else if options.check_only {
        Some("--skip-uncovered measures coverage during the baseline test run, and --check runs no tests"@)
    } else {
        None
    }
}

/// Whether the tools needed to measure coverage have to be found, if `--skip-uncovered` asked for it, after checking that
/// the run can measure it at all.
///
/// This happens before anything is built, so that a missing toolchain component or a contradictory pair of options fails
/// at once rather than after a baseline build.
pub fn coverage_tools(options: &Options) -> (r: Result<bool, String>)
    ensures
        match r {
            Ok(needed) => coverage_conflict(*options) is None && needed == options.skip_uncovered,
            Err(message) => coverage_conflict(*options) == Some(message@),
        },
{
    if !options.skip_uncovered {
        return Ok(false);
    }
    if options.baseline == BaselineStrategy::Skip {
        return Err(
            "--skip-uncovered measures coverage during the baseline test run, so it can't be used with --baseline=skip".to_owned(),
        );
    }
    if options.check_only {
        return Err(
            "--skip-uncovered measures coverage during the baseline test run, and --check runs no tests".to_owned(),
        );
    }
    Ok(true)
}

/// How many threads test mutants: as many as jobs are asked for, but no more than there are mutants, and at least one.
pub open spec fn thread_count(jobs: Option<usize>, n_mutants: int) -> int {
    let wanted: int = match jobs {
        Some(jobs) => jobs as int,
        None => 1,
    };
    let useful = if wanted < n_mutants {
        wanted
    } else {
        n_mutants
    };
    if useful < 1 {
        1
    } else {
        useful
    }
}

/// How many threads test mutants.
pub fn n_threads(jobs: Option<usize>, n_mutants: usize) -> (r: usize)
    ensures
        r == thread_count(jobs, n_mutants as int),
{
    let wanted: usize = match jobs {
        Some(jobs) => jobs,
        None => 1,
    };
    let useful: usize = if wanted < n_mutants {
        wanted
    } else {
        n_mutants
    };
    if useful < 1 {
        1
    } else {
        useful
    }
}

/// Where a run of the lab stands: what was asked for last.
#[derive(Clone, Copy, Debug, PartialEq, Eq, Structural)]
pub enum LabState {
    Idle,
    WarningOfCheck,
    FindingTools,
    OpeningLog,
    Shuffling,
    WritingList,
    Preparing,
    RunningBaseline,
    TestingMutants,
    Ended,
}

/// What happened to a run of the lab.
#[derive(Clone, Copy, Debug, PartialEq, Eq, Structural)]
pub enum LabEvent {
    /// The run was started, or what was asked for was done.
    Done,
    /// The baseline ran: whether it succeeded, and the last phase that it ran.
    BaselineFinished {
        success: bool,
        last_phase: Phase,
    },
}

/// Where the timeouts of the mutants come from.
#[derive(Clone, Copy, Debug, PartialEq, Eq, Structural)]
pub enum TimeoutSource {
    /// How long the baseline took.
    Baseline,
    /// The options alone.
    Options,
}

/// What is to be done next in a run of the lab.
#[derive(Clone, Copy, Debug, PartialEq, Eq, Structural)]
pub enum LabAction {
    /// Warn that detecting equivalent mutants has no effect together with `--check`: there is no test phase to skip.
    WarnCheckSkipsDetection,
    /// Find the LLVM tools that read coverage data.
    FindTools,
    /// Open the debug log.
    OpenLog,
    /// Put the mutants in random order.
    Shuffle,
    /// Write the list of mutants.
    WriteList,
    /// Warn that there are no mutants, and end.
    EndWithoutMutants,
    /// Copy the tree and start the jobserver.
    Prepare,
    /// Build and test the unmutated tree.
    RunBaseline,
    /// Report that this phase failed in an unmutated tree, and end without testing mutants.
    EndAfterBaseline(Phase),
    /// Test the mutants with so many threads.
    TestMutants {
        timeouts: TimeoutSource,
        n_threads: usize,
    },
    /// Report what was found, and end.
    Finish,
    /// Stop: the options contradict each other.
    RefuseOptions,
}

/// That an event can happen where a run stands.
pub open spec fn lab_expects(state: LabState, event: LabEvent) -> bool {
    match state {
        LabState::RunningBaseline => event is BaselineFinished,
        LabState::Ended => false,
        _ => event is Done,
    }
}

/// What is done to check the options, before anything else.
pub open spec fn lab_check(options: Options) -> (LabState, LabAction) {
    if coverage_conflict(options) is Some {
        (LabState::Ended, LabAction::RefuseOptions)
    } else if options.skip_uncovered {
        (LabState::FindingTools, LabAction::FindTools)
    } else {
        (LabState::OpeningLog, LabAction::OpenLog)
    }
}

/// What is done after an event in a run over `n_mutants` mutants, and where the run stands then.
pub open spec fn lab_step(
    options: Options,
    n_mutants: usize,
    state: LabState,
    event: LabEvent,
) -> (LabState, LabAction) {
    match state {
        LabState::Idle => {
            if options.detect_equivalent_mutants && options.check_only {
                (LabState::WarningOfCheck, LabAction::WarnCheckSkipsDetection)
            } else {
                lab_check(options)
            }
        },
        LabState::WarningOfCheck => lab_check(options),
        LabState::FindingTools => (LabState::OpeningLog, LabAction::OpenLog),
        LabState::OpeningLog => {
            if options.shuffle {
                (LabState::Shuffling, LabAction::Shuffle)
            } else {
                (LabState::WritingList, LabAction::WriteList)
            }
        },
        LabState::Shuffling => (LabState::WritingList, LabAction::WriteList),
        LabState::WritingList => {
            if n_mutants == 0 {
                (LabState::Ended, LabAction::EndWithoutMutants)
            } else {
                (LabState::Preparing, LabAction::Prepare)
            }
        },
        LabState::Preparing => match options.baseline {
            BaselineStrategy::Run => (LabState::RunningBaseline, LabAction::RunBaseline),
            BaselineStrategy::Skip => (
                LabState::TestingMutants,
                LabAction::TestMutants {
                    timeouts: TimeoutSource::Options,
                    n_threads: thread_count(options.jobs, n_mutants as int) as usize,
                },
            ),
        },
        LabState::RunningBaseline => match event {
            LabEvent::BaselineFinished { success: true, last_phase: _ } => (
                LabState::TestingMutants,
                LabAction::TestMutants {
                    timeouts: TimeoutSource::Baseline,
                    n_threads: thread_count(options.jobs, n_mutants as int) as usize,
                },
            ),
            LabEvent::BaselineFinished { success: false, last_phase } => (
                LabState::Ended,
                LabAction::EndAfterBaseline(last_phase),
            ),
            LabEvent::Done => (LabState::Ended, LabAction::Finish),
        },
        LabState::TestingMutants => (LabState::Ended, LabAction::Finish),
        LabState::Ended => (LabState::Ended, LabAction::Finish),
    }
}

/// What to do to check the options, before anything else.
fn check_options(options: &Options) -> (r: (LabState, LabAction))
    ensures
        r == lab_check(*options),
{
    match coverage_tools(options) {
        Err(_) => (LabState::Ended, LabAction::RefuseOptions),
        Ok(true) => (LabState::FindingTools, LabAction::FindTools),
        Ok(false) => (LabState::OpeningLog, LabAction::OpenLog),
    }
}

/// What to do after an event in a run of all possible mutation experiments, and where the run stands then.
///
/// The run starts idle, after all filtering is complete, so all the mutants will be tested or checked. Before testing the
/// mutants, the lab checks that the source tree passes its tests with no mutations applied.
pub fn test_mutants(options: &Options, n_mutants: usize, state: LabState, event: LabEvent) -> (r: (LabState, LabAction))
    requires
        lab_expects(state, event),
    ensures
        r == lab_step(*options, n_mutants, state, event),
{
    match state {
        LabState::Idle => {
            if options.detect_equivalent_mutants && options.check_only {
                (LabState::WarningOfCheck, LabAction::WarnCheckSkipsDetection)
            } else {
                check_options(options)
            }
        },
        LabState::WarningOfCheck => check_options(options),
        LabState::FindingTools => (LabState::OpeningLog, LabAction::OpenLog),
        LabState::OpeningLog => {
            if options.shuffle {
                (LabState::Shuffling, LabAction::Shuffle)
            } else {
                (LabState::WritingList, LabAction::WriteList)
            }
        },
        LabState::Shuffling => (LabState::WritingList, LabAction::WriteList),
        LabState::WritingList => {
            if n_mutants == 0 {
                (LabState::Ended, LabAction::EndWithoutMutants)
            } else {
                (LabState::Preparing, LabAction::Prepare)
            }
        },
        LabState::Preparing => match options.baseline {
            BaselineStrategy::Run => (LabState::RunningBaseline, LabAction::RunBaseline),
            BaselineStrategy::Skip => (
                LabState::TestingMutants,
                LabAction::TestMutants {
                    timeouts: TimeoutSource::Options,
                    n_threads: n_threads(options.jobs, n_mutants),
                },
            ),
        },
        LabState::RunningBaseline => match event {
            LabEvent::BaselineFinished { success, last_phase } => {
                if success {
                    (
                        LabState::TestingMutants,
                        LabAction::TestMutants {
                            timeouts: TimeoutSource::Baseline,
                            n_threads: n_threads(options.jobs, n_mutants),
                        },
                    )
                } else {
                    (LabState::Ended, LabAction::EndAfterBaseline(last_phase))
                }
            },
            LabEvent::Done => (LabState::Ended, LabAction::Finish),
        },
        LabState::TestingMutants => (LabState::Ended, LabAction::Finish),
        LabState::Ended => (LabState::Ended, LabAction::Finish),
    }
}

/// No mutant is tested unless the unmutated tree passed first, or the user asked not to run it; and then there is at least
/// one mutant and at least one thread, and no more threads than mutants.
pub proof fn mutants_are_tested_after_the_baseline(
    options: Options,
    n_mutants: usize,
    state: LabState,
    event: LabEvent,
)
    requires
        lab_expects(state, event),
        state is Preparing || state is RunningBaseline ==> n_mutants > 0,
    ensures
        lab_step(options, n_mutants, state, event).1 matches LabAction::TestMutants { timeouts, n_threads } ==> {
            &&& 1 <= n_threads <= n_mutants
            &&& (state == LabState::Preparing && options.baseline == BaselineStrategy::Skip && timeouts
                == TimeoutSource::Options) || (state == LabState::RunningBaseline && (
            event matches LabEvent::BaselineFinished { success, .. } && success) && timeouts == TimeoutSource::Baseline)
        },
        lab_step(options, n_mutants, state, event).0 is Preparing ==> n_mutants > 0,
        lab_step(options, n_mutants, state, event).0 is RunningBaseline ==> n_mutants > 0,
{
}

/// Options that contradict each other end the run before anything is built, and so does a tree without mutants.
pub proof fn nothing_is_built_in_vain(options: Options, n_mutants: usize, state: LabState, event: LabEvent)
    requires
        lab_expects(state, event),
    ensures
        coverage_conflict(options) is Some && (state == LabState::WarningOfCheck || (state == LabState::Idle && !(
        options.detect_equivalent_mutants && options.check_only))) ==> lab_step(options, n_mutants, state, event) == (
            LabState::Ended,
            LabAction::RefuseOptions,
        ),
        n_mutants == 0 && state == LabState::WritingList ==> lab_step(options, n_mutants, state, event) == (
            LabState::Ended,
            LabAction::EndWithoutMutants,
        ),
{
}

/// What is done with a successful baseline build.
#[derive(Clone, Copy, Debug, PartialEq, Eq, Structural)]
pub struct BaselineFollowUp {
    /// Fingerprint the build artifacts, to compare mutants with them.
    pub fingerprint: bool,
    /// Read the coverage of the test run.
    pub coverage: bool,
}

/// What to do after the baseline ran: nothing unless it succeeded.
pub fn after_baseline(options: &Options, success: bool) -> (r: BaselineFollowUp)
    ensures
        r.fingerprint == (success && options.detect_equivalent_mutants),
        r.coverage == (success && options.skip_uncovered),
{
    BaselineFollowUp {
        fingerprint: success && options.detect_equivalent_mutants,
        coverage: success && options.skip_uncovered,
    }
}

/// What deserves a warning at the end of a run.
#[derive(Clone, Copy, Debug, PartialEq, Eq, Structural)]
pub enum LabWarning {
    /// No mutants were generated.
    NoMutants,
    /// No mutants were viable: perhaps there is a problem with building in a scratch directory.
    NoViableMutants,
}

/// What deserves a warning at the end of a run.
pub fn lab_warning(total_mutants: usize, unviable: usize) -> (r: Option<LabWarning>)
    ensures
        r == (if total_mutants == 0 {
            Some(LabWarning::NoMutants)
        } else if unviable == total_mutants {
            Some(LabWarning::NoViableMutants)
        } else {
            None
        }),
{
    if total_mutants == 0 {
        // This should be unreachable as we also bail out before copying the tree if no mutants are generated.
        Some(LabWarning::NoMutants)
    } else if unviable == total_mutants {
        Some(LabWarning::NoViableMutants)
    } else {
        None
    }
}

/// Whether the error of a worker thread is printed: to avoid console spam, interrupts are not, since that was already
/// said.
pub fn prints_thread_error(message: &str) -> (r: bool)
    ensures
        r == (message@ != "interrupted"@),
{
    !text::same_text(message, "interrupted")
}

/// The position of the first of the threads that failed, whose error is the error of the run.
pub fn first_failure(failed: &Vec<bool>) -> (r: Option<usize>)
    ensures
        match r {
            Some(i) => i < failed@.len() && failed@[i as int] && forall|j: int| 0 <= j < i ==> !failed@[j],
            None => forall|j: int| 0 <= j < failed@.len() ==> !failed@[j],
        },
{
    for i in 0..failed.len()
        invariant
            forall|j: int| 0 <= j < i ==> !failed@[j],
    {
        if failed[i] {
            return Some(i);
        }
    }
    None
}

/// The models of some packages.
pub open spec fn package_models(packages: Seq<Package>) -> Seq<PackageModel> {
    Seq::new(packages.len(), |i: int| packages[i]@)
}

/// Where a package goes among some packages sorted by name: behind all that do not come after it.
pub open spec fn place_of(sorted: Seq<PackageModel>, p: PackageModel, n: int) -> int
    decreases n,
{
    if n <= 0 {
        0
    } else if text::at_most(sorted[n - 1].name, p.name) {
        n
    } else {
        place_of(sorted, p, n - 1)
    }
}

/// Some packages, sorted by name: those of one name stay in their order.
pub open spec fn sorted_by_name(packages: Seq<PackageModel>) -> Seq<PackageModel>
    decreases packages.len(),
{
    if packages.len() == 0 {
        packages
    } else {
        let sorted = sorted_by_name(packages.drop_last());
        let p = packages.last();
        sorted.insert(place_of(sorted, p, sorted.len() as int), p)
    }
}

/// Some packages, without those that came before.
pub open spec fn without_repeats(packages: Seq<PackageModel>) -> Seq<PackageModel>
    decreases packages.len(),
{
    if packages.len() == 0 {
        packages
    } else if packages.drop_last().contains(packages.last()) {
        without_repeats(packages.drop_last())
    } else {
        without_repeats(packages.drop_last()).push(packages.last())
    }
}

/// The packages that some mutants are in.
pub open spec fn mutated_packages(mutants: Seq<MutantModel>) -> Seq<PackageModel> {
    Seq::new(mutants.len(), |i: int| mutants[i].source_file.package)
}

/// The names of some packages.
pub open spec fn package_names(packages: Seq<PackageModel>) -> Seq<Seq<char>> {
    Seq::new(packages.len(), |i: int| packages[i].name)
}

proof fn lemma_place(sorted: Seq<PackageModel>, p: PackageModel, n: int)
    requires
        0 <= n <= sorted.len(),
    ensures
        0 <= place_of(sorted, p, n) <= n,
        place_of(sorted, p, n) > 0 ==> text::at_most(sorted[place_of(sorted, p, n) - 1].name, p.name),
        forall|k: int| place_of(sorted, p, n) <= k < n ==> text::at_most(p.name, (#[trigger] sorted[k]).name),
    decreases n,
{
    if n > 0 {
        text::lemma_at_most_total(sorted[n - 1].name, p.name);
        lemma_place(sorted, p, n - 1);
    }
}

/// Sorting puts the names in order, and keeps the packages.
proof fn lemma_sorted_by_name(packages: Seq<PackageModel>)
    ensures
        text::in_order(package_names(sorted_by_name(packages))),
        forall|p: PackageModel| sorted_by_name(packages).contains(p) <==> #[trigger] packages.contains(p),
    decreases packages.len(),
{
    if packages.len() > 0 {
        let init = packages.drop_last();
        let p = packages.last();
        lemma_sorted_by_name(init);
        let sorted = sorted_by_name(init);
        let place = place_of(sorted, p, sorted.len() as int);
        lemma_place(sorted, p, sorted.len() as int);
        let names = package_names(sorted);
        assert forall|k: int| place <= k < names.len() implies text::at_most(p.name, #[trigger] names[k]) by {
            assert(text::at_most(p.name, sorted[k].name));
        }
        text::lemma_insert_in_order(names, place, p.name);
        let longer = sorted.insert(place, p);
        assert(package_names(longer) =~= names.insert(place, p.name));
        assert forall|q: PackageModel| longer.contains(q) <==> #[trigger] packages.contains(q) by {
            if longer.contains(q) {
                let i = choose|i: int| 0 <= i < longer.len() && longer[i] == q;
                if i < place {
                    assert(sorted[i] == q);
                } else if i > place {
                    assert(sorted[i - 1] == q);
                }
                if i != place {
                    assert(init.contains(q));
                    let j = choose|j: int| 0 <= j < init.len() && init[j] == q;
                    assert(packages[j] == q);
                } else {
                    assert(packages[packages.len() - 1] == q);
                }
            }
            if packages.contains(q) {
                let j = choose|j: int| 0 <= j < packages.len() && packages[j] == q;
                if j < init.len() {
                    assert(init[j] == q);
                    assert(init.contains(q));
                    let i = choose|i: int| 0 <= i < sorted.len() && sorted[i] == q;
                    assert(longer[if i < place {
                        i
                    } else {
                        i + 1
                    }] == q);
                } else {
                    assert(longer[place] == q);
                }
            }
        }
    }
}

/// Leaving out what came before keeps the order and the packages, and leaves each once.
proof fn lemma_without_repeats(packages: Seq<PackageModel>)
    requires
        text::in_order(package_names(packages)),
    ensures
        text::in_order(package_names(without_repeats(packages))),
        without_repeats(packages).no_duplicates(),
        forall|p: PackageModel| without_repeats(packages).contains(p) <==> #[trigger] packages.contains(p),
    decreases packages.len(),
{
    if packages.len() > 0 {
        let init = packages.drop_last();
        let last = packages.last();
        let names = package_names(packages);
        assert forall|i: int, j: int| 0 <= i <= j < init.len() implies text::at_most(
            #[trigger] package_names(init)[i],
            #[trigger] package_names(init)[j],
        ) by {
            assert(text::at_most(names[i], names[j]));
        }
        lemma_without_repeats(init);
        let before = without_repeats(init);
        let after = without_repeats(packages);
        assert forall|p: PackageModel| #[trigger] packages.contains(p) <==> init.contains(p) || p == last by {
            if packages.contains(p) {
                let i = choose|i: int| 0 <= i < packages.len() && packages[i] == p;
                if i < init.len() {
                    assert(init[i] == p);
                }
            }
            if init.contains(p) {
                let i = choose|i: int| 0 <= i < init.len() && init[i] == p;
                assert(packages[i] == p);
            }
            assert(packages[packages.len() - 1] == last);
        }
        if !init.contains(last) {
            assert(after =~= before.push(last));
            assert forall|p: PackageModel| after.contains(p) <==> before.contains(p) || p == last by {
                if after.contains(p) {
                    let i = choose|i: int| 0 <= i < after.len() && after[i] == p;
                    if i < before.len() {
                        assert(before[i] == p);
                    }
                }
                if before.contains(p) {
                    let i = choose|i: int| 0 <= i < before.len() && before[i] == p;
                    assert(after[i] == p);
                }
                assert(after[before.len() as int] == last);
            }
            assert(!before.contains(last));
            assert forall|i: int, j: int| 0 <= i < after.len() && 0 <= j < after.len() && i != j implies after[i]
                != after[j] by {
                if i < before.len() && j < before.len() {
                    assert(before[i] != before[j]);
                } else if i < before.len() {
                    assert(before.contains(before[i]));
                } else {
                    assert(before.contains(before[j]));
                }
            }
            assert forall|i: int, j: int| 0 <= i <= j < after.len() implies text::at_most(
                #[trigger] package_names(after)[i],
                #[trigger] package_names(after)[j],
            ) by {
                if j < before.len() {
                    assert(text::at_most(package_names(before)[i], package_names(before)[j]));
                } else if i < before.len() {
                    assert(before.contains(before[i]));
                    assert(init.contains(before[i]));
                    let k = choose|k: int| 0 <= k < init.len() && init[k] == before[i];
                    assert(text::at_most(names[k], names[packages.len() - 1]));
                } else {
                    text::lemma_at_most_reflexive(last.name);
                }
            }
        }
    }
}

/// The baseline builds and tests every package that has mutants and no other, each once, in the order of their names.
pub proof fn baseline_holds_each_mutated_package_once(mutants: Seq<MutantModel>)
    ensures
        ({
            let packages = without_repeats(sorted_by_name(mutated_packages(mutants)));
            &&& text::in_order(package_names(packages))
            &&& packages.no_duplicates()
            &&& forall|p: PackageModel| packages.contains(p) <==> #[trigger] mutated_packages(mutants).contains(p)
        }),
{
    let all = mutated_packages(mutants);
    lemma_sorted_by_name(all);
    lemma_without_repeats(sorted_by_name(all));
    let packages = without_repeats(sorted_by_name(all));
    assert forall|p: PackageModel| packages.contains(p) <==> #[trigger] all.contains(p) by {
        assert(packages.contains(p) <==> sorted_by_name(all).contains(p));
    }
}

/// The packages of some mutants, sorted by name, each once: what the baseline builds and tests.
pub fn baseline_packages(mutants: &Vec<Mutant>) -> (r: Vec<Package>)
    ensures
        package_models(r@) == without_repeats(sorted_by_name(mutated_packages(crate::list::mutant_models(mutants@)))),
{
    let ghost all = mutated_packages(crate::list::mutant_models(mutants@));
    let mut sorted: Vec<Package> = Vec::new();
    assert(package_models(sorted@) =~= sorted_by_name(all.take(0)));
    for i in 0..mutants.len()
        invariant
            all == mutated_packages(crate::list::mutant_models(mutants@)),
            package_models(sorted@) == sorted_by_name(all.take(i as int)),
    {
        let package = mutants[i].source_file.package().clone();
        let ghost before = package_models(sorted@);
        let ghost p = package@;
        let mut place: usize = sorted.len();
        proof {
            lemma_place(before, p, before.len() as int);
            assert(all.take(i + 1).drop_last() =~= all.take(i as int));
            assert(all[i as int] == p);
        }
        while place > 0 && !text::text_at_most(sorted[place - 1].name.as_str(), package.name.as_str())
            invariant
                place <= sorted@.len(),
                before == package_models(sorted@),
                p == package@,
                place_of(before, p, before.len() as int) == place_of(before, p, place as int),
            decreases place,
        {
            place = place - 1;
        }
        proof {
            if place > 0 {
                assert(text::at_most(before[place - 1].name, p.name));
            }
        }
        let ghost listed = sorted@;
        sorted.insert(place, package);
        assert(package_models(sorted@) =~= before.insert(place as int, p));
    }
    assert(all.take(mutants@.len() as int) =~= all);
    let ghost in_order = package_models(sorted@);
    let mut r: Vec<Package> = Vec::new();
    assert(package_models(r@) =~= without_repeats(in_order.take(0)));
    for i in 0..sorted.len()
        invariant
            in_order == package_models(sorted@),
            package_models(r@) == without_repeats(in_order.take(i as int)),
    {
        let mut seen = false;
        for j in 0..i
            invariant
                i < sorted@.len(),
                in_order == package_models(sorted@),
                seen == exists|k: int| 0 <= k < j && in_order[k] == in_order[i as int],
        {
            if sorted[j].same(&sorted[i]) {
                assert(in_order[j as int] == in_order[i as int]);
                seen = true;
            }
        }
        proof {
            let shorter = in_order.take(i as int);
            assert(in_order.take(i + 1).drop_last() =~= shorter);
            assert(seen == shorter.contains(in_order[i as int])) by {
                if seen {
                    let k = choose|k: int| 0 <= k < i && in_order[k] == in_order[i as int];
                    assert(shorter[k] == in_order[i as int]);
                }
                if shorter.contains(in_order[i as int]) {
                    let k = choose|k: int| 0 <= k < shorter.len() && shorter[k] == in_order[i as int];
                    assert(in_order[k] == in_order[i as int]);
                }
            }
        }
        if !seen {
            let ghost before = r@;
            r.push(sorted[i].clone());
            assert(package_models(r@) =~= package_models(before).push(in_order[i as int]));
        }
    }
    assert(in_order.take(sorted@.len() as int) =~= in_order);
    r
}

/// Which packages the user asked to test.
pub enum TestPackages {
    /// All packages in the workspace.
    Workspace,
    /// Only the package that was mutated.
    Mutated,
    /// The packages of these names.
    Named(Vec<String>),
}

/// Which packages to test
pub enum TestsForMutant {
    /// Test all packages in the workspace
    Workspace,
    /// Test only the package that was mutated
    Mutated,
    /// Test specific packages
    Explicit(Vec<Package>),
}

/// A copy of some packages.
fn copy_packages(packages: &Vec<Package>) -> (r: Vec<Package>)
    ensures
        package_models(r@) == package_models(packages@),
{
    let mut r: Vec<Package> = Vec::new();
    for i in 0..packages.len()
        invariant
            r@.len() == i,
            forall|j: int| 0 <= j < i ==> (#[trigger] r@[j])@ == packages@[j]@,
    {
        r.push(packages[i].clone());
    }
    assert(package_models(r@) =~= package_models(packages@));
    r
}

impl TestsForMutant {
    /// Which packages to test, given the packages that the workspace has of the names asked for.
    pub fn new(test_package: &TestPackages, named: &Vec<Package>) -> (r: Self)
        ensures
            match *test_package {
                TestPackages::Workspace => r is Workspace,
                TestPackages::Mutated => r is Mutated,
                TestPackages::Named(_) => r matches TestsForMutant::Explicit(packages) && package_models(packages@)
                    == package_models(named@),
            },
    {
        match test_package {
            TestPackages::Workspace => TestsForMutant::Workspace,
            TestPackages::Mutated => TestsForMutant::Mutated,
            TestPackages::Named(_) => TestsForMutant::Explicit(copy_packages(named)),
        }
    }

    /// The packages that are tested for a mutant.
    pub fn packages_for(&self, mutant: &Mutant) -> (r: PackageSelection)
        ensures
            match *self {
                TestsForMutant::Workspace => r is All,
                TestsForMutant::Mutated => r matches PackageSelection::Explicit(packages) && package_models(packages@)
                    == seq![mutant@.source_file.package],
                TestsForMutant::Explicit(chosen) => r matches PackageSelection::Explicit(packages) && package_models(
                    packages@,
                ) == package_models(chosen@),
            },
    {
        match self {
            TestsForMutant::Workspace => PackageSelection::All,
            TestsForMutant::Mutated => {
                let mut packages: Vec<Package> = Vec::new();
                packages.push(mutant.source_file.package().clone());
                assert(package_models(packages@) =~= seq![mutant@.source_file.package]);
                PackageSelection::Explicit(packages)
            },
            TestsForMutant::Explicit(chosen) => PackageSelection::Explicit(copy_packages(chosen)),
        }
    }
}

/// Puts some numbers in random order, by `fastrand::shuffle`: only their order changes.
#[verifier::external_body]
fn shuffle_numbers(numbers: &mut Vec<usize>)
    ensures
        final(numbers)@.to_multiset() == old(numbers)@.to_multiset(),
{
    fastrand::shuffle(numbers)
}

/// A random order of `n` things: each position once.
pub fn random_order(n: usize) -> (r: Vec<usize>)
    ensures
        r@.to_multiset() == Seq::new(n as nat, |i: int| i as usize).to_multiset(),
{
    let mut r: Vec<usize> = Vec::new();
    for i in 0..n
        invariant
            r@ == Seq::new(i as nat, |j: int| j as usize),
    {
        r.push(i);
        assert(r@ =~= Seq::new((i + 1) as nat, |j: int| j as usize));
    }
    shuffle_numbers(&mut r);
    r
}

/// Where a scenario stands after the first `n` of some events; it starts idle.
pub open spec fn state_at(plan: PlanModel, events: Seq<EventModel>, n: int) -> ScenarioState
    decreases n,
{
    if n <= 0 {
        ScenarioState::Idle
    } else {
        plan.step(state_at(plan, events, n - 1), events[n - 1]).0
    }
}

/// What is done after the event at position `k`.
pub open spec fn action_at(plan: PlanModel, events: Seq<EventModel>, k: int) -> ActionModel {
    plan.step(state_at(plan, events, k), events[k]).1
}

/// That some events can happen to a scenario, one after the other.
pub open spec fn is_course(plan: PlanModel, events: Seq<EventModel>) -> bool {
    forall|k: int| 0 <= k < events.len() ==> plan.expects(state_at(plan, events, k), #[trigger] events[k])
}

/// All that is done in the course of some events.
pub open spec fn course(plan: PlanModel, events: Seq<EventModel>) -> Seq<ActionModel> {
    Seq::new(events.len(), |k: int| action_at(plan, events, k))
}

/// The plan for a mutant.
pub open spec fn mutant_plan(options: Options, uncovered: Option<Seq<char>>) -> PlanModel {
    PlanModel {
        has_mutant: true,
        uncovered,
        compares_builds: options.detect_equivalent_mutants,
        phases: phases_of(options),
    }
}

/// The plan for the baseline.
pub open spec fn baseline_plan(options: Options) -> PlanModel {
    PlanModel {
        has_mutant: false,
        uncovered: None,
        compares_builds: options.detect_equivalent_mutants,
        phases: phases_of(options),
    }
}

/// What must have happened before a scenario stands where it does: to say that a mutant is equivalent, or to revert it as
/// equivalent, takes a comparison that found something, and nothing else brings such an ending about.
proof fn lemma_grounds(plan: PlanModel, events: Seq<EventModel>, n: int)
    requires
        is_course(plan, events),
        0 <= n <= events.len(),
    ensures
        state_at(plan, events, n) == ScenarioState::SayingEquivalent || state_at(plan, events, n)
            == ScenarioState::Reverting(Ending::Finish(Some(SkipReason::Equivalent))) ==> exists|j: int|
            0 <= j < n && (#[trigger] events[j] matches EventModel::Compared(Some(_))),
        state_at(plan, events, n) == ScenarioState::SayingUncovered ==> plan.uncovered is Some,
        state_at(plan, events, n) != ScenarioState::Reverting(Ending::Finish(Some(SkipReason::Uncovered))),
        state_at(plan, events, n) == ScenarioState::Reverting(Ending::Fail) ==> n > 0 && events[n - 1] is PhaseFailed,
    decreases n,
{
    if n > 0 {
        lemma_grounds(plan, events, n - 1);
        assert(plan.expects(state_at(plan, events, n - 1), events[n - 1]));
        if state_at(plan, events, n) == ScenarioState::SayingEquivalent {
            assert(events[n - 1] matches EventModel::Compared(Some(_)));
        }
    }
}

/// A scenario is recorded as equivalent only if a comparison of its build found something that it is indistinguishable from,
/// and as uncovered only if its plan says that no test reaches the mutant; and it stops with an error only if a phase could not
/// be run.
pub proof fn scenarios_are_skipped_for_a_reason(plan: PlanModel, events: Seq<EventModel>, k: int)
    requires
        is_course(plan, events),
        0 <= k < events.len(),
    ensures
        action_at(plan, events, k) == ActionModel::Finish(Some(SkipReason::Equivalent)) ==> exists|j: int|
            0 <= j < k && (#[trigger] events[j] matches EventModel::Compared(Some(_))),
        action_at(plan, events, k) == ActionModel::Finish(Some(SkipReason::Uncovered)) ==> plan.uncovered is Some,
        action_at(plan, events, k) == ActionModel::Fail ==> exists|j: int|
            k - 1 <= j <= k && 0 <= j && #[trigger] events[j] is PhaseFailed,
{
    lemma_grounds(plan, events, k);
    assert(plan.expects(state_at(plan, events, k), events[k]));
    if action_at(plan, events, k) == ActionModel::Fail {
        if state_at(plan, events, k) is Reverting {
            assert(events[k - 1] is PhaseFailed);
        } else {
            assert(events[k] is PhaseFailed);
        }
    }
}

/// After any phase that ran without success, no further phase is run: a mutant is reverted, and the scenario ends with its
/// outcome recorded, for no reason to skip anything. After a phase that could not be run, it stops with the error instead.
pub proof fn a_phase_without_success_ends_the_scenario(plan: PlanModel, events: Seq<EventModel>, k: int)
    requires
        is_course(plan, events),
        0 <= k < events.len(),
        events[k] is PhaseFailed || events[k] == (EventModel::PhaseFinished { success: false }),
    ensures
        ({
            let last = if events[k] is PhaseFailed {
                ActionModel::Fail
            } else {
                ActionModel::Finish(None)
            };
            &&& !plan.has_mutant ==> action_at(plan, events, k) == last && events.len() == k + 1
            &&& plan.has_mutant ==> action_at(plan, events, k) == ActionModel::Revert
            &&& plan.has_mutant && k + 1 < events.len() ==> action_at(plan, events, k + 1) == last && events.len() == k + 2
        }),
{
    assert(plan.expects(state_at(plan, events, k), events[k]));
    assert(state_at(plan, events, k) is Running);
    if k + 1 < events.len() {
        assert(plan.expects(state_at(plan, events, k + 1), events[k + 1]));
        if k + 2 < events.len() {
            assert(plan.expects(state_at(plan, events, k + 2), events[k + 2]));
        }
    }
}

/// A phase is run only at the start, or after the phase before it succeeded: either directly, or after its build was compared
/// and found to be like no other.
pub proof fn phases_are_run_one_after_the_other(plan: PlanModel, events: Seq<EventModel>, k: int, phase: Phase)
    requires
        is_course(plan, events),
        plan.phases.len() <= usize::MAX,
        0 <= k < events.len(),
        action_at(plan, events, k) == ActionModel::RunPhase(phase),
    ensures
        ({
            ||| plan.phases[0] == phase && events[k] is Done && (k == 0 || action_at(plan, events, k - 1)
                == ActionModel::Apply)
            ||| events[k] == (EventModel::PhaseFinished { success: true }) && k > 0 && exists|i: int|
                1 <= i < plan.phases.len() && #[trigger] plan.phases[i] == phase && action_at(plan, events, k - 1)
                    == ActionModel::RunPhase(plan.phases[i - 1])
            ||| events[k] == EventModel::Compared(None) && k > 0 && action_at(plan, events, k - 1)
                == ActionModel::CompareBuild && plan.compares_builds && plan.has_mutant
        }),
{
    lemma_phases_in_order(plan, events, k);
    let state = state_at(plan, events, k);
    assert(plan.expects(state, events[k]));
    if state is Running {
        let i = state->Running_0 + 1;
        assert(plan.phases[i] == phase);
    }
}

/// Where a scenario stands says what was done last.
proof fn lemma_phases_in_order(plan: PlanModel, events: Seq<EventModel>, n: int)
    requires
        is_course(plan, events),
        plan.phases.len() <= usize::MAX,
        0 <= n <= events.len(),
    ensures
        n > 0 && state_at(plan, events, n) is Running ==> state_at(plan, events, n)->Running_0 < plan.phases.len()
            && action_at(plan, events, n - 1) == ActionModel::RunPhase(
            plan.phases[state_at(plan, events, n)->Running_0 as int],
        ),
        n > 0 && state_at(plan, events, n) is Comparing ==> action_at(plan, events, n - 1) == ActionModel::CompareBuild
            && plan.compares_builds && plan.has_mutant,
        n > 0 && state_at(plan, events, n) is Applying ==> action_at(plan, events, n - 1) == ActionModel::Apply,
        n > 0 ==> !(state_at(plan, events, n) is Idle),
{
    if n > 0 {
        assert(plan.expects(state_at(plan, events, n - 1), events[n - 1]));
    }
}

/// The course of a mutant that is checked: its diff is written, it is applied and checked, and it is reverted before the
/// outcome is recorded, whatever that is.
pub proof fn course_of_a_checked_mutant(options: Options, success: bool)
    requires
        options.check_only,
    ensures
        course(
            mutant_plan(options, None),
            seq![
                EventModel::Done,
                EventModel::Done,
                EventModel::Done,
                EventModel::PhaseFinished { success },
                EventModel::Done,
            ],
        ) == seq![
            ActionModel::WriteDiff,
            ActionModel::Apply,
            ActionModel::RunPhase(Phase::Check),
            ActionModel::Revert,
            ActionModel::Finish(None),
        ],
{
    reveal_with_fuel(state_at, 6);
}

/// The course of a mutant that does not build: it is applied, built and reverted, and not tested.
pub proof fn course_of_a_mutant_that_does_not_build(options: Options)
    requires
        !options.check_only,
    ensures
        course(
            mutant_plan(options, None),
            seq![
                EventModel::Done,
                EventModel::Done,
                EventModel::Done,
                EventModel::PhaseFinished { success: false },
                EventModel::Done,
            ],
        ) == seq![
            ActionModel::WriteDiff,
            ActionModel::Apply,
            ActionModel::RunPhase(Phase::Build),
            ActionModel::Revert,
            ActionModel::Finish(None),
        ],
{
    reveal_with_fuel(state_at, 6);
}

/// The course of a mutant that builds, where builds are not compared: it is tested, and reverted whether a test fails or not.
pub proof fn course_of_a_tested_mutant(options: Options, success: bool)
    requires
        !options.check_only,
        !options.detect_equivalent_mutants,
    ensures
        course(
            mutant_plan(options, None),
            seq![
                EventModel::Done,
                EventModel::Done,
                EventModel::Done,
                EventModel::PhaseFinished { success: true },
                EventModel::PhaseFinished { success },
                EventModel::Done,
            ],
        ) == seq![
            ActionModel::WriteDiff,
            ActionModel::Apply,
            ActionModel::RunPhase(Phase::Build),
            ActionModel::RunPhase(Phase::Test),
            ActionModel::Revert,
            ActionModel::Finish(None),
        ],
{
    reveal_with_fuel(state_at, 7);
}

/// The course of a mutant whose build is compared and is like no other: it is tested like any mutant.
pub proof fn course_of_a_compared_mutant(options: Options, success: bool)
    requires
        !options.check_only,
        options.detect_equivalent_mutants,
    ensures
        course(
            mutant_plan(options, None),
            seq![
                EventModel::Done,
                EventModel::Done,
                EventModel::Done,
                EventModel::PhaseFinished { success: true },
                EventModel::Compared(None),
                EventModel::PhaseFinished { success },
                EventModel::Done,
            ],
        ) == seq![
            ActionModel::WriteDiff,
            ActionModel::Apply,
            ActionModel::RunPhase(Phase::Build),
            ActionModel::CompareBuild,
            ActionModel::RunPhase(Phase::Test),
            ActionModel::Revert,
            ActionModel::Finish(None),
        ],
{
    reveal_with_fuel(state_at, 8);
}

/// The course of a mutant whose build is like another one: that is said, and the mutant is reverted and recorded as
/// equivalent without being tested.
pub proof fn course_of_an_equivalent_mutant(options: Options, what: Seq<char>)
    requires
        !options.check_only,
        options.detect_equivalent_mutants,
    ensures
        course(
            mutant_plan(options, None),
            seq![
                EventModel::Done,
                EventModel::Done,
                EventModel::Done,
                EventModel::PhaseFinished { success: true },
                EventModel::Compared(Some(what)),
                EventModel::Done,
                EventModel::Done,
            ],
        ) == seq![
            ActionModel::WriteDiff,
            ActionModel::Apply,
            ActionModel::RunPhase(Phase::Build),
            ActionModel::CompareBuild,
            ActionModel::Message(
                "build artifacts are identical to "@ + what + "; skipping the test phase (--detect-equivalent-mutants)"@,
            ),
            ActionModel::Revert,
            ActionModel::Finish(Some(SkipReason::Equivalent)),
        ],
{
    reveal_with_fuel(state_at, 8);
}

/// The course of a mutant that no test reaches: its diff is written, that is said, and it is recorded as uncovered without
/// being applied or built.
pub proof fn course_of_an_uncovered_mutant(options: Options, message: Seq<char>)
    ensures
        course(
            mutant_plan(options, Some(message)),
            seq![EventModel::Done, EventModel::Done, EventModel::Done],
        ) == seq![
            ActionModel::WriteDiff,
            ActionModel::Message(message),
            ActionModel::Finish(Some(SkipReason::Uncovered)),
        ],
{
    reveal_with_fuel(state_at, 4);
}

/// The course of the baseline: nothing is written to the tree, and the phases are run until one does not succeed; its build is
/// not compared with anything.
pub proof fn course_of_the_baseline(options: Options, success: bool)
    ensures
        options.check_only ==> course(
            baseline_plan(options),
            seq![EventModel::Done, EventModel::PhaseFinished { success }],
        ) == seq![ActionModel::RunPhase(Phase::Check), ActionModel::Finish(None)],
        !options.check_only ==> course(
            baseline_plan(options),
            seq![EventModel::Done, EventModel::PhaseFinished { success: false }],
        ) == seq![ActionModel::RunPhase(Phase::Build), ActionModel::Finish(None)],
        !options.check_only ==> course(
            baseline_plan(options),
            seq![
                EventModel::Done,
                EventModel::PhaseFinished { success: true },
                EventModel::PhaseFinished { success },
            ],
        ) == seq![
            ActionModel::RunPhase(Phase::Build),
            ActionModel::RunPhase(Phase::Test),
            ActionModel::Finish(None),
        ],
{
    reveal_with_fuel(state_at, 4);
}

/// A build is found to be like another exactly if it has the fingerprint of the baseline or of a mutant built before; where it
/// is like neither, it is remembered under the name of its mutant and nothing else changes, and where it is, or has no
/// fingerprint, nothing changes.
pub proof fn builds_are_compared_by_fingerprint(
    before: BuildLog,
    after: BuildLog,
    built: Option<Fingerprint>,
    name: Seq<char>,
    other: Fingerprint,
)
    requires
        after.follows(before, built, name),
    ensures
        before.match_of(built) is Some <==> built is Some && (before.baseline_fingerprint() == built
            || before.firsts().contains_key(built->0)),
        built is Some && before.baseline_fingerprint() == built ==> before.match_of(built) == Some(
            "the unmutated baseline"@,
        ),
        built is Some && before.match_of(built) is None ==> after.match_of(built) == Some(
            "mutant "@ + text::debug_form(name),
        ),
        built != Some(other) ==> after.match_of(Some(other)) == before.match_of(Some(other)),
        before.match_of(Some(other)) is Some ==> after.match_of(Some(other)) == before.match_of(Some(other)),
{
}

/// As many threads test mutants as jobs are asked for, one if none are, but never more than there are mutants, and never none.
pub proof fn threads_are_as_many_as_useful(jobs: Option<usize>, n_mutants: usize)
    ensures
        jobs is None ==> thread_count(jobs, n_mutants as int) == 1,
        jobs == Some(0usize) || n_mutants == 0 ==> thread_count(jobs, n_mutants as int) == 1,
        jobs matches Some(wanted) && 1 <= wanted <= n_mutants ==> thread_count(jobs, n_mutants as int) == jobs->0,
        jobs matches Some(wanted) && wanted >= n_mutants >= 1 ==> thread_count(jobs, n_mutants as int) == n_mutants,
{
}

/// Coverage cannot be measured without running the tests of the baseline, and no other options contradict it.
pub proof fn coverage_needs_a_tested_baseline(options: Options)
    ensures
        coverage_conflict(options) is Some <==> options.skip_uncovered && (options.baseline == BaselineStrategy::Skip
            || options.check_only),
{
}

/// What a run of the lab starts with: a warning if equivalent mutants cannot be detected; otherwise it stops if the options
/// contradict each other, looks for the tools if coverage is measured, and opens the log.
pub proof fn the_lab_starts_with_the_options(options: Options, n_mutants: usize)
    ensures
        ({
            let refuses = options.skip_uncovered && (options.baseline == BaselineStrategy::Skip || options.check_only);
            let started = lab_step(options, n_mutants, LabState::Idle, LabEvent::Done).1;
            &&& options.detect_equivalent_mutants && options.check_only <==> started == LabAction::WarnCheckSkipsDetection
            &&& !(options.detect_equivalent_mutants && options.check_only) ==> started == if refuses {
                LabAction::RefuseOptions
            } else if options.skip_uncovered {
                LabAction::FindTools
            } else {
                LabAction::OpenLog
            }
        }),
{
}

/// What a run of the lab does after what it did before. The log is opened, the mutants are put in random order if that is
/// asked for, and their list is written. Without mutants the run ends there; otherwise the tree is copied. Unless it is to be
/// skipped, the baseline is run, and only if it succeeds are the mutants tested, with timeouts that come from it. A run ends
/// after nothing else.
pub proof fn the_lab_proceeds_in_order(
    options: Options,
    n_mutants: usize,
    state: LabState,
    event: LabEvent,
    next: LabEvent,
)
    requires
        lab_expects(state, event),
    ensures
        ({
            let (reached, did) = lab_step(options, n_mutants, state, event);
            let does = lab_step(options, n_mutants, reached, next).1;
            let threads = thread_count(options.jobs, n_mutants as int);
            &&& reached == LabState::Ended <==> did == LabAction::RefuseOptions || did == LabAction::EndWithoutMutants
                || did is EndAfterBaseline || did == LabAction::Finish
            &&& lab_expects(reached, next) ==> {
                &&& did == LabAction::WarnCheckSkipsDetection ==> does == if options.skip_uncovered && (options.baseline
                    == BaselineStrategy::Skip || options.check_only) {
                    LabAction::RefuseOptions
                } else if options.skip_uncovered {
                    LabAction::FindTools
                } else {
                    LabAction::OpenLog
                }
                &&& did == LabAction::FindTools ==> does == LabAction::OpenLog
                &&& did == LabAction::OpenLog ==> does == if options.shuffle {
                    LabAction::Shuffle
                } else {
                    LabAction::WriteList
                }
                &&& did == LabAction::Shuffle ==> does == LabAction::WriteList
                &&& did == LabAction::WriteList ==> does == if n_mutants == 0 {
                    LabAction::EndWithoutMutants
                } else {
                    LabAction::Prepare
                }
                &&& did == LabAction::Prepare && options.baseline == BaselineStrategy::Run ==> does
                    == LabAction::RunBaseline
                &&& did == LabAction::Prepare && options.baseline == BaselineStrategy::Skip ==> (does
                    matches LabAction::TestMutants { timeouts, n_threads } && timeouts == TimeoutSource::Options
                    && n_threads == threads)
                &&& did == LabAction::RunBaseline ==> match next {
                    LabEvent::BaselineFinished { success: true, .. } => does matches LabAction::TestMutants {
                        timeouts,
                        n_threads,
                    } && timeouts == TimeoutSource::Baseline && n_threads == threads,
                    LabEvent::BaselineFinished { success: false, last_phase } => does == LabAction::EndAfterBaseline(
                        last_phase,
                    ),
                    LabEvent::Done => false,
                }
                &&& did is TestMutants ==> does == LabAction::Finish
            }
        }),
{
}

/// Tests have their own timeout, and building and checking share another.
pub proof fn phases_have_their_timeouts(phase: Phase, timeouts: Timeouts, timeout: Option<u128>)
    requires
        call_ensures(timeout_for, (phase, timeouts), timeout),
    ensures
        phase == Phase::Test ==> timeout == timeouts.test,
        phase != Phase::Test ==> timeout == timeouts.build,
{
}

/// The plan of a mutant runs the phases that the options ask for and compares its build if they ask for that; without a
/// measured coverage, and for a mutant that is evaluated at compile time, nothing is said to be uncovered.
pub proof fn mutants_are_planned_by_the_options(
    mutant: &Mutant,
    coverage: Option<&LineCoverage>,
    options: &Options,
    plan: ScenarioPlan,
)
    requires
        call_ensures(ScenarioPlan::for_mutant, (mutant, coverage, options), plan),
    ensures
        plan@.has_mutant,
        plan@.phases == (if options.check_only {
            seq![Phase::Check]
        } else {
            seq![Phase::Build, Phase::Test]
        }),
        plan@.compares_builds == options.detect_equivalent_mutants,
        coverage is None || mutant.const_eval ==> plan@.uncovered is None,
        plan@ == mutant_plan(*options, plan@.uncovered),
        plan@.uncovered matches Some(message) ==> message == "no test executed "@ + mutant@.source_file.path + ":"@
            + text::decimal(mutant@.span.start.line as nat)
            + ", so no test can catch this mutant; skipping the build and test phases (--skip-uncovered)"@,
{
}

/// The plan of the baseline runs the phases that the options ask for, without a mutant.
pub proof fn the_baseline_is_planned_by_the_options(options: &Options, plan: ScenarioPlan)
    requires
        call_ensures(ScenarioPlan::baseline, (options,), plan),
    ensures
        !plan@.has_mutant,
        plan@.uncovered is None,
        plan@.phases == (if options.check_only {
            seq![Phase::Check]
        } else {
            seq![Phase::Build, Phase::Test]
        }),
        plan@ == baseline_plan(*options),
{
}

/// After a baseline that did not succeed nothing is done with it; after one that did, its build is fingerprinted if builds are
/// compared, and its coverage is read if uncovered mutants are skipped.
pub proof fn only_a_good_baseline_is_used(options: &Options, success: bool, next: BaselineFollowUp)
    requires
        call_ensures(after_baseline, (options, success), next),
    ensures
        !success ==> !next.fingerprint && !next.coverage,
        success ==> next.fingerprint == options.detect_equivalent_mutants && next.coverage == options.skip_uncovered,
{
}

/// A run is warned of if there were no mutants, or if none of them could be built.
pub proof fn runs_without_viable_mutants_are_warned_of(total: usize, unviable: usize, warning: Option<LabWarning>)
    requires
        call_ensures(lab_warning, (total, unviable), warning),
    ensures
        warning == Some(LabWarning::NoMutants) <==> total == 0,
        warning == Some(LabWarning::NoViableMutants) <==> total > 0 && unviable == total,
{
}

/// The packages that are tested for a mutant: the workspace, the package of the mutant, or those that were named.
pub proof fn tests_run_in_the_chosen_packages(tests: &TestsForMutant, mutant: &Mutant, packages: PackageSelection)
    requires
        call_ensures(TestsForMutant::packages_for, (tests, mutant), packages),
    ensures
        tests is Workspace <==> packages is All,
        tests is Mutated ==> (packages matches PackageSelection::Explicit(chosen) && chosen@.len() == 1 && chosen@[0]@
            == mutant@.source_file.package),
        *tests matches TestsForMutant::Explicit(named) ==> (packages matches PackageSelection::Explicit(chosen)
            && chosen@.len() == named@.len() && forall|i: int|
            0 <= i < named@.len() ==> (#[trigger] chosen@[i])@ == named@[i]@),
{
    match *tests {
        TestsForMutant::Mutated => {
            let chosen = packages->Explicit_0@;
            assert(package_models(chosen).len() == chosen.len());
            assert(package_models(chosen)[0] == chosen[0]@);
        },
        TestsForMutant::Explicit(named) => {
            let chosen = packages->Explicit_0@;
            assert(package_models(chosen).len() == package_models(named@).len());
            assert forall|i: int| 0 <= i < named@.len() implies (#[trigger] chosen[i])@ == named@[i]@ by {
                assert(package_models(chosen)[i] == package_models(named@)[i]);
            }
        },
        TestsForMutant::Workspace => {},
    }
}

/// What is said of options that contradict each other names both of them.
pub proof fn conflicts_are_explained(options: &Options, tools: Result<bool, String>)
    requires
        call_ensures(coverage_tools, (options,), tools),
    ensures
        tools is Err <==> options.skip_uncovered && (options.baseline == BaselineStrategy::Skip || options.check_only),
        tools matches Ok(needed) ==> needed == options.skip_uncovered,
        tools matches Err(message) && options.baseline == BaselineStrategy::Skip ==> tools->Err_0@
            == "--skip-uncovered measures coverage during the baseline test run, so it can't be used with --baseline=skip"@,
        tools matches Err(message) && options.baseline == BaselineStrategy::Run ==> tools->Err_0@
            == "--skip-uncovered measures coverage during the baseline test run, and --check runs no tests"@,
{
}

/// Which packages are tested is what the user asked for.
pub proof fn tests_are_chosen_by_the_user(test_package: &TestPackages, named: &Vec<Package>, tests: TestsForMutant)
    requires
        call_ensures(TestsForMutant::new, (test_package, named), tests),
    ensures
        tests is Workspace <==> test_package is Workspace,
        tests is Mutated <==> test_package is Mutated,
        tests matches TestsForMutant::Explicit(packages) ==> package_models(packages@) == package_models(named@),
{
}

} // verus!
