//! What the user asked for.

use vstd::prelude::*;
use crate::names;
use crate::names::NameFilter;

verus! {

/// Which tool runs the tests.
#[derive(Clone, Copy, Debug, PartialEq, Eq, Structural)]
pub enum TestTool {
    /// `cargo test`.
    Cargo,
    /// `cargo nextest`.
    Nextest,
}

/// Whether the unmutated tree is built and tested first.
#[derive(Clone, Copy, Debug, PartialEq, Eq, Structural)]
pub enum BaselineStrategy {
    /// Run the baseline before the mutants.
    Run,
    /// Skip it.
    Skip,
}

/// The options of a run.
pub struct Options {
    /// Which tool runs the tests.
    pub test_tool: TestTool,
    /// The cargo profile to build with, if one is chosen.
    pub profile: Option<String>,
    /// Whether lint warnings are kept from failing the build.
    pub cap_lints: bool,
    /// Whether builds are compared to find equivalent and redundant mutants.
    pub detect_equivalent_mutants: bool,
    /// Whether mutants that no test reaches are skipped.
    pub skip_uncovered: bool,
    /// Whether mutants are only checked, not tested.
    pub check_only: bool,
    /// Whether the baseline is run.
    pub baseline: BaselineStrategy,
    pub no_default_features: bool,
    pub all_features: bool,
    pub features: Vec<String>,
    /// Further arguments to every cargo command.
    pub additional_cargo_args: Vec<String>,
    /// Further arguments to cargo when it runs tests.
    pub additional_cargo_test_args: Vec<String>,
    /// Names of functions whose calls are not mutated.
    pub skip_calls: Vec<String>,
    /// Values to return as errors, as Rust expressions.
    pub error_values: Vec<String>,
    /// Which mutants are wanted, by name.
    pub names: NameFilter,
    /// Whether lists are written as JSON.
    pub emit_json: bool,
    /// Whether lists of mutants show diffs.
    pub emit_diffs: bool,
    /// Whether lists of mutants show lines and columns.
    pub show_line_col: bool,
    /// Whether mutants are tested in random order.
    pub shuffle: bool,
    /// How many mutants are tested at once, if given.
    pub jobs: Option<usize>,
}

impl Options {
    /// The options of a run for which nothing was asked.
    pub fn new() -> (r: Options)
        ensures
            r.test_tool == TestTool::Cargo,
            r.profile is None,
            r.baseline == BaselineStrategy::Run,
            !r.cap_lints && !r.detect_equivalent_mutants && !r.skip_uncovered && !r.check_only,
            !r.no_default_features && !r.all_features && r.features@.len() == 0,
            r.additional_cargo_args@.len() == 0 && r.additional_cargo_test_args@.len() == 0,
            r.names@ == (names::FilterModel { examine: None, exclude: None }),
            r.skip_calls@.len() == 0 && r.error_values@.len() == 0,
            !r.emit_json && !r.emit_diffs && !r.show_line_col && !r.shuffle && r.jobs is None,
    {
        Options {
            test_tool: TestTool::Cargo,
            profile: None,
            cap_lints: false,
            detect_equivalent_mutants: false,
            skip_uncovered: false,
            check_only: false,
            baseline: BaselineStrategy::Run,
            no_default_features: false,
            all_features: false,
            features: Vec::new(),
            additional_cargo_args: Vec::new(),
            additional_cargo_test_args: Vec::new(),
            skip_calls: Vec::new(),
            error_values: Vec::new(),
            names: NameFilter::all(),
            emit_json: false,
            emit_diffs: false,
            show_line_col: false,
            shuffle: false,
            jobs: None,
        }
    }
}

} // verus!
