//! A tree with code that tests reach, code that none reaches, and a constant, for which there are no coverage counters.

use vstd::prelude::*;

verus! {

/// Exercised directly by a unit test, so the coverage instrumentation records a hit on every line of its body: none of its
/// mutants should be skipped as uncovered, and the test should catch every one of them.
pub fn add_one(x: i32) -> (r: i32)
    requires
        x < i32::MAX,
    ensures
        r == x + 1,
{
    x + 1
}

/// A `const` initializer expression, checked by a test. It's evaluated by the compiler at compile time, so no coverage
/// counter is ever emitted for the initializer. Its mutants must still be built and tested, not skipped as uncovered.
pub const ANSWER: i32 = 40 + 2;

/// Not called anywhere, including from any test: the coverage instrumentation never records a hit on its body, so with
/// `--skip-uncovered` every mutant generated here should be reported `uncovered` instead of being built and tested.
pub fn never_called(x: i32) -> (r: i32)
    requires
        x < i32::MAX,
    ensures
        r == x + 1,
{
    x + 1
}

} // verus!
