//! A tree with a function that no test binary holds, so that every mutation of it leaves the test binaries as they are.

use vstd::prelude::*;

verus! {

/// Not called anywhere, including from any test or doc test.
///
/// No code is generated for an unreferenced function in a final test binary, so every mutation of its body produces a
/// byte-identical test binary to the unmutated baseline. Every mutant generated here should be reported `equivalent` by
/// `--detect-equivalent-mutants`.
pub fn never_called(x: i32) -> (r: i32)
    requires
        x < i32::MAX,
    ensures
        r == x + 1,
{
    x + 1
}

} // verus!
