//! A tree with a constant whose value depends on a function: if that function is mutated, the evaluation of the constant
//! can hang and block compilation.

use vstd::prelude::*;

verus! {

/// Whether the evaluation of [`VAL`] is over.
pub fn should_stop_const() -> (r: bool)
    ensures
        r,
{
    true
}

/// The value that comes out.
pub const VAL: i32 = 1;

} // verus!
