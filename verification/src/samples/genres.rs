//! A tree where every executable mutation genre for if conditions, enum values, bool literals, statement deletion and return
//! values lands, and where the tests kill all of them.
//!
//! There is deliberately no `while` loop and no mutable loop counter, so that no mutant can hang.

use vstd::prelude::*;

verus! {

pub fn classify(n: i32) -> (r: &'static str)
    ensures
        r@ == (if n > 10 {
            "big"@
        } else {
            "small"@
        }),
{
    if n > 10 {
        "big"
    } else {
        "small"
    }
}

#[derive(Debug, PartialEq, Eq, Structural)]
pub enum Colour {
    Red,
    Green,
}

pub fn colour_of(flag: bool) -> (r: Colour)
    ensures
        r == (if flag {
            Colour::Red
        } else {
            Colour::Green
        }),
{
    if flag {
        Colour::Red
    } else {
        Colour::Green
    }
}

pub fn is_enabled(override_off: bool) -> (r: bool)
    ensures
        r == !override_off,
{
    let enabled = true;
    enabled && !override_off
}

pub fn push_twice(v: &mut Vec<u32>)
    ensures
        final(v)@ == old(v)@ + seq![1u32, 2u32],
{
    let ghost before = v@;
    v.push(1);
    v.push(2);
    assert(v@ =~= before + seq![1u32, 2u32]);
}

pub fn early(n: i32) -> (r: i32)
    requires
        n * 2 + 1 <= i32::MAX,
    ensures
        r == (if n < 0 {
            0
        } else {
            n * 2 + 1
        }),
{
    if n < 0 {
        return 0;
    }
    n * 2 + 1
}

} // verus!
