//! The samples that mutants are generated from.

use cargo_mutants::samples::genres::{classify, colour_of, early, is_enabled, push_twice, Colour};
use cargo_mutants::samples::hang_const::{should_stop_const, VAL};
use cargo_mutants::samples::skip_uncovered::{add_one, ANSWER};

#[test]
fn classify_boundary() {
    assert_eq!(classify(11), "big");
    assert_eq!(classify(10), "small");
    assert_eq!(classify(-1), "small");
}

#[test]
fn colours() {
    assert_eq!(colour_of(true), Colour::Red);
    assert_eq!(colour_of(false), Colour::Green);
}

#[test]
fn enabled_unless_overridden() {
    assert_eq!(is_enabled(false), true);
    assert_eq!(is_enabled(true), false);
}

#[test]
fn pushes_both() {
    let mut v = Vec::new();
    push_twice(&mut v);
    assert_eq!(v, [1, 2]);
}

#[test]
fn early_returns_zero_for_negative() {
    assert_eq!(early(-5), 0);
    assert_eq!(early(0), 1);
    assert_eq!(early(3), 7);
}

#[test]
fn test_const() {
    assert_eq!(VAL, 1);
    assert!(should_stop_const());
}

#[test]
fn answer_is_forty_two() {
    assert_eq!(ANSWER, 42);
}

#[test]
fn add_one_adds_one() {
    assert_eq!(add_one(1), 2);
}
