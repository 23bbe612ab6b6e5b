//! Small pieces of code that mutants are generated from, to try the mutation of whole trees.

pub mod equivalent_mutants;
pub mod genres;
pub mod hang_const;
pub mod skip_uncovered;
