//! Find and test mutations of Rust source code.
//!
//! A mutant is a small change to a program that a good test suite should notice. This library decides what the mutants of a
//! source file are, how they are named and shown, how the code of a mutant differs from the original, and how a run that
//! builds and tests them proceeds. Reading files, walking through what `syn` makes of them and running cargo is left to its
//! caller.

#![allow(unused_imports)]

pub mod artifacts;
pub mod attrs;
pub mod cargo;
pub mod completeness;
pub mod coverage;
pub mod fnvalue;
pub mod hunks;
pub mod json;
pub mod lab;
pub mod list;
pub mod metas;
pub mod modules;
pub mod mutant;
pub mod names;
pub mod opportunities;
pub mod options;
pub mod parse;
pub mod paths;
pub mod pretty;
pub mod process;
pub mod samples;
pub mod source;
pub mod span;
pub mod syntax;
pub mod text;
pub mod tokens;
pub mod types;
pub mod unified;
pub mod values;
pub mod visit;
pub mod walk;

pub use mutant::{Genre, Mutant, MutationTarget};
pub use options::Options;
pub use source::{Package, SourceFile};
pub use span::{LineColumn, LineIndex, Span};
pub use walk::Discovered;
