//! A line-oriented command interpreter: logical lines are read from a stack
//! of interchangeable sources, classified as pipelines or control constructs,
//! expanded (variables, environment, command substitution), field-split and
//! selected, then executed.
//!
//! This crate holds the interpreter's verified core: the token and word
//! model, the line classifier, the source stack, pipeline construction and
//! the construct interpreters.  Process-level work (forking, pipes, terminal
//! input) is left to a thin front end that drives this library.

#![verifier::loop_isolation(false)]

pub mod constructs;
pub mod error;
pub mod expansion;
pub mod laws;
pub mod line;
pub mod modules;
pub mod pipeline;
pub mod scan;
pub mod selection;
pub mod separation;
pub mod shell;
pub mod sources;
pub mod state;
pub mod strutil;
pub mod token;

pub use error::ShellError;
