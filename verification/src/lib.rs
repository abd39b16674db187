//! A text templating engine: spans of the input that stand between a pair of
//! delimiters are scripts, each replaced by what an interpreter printed when it
//! ran the script; the text around them is kept as it is.
//!
//! The library scans the input and decides; spawning the interpreter is left to
//! the caller, who hands back what the process gave.

pub mod combinators;
pub mod exec;
pub mod render;
pub mod templating;
pub mod text;
pub mod trim;
