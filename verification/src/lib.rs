//! Front end and evaluator for a small stack-based language.
//!
//! The pipeline has three stages: a location-tracking lexer, a
//! recursive-descent parser that resolves `if`/`if*`/`else`/`while`/`do`/`end`
//! blocks into an operation tree, and a tree-walking evaluator with an
//! explicit operand stack.

pub mod config;
pub mod error;
pub mod lex;
pub mod op;
pub mod parse;
pub mod program;
pub mod simulate;
pub mod token;

pub use error::Error;
pub use program::Program;
pub use simulate::simulate;

