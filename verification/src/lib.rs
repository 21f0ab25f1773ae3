//! Evaluation core of a small configuration language: a syntax tree goes in,
//! an immutable value comes out.

pub mod ast;
pub mod value;
pub mod order;
pub mod collection;
pub mod env;
pub mod seq_out;
pub mod ops;
pub mod builtin;
pub mod eval;
pub mod wellformed;
pub mod laws;
