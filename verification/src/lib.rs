//! A verified evaluator for simple arithmetic expressions of the form
//! `"<int> <op> <int>"`, where the operator is one of `+ - * /`.
//!
//! The input is split into whitespace-delimited tokens, the first and third
//! tokens are parsed as signed 32-bit integers, and the operator token selects
//! the arithmetic operation. Any malformed input (missing tokens, a token that
//! is not an integer literal, an unrecognized operator), as well as division by
//! zero and arithmetic overflow, yields `None`.

pub mod eval;
pub mod number;
pub mod token;

pub use eval::parse_expr;
