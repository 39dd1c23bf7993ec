//! An integer calculator for expressions in Reverse Polish Notation (RPN).
//!
//! An expression is a line of text holding whitespace-separated tokens, each
//! either a signed decimal integer literal or one of the operators `+`, `-`,
//! `*` and `/`. Evaluation drives an operand stack through the token stream
//! and yields the single remaining value, or a structured error.

pub mod arith;
pub mod error;
pub mod eval;
pub mod parse;
pub mod stack;
