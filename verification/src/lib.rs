//! A verified arithmetic expression engine: a tokenizer, a precedence-climbing
//! parser producing an abstract syntax tree, and an evaluation machine that
//! maintains a variable environment and a calculation log across calls.
//!
//! Numeric values are carried as the 64-bit patterns of IEEE-754 doubles.
//! The engine itself never performs floating-point arithmetic: whenever a
//! primitive operation is needed, the evaluation machine hands the operation
//! and its operand bits to the caller and consumes the answer bits, so that
//! everything except the arithmetic itself is verified.

pub mod ast;
pub mod calc;
pub mod env;
pub mod eval;
pub mod laws;
pub mod lexer;
pub mod parser;
