//! A single-pass evaluator for infix integer arithmetic.
//!
//! An expression is written with decimal numbers, the operators `+ - * /`,
//! parentheses and blanks. It is read once, left to right, with a stack of
//! operands and a stack of operators; no tree is built. `*` and `/` bind
//! tighter than `+` and `-`, operators of one level group from the left,
//! division truncates toward zero, and a `-` where an operand is due is a
//! sign. Values are `i32`, and arithmetic is checked: what does not fit is
//! an [`EvalError::Overflow`], never a wrapped number.
//!
//! - [`scan`] holds the character classes and says which tokens a string
//!   of characters stands for.
//! - [`machine`] says what evaluating means: a state machine over tokens.
//! - [`eval`] is the executable evaluator, proved to compute exactly what
//!   the machine defines.
//! - [`syntax`] has expression trees and the theorem that the evaluator
//!   computes the value of the tree that an expression writes down.
//! - [`laws`] has what else holds of every evaluation.
//! - [`error`] has the failures and their texts.

pub mod error;
pub mod eval;
pub mod laws;
pub mod machine;
pub mod scan;
pub mod syntax;

pub use error::EvalError;
pub use eval::{apply_operator, calculate, evaluate, evaluate_expression};
pub use scan::{is_operator, precedence};
