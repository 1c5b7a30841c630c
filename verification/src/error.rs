//! Why an evaluation failed, and the text that reports it.

use vstd::prelude::*;

verus! {

/// The ways an evaluation can fail. The first failure met ends the
/// evaluation; there is never a partial result.
#[derive(Debug, Clone, Copy, PartialEq, Eq, Structural)]
pub enum EvalError {
    /// A character that is neither a digit, an operator, a parenthesis nor
    /// blank.
    InvalidCharacter(char),
    /// A `)` without an open `(`, or a `(` that is never closed.
    MismatchedParentheses,
    /// The right operand of `/` is zero.
    DivisionByZero,
    /// An operator is due while fewer than two operands are at hand.
    StackUnderflow,
    /// A symbol outside `+ - * /` was to be applied as an operator.
    UnknownOperator(char),
    /// All operators are applied and the operands left are not exactly one.
    InvalidExpression,
    /// A literal or the result of an operation does not fit in an `i32`.
    Overflow,
}

/// `String::push` appends the character to the end of the string.
pub assume_specification[ String::push ](text: &mut String, c: char)
    ensures
        final(text)@ == old(text)@.push(c),
;

impl EvalError {
    /// The text that reports this failure.
    pub open spec fn text(self) -> Seq<char> {
        match self {
            EvalError::InvalidCharacter(c) => "Invalid character: "@.push(c),
            EvalError::MismatchedParentheses => "Mismatched parentheses"@,
            EvalError::DivisionByZero => "Division by zero"@,
            EvalError::StackUnderflow => "Invalid expression: not enough operands"@,
            EvalError::UnknownOperator(c) => "Unknown operator: "@.push(c),
            EvalError::InvalidExpression => "Invalid expression"@,
            EvalError::Overflow => "Arithmetic overflow"@,
        }
    }

    /// Renders the failure as human-readable text.
    pub fn message(&self) -> (s: String)
        ensures
            s@ == self.text(),
    {
        match self {
            EvalError::InvalidCharacter(c) => {
                let mut s = "Invalid character: ".to_string();
                s.push(*c);
                s
            },
            EvalError::MismatchedParentheses => "Mismatched parentheses".to_string(),
            EvalError::DivisionByZero => "Division by zero".to_string(),
            EvalError::StackUnderflow => "Invalid expression: not enough operands".to_string(),
            EvalError::UnknownOperator(c) => {
                let mut s = "Unknown operator: ".to_string();
                s.push(*c);
                s
            },
            EvalError::InvalidExpression => "Invalid expression".to_string(),
            EvalError::Overflow => "Arithmetic overflow".to_string(),
        }
    }
}

} // verus!
