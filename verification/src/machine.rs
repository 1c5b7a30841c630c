//! The evaluator as a state machine: two stacks and a flag, moved on by one
//! token at a time. Everything here is specification; the executable code
//! is proved to follow it.

use crate::error::EvalError;
use crate::scan::{binding, tokens, Token};
use vstd::prelude::*;

verus! {

/// Whether a mathematical integer can be held as an `i32`.
pub open spec fn fits(v: int) -> bool {
    i32::MIN <= v <= i32::MAX
}

/// Integer division that truncates toward zero.
pub open spec fn quotient(a: int, b: int) -> int
    recommends
        b != 0,
{
    if a >= 0 && b > 0 {
        a / b
    } else if a < 0 && b < 0 {
        (-a) / (-b)
    } else if a < 0 {
        -((-a) / b)
    } else {
        -(a / (-b))
    }
}

/// The mathematical result of a binary operator on two integers.
pub open spec fn exact(op: char, a: int, b: int) -> int
    recommends
        crate::scan::operator(op),
        op == '/' ==> b != 0,
{
    if op == '+' {
        a + b
    } else if op == '-' {
        a - b
    } else if op == '*' {
        a * b
    } else {
        quotient(a, b)
    }
}

/// What applying `op` to `a` and `b` gives: the exact result where it fits
/// in an `i32`, and a failure otherwise. A zero divisor is reported before
/// anything is computed.
pub open spec fn compute(op: char, a: i32, b: i32) -> Result<i32, EvalError> {
    if !crate::scan::operator(op) {
        Err(EvalError::UnknownOperator(op))
    } else if op == '/' && b == 0 {
        Err(EvalError::DivisionByZero)
    } else if fits(exact(op, a as int, b as int)) {
        Ok(exact(op, a as int, b as int) as i32)
    } else {
        Err(EvalError::Overflow)
    }
}

/// The operand stack and the operator stack, each with its top at the end.
pub struct Stacks {
    /// Values that await an operator.
    pub operands: Seq<i32>,
    /// Operators and open parentheses that await their turn.
    pub operators: Seq<char>,
}

/// The stacks with the given contents.
pub open spec fn stacks(operands: Seq<i32>, operators: Seq<char>) -> Stacks {
    Stacks { operands, operators }
}

impl Stacks {
    /// Whether the top of the operator stack is an operator that has to be
    /// applied before one of the given level may be pushed. An open
    /// parenthesis is never due: it shields what lies below it.
    pub open spec fn due(self, level: nat) -> bool {
        &&& self.operators.len() > 0
        &&& self.operators.last() != '('
        &&& binding(self.operators.last()) >= level
    }

    /// One reduction: the top operator is applied to the two top operands,
    /// and its result takes their place.
    pub open spec fn apply(self) -> Result<Stacks, EvalError>
        recommends
            self.operators.len() > 0,
    {
        let n = self.operands.len() as int;
        if n < 2 {
            Err(EvalError::StackUnderflow)
        } else {
            match compute(self.operators.last(), self.operands[n - 2], self.operands[n - 1]) {
                Ok(v) => Ok(
                    Stacks {
                        operands: self.operands.take(n - 2).push(v),
                        operators: self.operators.drop_last(),
                    },
                ),
                Err(e) => Err(e),
            }
        }
    }

    /// Reductions for as long as the top operator is due at `level`. With
    /// level 0 this empties the operator stack down to the nearest open
    /// parenthesis.
    pub open spec fn reduce(self, level: nat) -> Result<Stacks, EvalError>
        decreases self.operators.len(),
    {
        if self.due(level) {
            match self.apply() {
                Ok(next) => next.reduce(level),
                Err(e) => Err(e),
            }
        } else {
            Ok(self)
        }
    }
}

/// The state between two tokens.
pub struct Machine {
    /// The two stacks.
    pub stacks: Stacks,
    /// Whether an operand has to come next, as at the start, after an
    /// operator and after `(`. Only there is `-` a sign.
    pub expect_operand: bool,
}

impl Machine {
    /// The state before the first token.
    pub open spec fn start() -> Machine {
        Machine { stacks: stacks(Seq::empty(), Seq::empty()), expect_operand: true }
    }

    /// The state after one more token, or the failure that the token causes.
    pub open spec fn step(self, token: Token) -> Result<Machine, EvalError> {
        let Stacks { operands, operators } = self.stacks;
        match token {
            Token::Number(n) => if n <= i32::MAX {
                Ok(Machine { stacks: stacks(operands.push(n as i32), operators), expect_operand: false })
            } else {
                Err(EvalError::Overflow)
            },
            Token::Open => Ok(
                Machine { stacks: stacks(operands, operators.push('(')), expect_operand: true },
            ),
            Token::Close => match self.stacks.reduce(0) {
                Ok(reduced) => if reduced.operators.len() == 0 {
                    Err(EvalError::MismatchedParentheses)
                } else {
                    Ok(
                        Machine {
                            stacks: stacks(reduced.operands, reduced.operators.drop_last()),
                            expect_operand: false,
                        },
                    )
                },
                Err(e) => Err(e),
            },
            Token::Operator(c) => if c == '-' && self.expect_operand {
                Ok(
                    Machine {
                        stacks: stacks(operands.push(0), operators.push('-')),
                        expect_operand: true,
                    },
                )
            } else {
                match self.stacks.reduce(binding(c)) {
                    Ok(reduced) => Ok(
                        Machine {
                            stacks: stacks(reduced.operands, reduced.operators.push(c)),
                            expect_operand: true,
                        },
                    ),
                    Err(e) => Err(e),
                }
            },
            Token::Invalid(c) => Err(EvalError::InvalidCharacter(c)),
        }
    }

    /// The state after all the given tokens, or the first failure on the way.
    pub open spec fn run(self, tokens: Seq<Token>) -> Result<Machine, EvalError>
        decreases tokens.len(),
    {
        if tokens.len() == 0 {
            Ok(self)
        } else {
            match self.step(tokens[0]) {
                Ok(next) => next.run(tokens.skip(1)),
                Err(e) => Err(e),
            }
        }
    }

    /// The result once the input has ended: what is left on the operator
    /// stack is applied, no open parenthesis may remain, and exactly one
    /// operand must.
    pub open spec fn finish(self) -> Result<i32, EvalError> {
        match self.stacks.reduce(0) {
            Ok(reduced) => if reduced.operators.len() > 0 {
                Err(EvalError::MismatchedParentheses)
            } else if reduced.operands.len() != 1 {
                Err(EvalError::InvalidExpression)
            } else {
                Ok(reduced.operands[0])
            },
            Err(e) => Err(e),
        }
    }

    /// The result of going on from this state with the characters `rest`.
    pub open spec fn outcome(self, rest: Seq<char>) -> Result<i32, EvalError> {
        match self.run(tokens(rest)) {
            Ok(last) => last.finish(),
            Err(e) => Err(e),
        }
    }
}

/// The value of the expression written by `s`, or the reason it has none.
///
/// The definitions that this one rests on are recursive. A proof about one
/// given string unfolds them as far as the string is long: `tokens` once
/// for each character, `digit_run` and `decimal` once for each digit of a
/// number, `Machine::run` once for each token, `Stacks::reduce` once for
/// each operator that waits on the stack, and each of them once more.
///
/// ```text
/// reveal_strlit("5 / 2");
/// reveal_with_fuel(tokens, 6);
/// reveal_with_fuel(digit_run, 2);
/// reveal_with_fuel(decimal, 2);
/// reveal_with_fuel(Machine::run, 4);
/// reveal_with_fuel(Stacks::reduce, 2);
/// assert(evaluation("5 / 2"@) == Ok::<i32, EvalError>(2));
/// ```
pub open spec fn evaluation(s: Seq<char>) -> Result<i32, EvalError> {
    Machine::start().outcome(s)
}

} // verus!
