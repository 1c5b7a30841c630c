//! The evaluator itself: one pass over the characters, with an operand stack
//! and an operator stack.

use crate::error::EvalError;
use crate::machine::{compute, evaluation, stacks, Machine, Stacks};
use crate::scan::{
    blank, decimal, digit, digit_run, digit_value, is_blank, is_digit, is_operator,
    lemma_digit_run_bounds, precedence, symbol, tokens, Token,
};
use vstd::prelude::*;
use vstd::string::StringExecFns;

verus! {

/// The machine state that the evaluator's three variables stand for.
spec fn machine(numbers: Seq<i32>, operators: Seq<char>, expect_number: bool) -> Machine {
    Machine { stacks: stacks(numbers, operators), expect_operand: expect_number }
}

/// Applies one operator to two values with checked arithmetic.
fn combine(op: char, a: i32, b: i32) -> (r: Result<i32, EvalError>)
    ensures
        r == compute(op, a, b),
{
    let value = if op == '+' {
        a.checked_add(b)
    } else if op == '-' {
        a.checked_sub(b)
    } else if op == '*' {
        a.checked_mul(b)
    } else if op == '/' {
        if b == 0 {
            return Err(EvalError::DivisionByZero);
        }
        a.checked_div(b)
    } else {
        return Err(EvalError::UnknownOperator(op));
    };
    match value {
        Some(v) => Ok(v),
        None => Err(EvalError::Overflow),
    }
}

/// Pops one operator and its two operands, and pushes the result. On
/// failure both stacks are left as they were.
pub fn apply_operator(numbers: &mut Vec<i32>, operators: &mut Vec<char>) -> (r: Result<
    (),
    EvalError,
>)
    requires
        old(numbers)@.len() >= 2 ==> old(operators)@.len() > 0,
    ensures
        match stacks(old(numbers)@, old(operators)@).apply() {
            Ok(next) => {
                &&& r is Ok
                &&& final(numbers)@ == next.operands
                &&& final(operators)@ == next.operators
            },
            Err(e) => {
                &&& r == Err::<(), EvalError>(e)
                &&& final(numbers)@ == old(numbers)@
                &&& final(operators)@ == old(operators)@
            },
        },
{
    let n = numbers.len();
    if n < 2 {
        return Err(EvalError::StackUnderflow);
    }
    let op = operators[operators.len() - 1];
    let a = numbers[n - 2];
    let b = numbers[n - 1];
    match combine(op, a, b) {
        Ok(value) => {
            operators.pop();
            numbers.pop();
            numbers.pop();
            numbers.push(value);
            Ok(())
        },
        Err(e) => Err(e),
    }
}

/// Applies operators for as long as the top of the operator stack is an
/// operator of at least the given precedence level. On failure the stacks
/// are left at the reduction that failed.
fn reduce(numbers: &mut Vec<i32>, operators: &mut Vec<char>, level: u8) -> (r: Result<
    (),
    EvalError,
>)
    ensures
        match stacks(old(numbers)@, old(operators)@).reduce(level as nat) {
            Ok(reduced) => {
                &&& r is Ok
                &&& final(numbers)@ == reduced.operands
                &&& final(operators)@ == reduced.operators
                &&& !reduced.due(level as nat)
            },
            Err(e) => {
                &&& r == Err::<(), EvalError>(e)
                &&& stacks(final(numbers)@, final(operators)@).due(level as nat)
                &&& stacks(final(numbers)@, final(operators)@).apply() == Err::<Stacks, EvalError>(e)
            },
        },
{
    loop
        invariant
            stacks(numbers@, operators@).reduce(level as nat) == stacks(
                old(numbers)@,
                old(operators)@,
            ).reduce(level as nat),
        decreases operators.len(),
    {
        let n = operators.len();
        if n == 0 {
            return Ok(());
        }
        let top = operators[n - 1];
        if top == '(' || precedence(&top) < level {
            return Ok(());
        }
        match apply_operator(numbers, operators) {
            Ok(()) => {},
            Err(e) => {
                return Err(e);
            },
        }
    }
}

/// The characters of a string, in order.
fn characters(expression: &str) -> (chars: Vec<char>)
    ensures
        chars@ == expression@,
{
    let mut chars: Vec<char> = Vec::new();
    for c in it: expression.chars()
        invariant
            chars@ == it.seq().take(it.index() as int),
            it.seq() == expression@,
    {
        chars.push(c);
    }
    chars
}

/// A longer run of digits writes a number that is no smaller.
proof fn lemma_decimal_monotone(digits: Seq<char>, k: int)
    requires
        0 <= k <= digits.len(),
    ensures
        decimal(digits.take(k)) <= decimal(digits),
    decreases digits.len(),
{
    if k == digits.len() {
        assert(digits.take(k) =~= digits);
    } else {
        lemma_decimal_monotone(digits.drop_last(), k);
        assert(digits.drop_last().take(k) =~= digits.take(k));
    }
}

/// Reads the number that starts at `start`. Gives its value and the index
/// just behind its last digit.
fn scan_number(chars: &Vec<char>, start: usize) -> (r: Result<(i32, usize), EvalError>)
    requires
        start < chars.len(),
        digit(chars@[start as int]),
    ensures
        ({
            let n = digit_run(chars@.skip(start as int));
            let v = decimal(chars@.subrange(start as int, start + n));
            match r {
                Ok((value, next)) => v <= i32::MAX && value == v && next == start + n,
                Err(e) => v > i32::MAX && e == EvalError::Overflow,
            }
        }),
        start + digit_run(chars@.skip(start as int)) <= chars.len(),
        digit_run(chars@.skip(start as int)) >= 1,
{
    let ghost s = chars@;
    let ghost n = digit_run(s.skip(start as int));
    proof {
        lemma_digit_run_bounds(s.skip(start as int));
    }
    let mut value: i32 = 0;
    let mut i: usize = start;
    loop
        invariant
            s == chars@,
            start <= i <= chars.len(),
            n == digit_run(s.skip(start as int)),
            n == (i - start) + digit_run(s.skip(i as int)),
            start + n <= s.len(),
            value == decimal(s.subrange(start as int, i as int)),
        ensures
            i == start + n,
        decreases chars.len() - i,
    {
        if i >= chars.len() {
            break ;
        }
        let d = match digit_value(chars[i]) {
            Some(d) => d,
            None => {
                break ;
            },
        };
        proof {
            assert(s.skip(i as int).skip(1) =~= s.skip(i + 1));
            assert(s.subrange(start as int, i + 1).drop_last() =~= s.subrange(
                start as int,
                i as int,
            ));
            assert(s.subrange(start as int, start + n).take(i + 1 - start) =~= s.subrange(
                start as int,
                i + 1,
            ));
            lemma_decimal_monotone(s.subrange(start as int, start + n), i + 1 - start);
        }
        let shifted = match value.checked_mul(10) {
            Some(shifted) => shifted,
            None => {
                return Err(EvalError::Overflow);
            },
        };
        value = match shifted.checked_add(d as i32) {
            Some(sum) => sum,
            None => {
                return Err(EvalError::Overflow);
            },
        };
        i += 1;
    }
    Ok((value, i))
}

/// What going on from a state means, by the character that comes next.
proof fn lemma_outcome_unfold(m: Machine, s: Seq<char>, i: int)
    requires
        0 <= i < s.len(),
    ensures
        blank(s[i]) ==> m.outcome(s.skip(i)) == m.outcome(s.skip(i + 1)),
        !blank(s[i]) && digit(s[i]) ==> ({
            let n = digit_run(s.skip(i));
            m.outcome(s.skip(i)) == match m.step(Token::Number(decimal(s.subrange(i, i + n)))) {
                Ok(next) => next.outcome(s.skip(i + n)),
                Err(e) => Err(e),
            }
        }),
        !blank(s[i]) && !digit(s[i]) ==> m.outcome(s.skip(i)) == match m.step(symbol(s[i])) {
            Ok(next) => next.outcome(s.skip(i + 1)),
            Err(e) => Err(e),
        },
{
    let rest = s.skip(i);
    assert(rest[0] == s[i]);
    assert(rest.skip(1) =~= s.skip(i + 1));
    if blank(s[i]) {
    } else if digit(s[i]) {
        let n = digit_run(rest) as int;
        lemma_digit_run_bounds(rest);
        assert(rest.take(n) =~= s.subrange(i, i + n));
        assert(rest.skip(n) =~= s.skip(i + n));
        let first = Token::Number(decimal(rest.take(n)));
        let toks = seq![first] + tokens(rest.skip(n));
        assert(tokens(rest) == toks);
        assert(toks[0] == first);
        assert(toks.skip(1) =~= tokens(rest.skip(n)));
    } else {
        let toks = seq![symbol(s[i])] + tokens(rest.skip(1));
        assert(tokens(rest) == toks);
        assert(toks[0] == symbol(s[i]));
        assert(toks.skip(1) =~= tokens(rest.skip(1)));
    }
}

/// Evaluates an expression of decimal numbers, `+ - * /`, parentheses and
/// blanks. `-` where an operand is due is a sign. Arithmetic is checked:
/// a literal or a result outside `i32` fails with `Overflow`.
///
/// The result is [`evaluation`] of the expression's characters, for every
/// string. What that is for one given string, a proof finds by unfolding
/// the definition: see there.
pub fn evaluate(expression: &str) -> (r: Result<i32, EvalError>)
    ensures
        r == evaluation(expression@),
{
    let chars = characters(expression);
    let ghost s = chars@;
    let mut numbers: Vec<i32> = Vec::new();
    let mut operators: Vec<char> = Vec::new();
    let mut expect_number = true;
    let mut i: usize = 0;
    proof {
        assert(s.skip(0) =~= s);
    }
    while i < chars.len()
        invariant
            i <= chars.len(),
            s == chars@,
            s == expression@,
            evaluation(s) == machine(numbers@, operators@, expect_number).outcome(
                s.skip(i as int),
            ),
        decreases chars.len() - i,
    {
        let c = chars[i];
        proof {
            lemma_outcome_unfold(machine(numbers@, operators@, expect_number), s, i as int);
        }
        if is_blank(c) {
            i += 1;
        } else if is_digit(c) {
            match scan_number(&chars, i) {
                Ok((value, next)) => {
                    numbers.push(value);
                    expect_number = false;
                    i = next;
                },
                Err(e) => {
                    return Err(e);
                },
            }
        } else if c == '(' {
            operators.push(c);
            expect_number = true;
            i += 1;
        } else if c == ')' {
            match reduce(&mut numbers, &mut operators, 0) {
                Ok(()) => {},
                Err(e) => {
                    return Err(e);
                },
            }
            if operators.len() == 0 {
                return Err(EvalError::MismatchedParentheses);
            }
            operators.pop();
            expect_number = false;
            i += 1;
        } else if is_operator(c) {
            if c == '-' && expect_number {
                numbers.push(0);
                operators.push('-');
            } else {
                match reduce(&mut numbers, &mut operators, precedence(&c)) {
                    Ok(()) => {},
                    Err(e) => {
                        return Err(e);
                    },
                }
                operators.push(c);
            }
            expect_number = true;
            i += 1;
        } else {
            return Err(EvalError::InvalidCharacter(c));
        }
    }
    proof {
        assert(s.skip(i as int) =~= Seq::<char>::empty());
    }
    match reduce(&mut numbers, &mut operators, 0) {
        Ok(()) => {},
        Err(e) => {
            return Err(e);
        },
    }
    if operators.len() > 0 {
        return Err(EvalError::MismatchedParentheses);
    }
    if numbers.len() != 1 {
        return Err(EvalError::InvalidExpression);
    }
    Ok(numbers[0])
}

/// Whether `r` is the value of the expression `s` or the text of the reason
/// it has none.
pub open spec fn reported(s: Seq<char>, r: Result<i32, String>) -> bool {
    match evaluation(s) {
        Ok(value) => r == Ok::<i32, String>(value),
        Err(e) => r is Err && r->Err_0@ == e.text(),
    }
}

/// Evaluates an expression and reports a failure as text.
pub fn evaluate_expression(expression: &str) -> (r: Result<i32, String>)
    ensures
        reported(expression@, r),
{
    match evaluate(expression) {
        Ok(value) => Ok(value),
        Err(e) => Err(e.message()),
    }
}

/// Whether `r` is what a host is handed for the expression `s`: its value,
/// or the text of the failure behind the prefix `Error: `.
pub open spec fn delivered(s: Seq<char>, r: Result<i32, String>) -> bool {
    match evaluation(s) {
        Ok(value) => r == Ok::<i32, String>(value),
        Err(e) => r is Err && r->Err_0@ == "Error: "@ + e.text(),
    }
}

/// Evaluates an expression for a host: a failure is reported as the
/// failure's text behind the prefix `Error: `.
pub fn calculate(expression: &str) -> (r: Result<i32, String>)
    ensures
        delivered(expression@, r),
{
    match evaluate_expression(expression) {
        Ok(value) => Ok(value),
        Err(text) => {
            let mut line = "Error: ".to_string();
            line.append(text.as_str());
            Err(line)
        },
    }
}

} // verus!
