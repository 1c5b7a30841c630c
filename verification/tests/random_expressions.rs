use rust_calculator::error::EvalError;
use rust_calculator::evaluate;

/// A small deterministic generator, so that a failure can be found again.
struct Dice {
    state: u64,
}

impl Dice {
    fn roll(&mut self, sides: u64) -> u64 {
        self.state = self.state.wrapping_mul(6364136223846793005).wrapping_add(1442695040888963407);
        (self.state >> 33) % sides
    }
}

type Outcome = Result<i32, EvalError>;

fn operate(op: char, left: Outcome, right: Outcome) -> Outcome {
    let a = left?;
    let b = right?;
    let value = match op {
        '+' => a.checked_add(b),
        '-' => a.checked_sub(b),
        '*' => a.checked_mul(b),
        _ => {
            if b == 0 {
                return Err(EvalError::DivisionByZero);
            }
            a.checked_div(b)
        }
    };
    value.ok_or(EvalError::Overflow)
}

fn gap(dice: &mut Dice, text: &mut String) {
    let blanks = [' ', '\t', '\n', '\u{A0}', '\u{2009}'];
    for _ in 0..dice.roll(3) {
        text.push(blanks[dice.roll(blanks.len() as u64) as usize]);
    }
}

fn literal(dice: &mut Dice, text: &mut String) -> Outcome {
    let value: u64 = match dice.roll(8) {
        0 => 0,
        1 => dice.roll(4_000_000_000),
        2 => 2147483647 + dice.roll(2),
        _ => dice.roll(50),
    };
    text.push_str(&value.to_string());
    if value <= i32::MAX as u64 {
        Ok(value as i32)
    } else {
        Err(EvalError::Overflow)
    }
}

fn atom(dice: &mut Dice, depth: u32, text: &mut String) -> Outcome {
    if depth == 0 || dice.roll(3) > 0 {
        literal(dice, text)
    } else {
        text.push('(');
        gap(dice, text);
        let inner = sum(dice, depth - 1, text);
        gap(dice, text);
        text.push(')');
        inner
    }
}

fn product(dice: &mut Dice, depth: u32, text: &mut String) -> Outcome {
    if depth > 0 && dice.roll(6) == 0 {
        text.push('-');
        gap(dice, text);
        let operand = product(dice, depth - 1, text);
        return operate('-', Ok(0), operand);
    }
    let mut result = atom(dice, depth, text);
    while dice.roll(3) == 0 {
        gap(dice, text);
        let op = if dice.roll(2) == 0 { '*' } else { '/' };
        text.push(op);
        gap(dice, text);
        if depth > 0 && dice.roll(5) == 0 {
            text.push('-');
            gap(dice, text);
            let operand = product(dice, depth - 1, text);
            let negated = match result {
                Ok(_) => operate('-', Ok(0), operand),
                Err(e) => Err(e),
            };
            return operate(op, result, negated);
        }
        let operand = atom(dice, depth, text);
        result = operate(op, result, operand);
    }
    result
}

fn sum(dice: &mut Dice, depth: u32, text: &mut String) -> Outcome {
    let mut result = product(dice, depth, text);
    while dice.roll(2) == 0 {
        gap(dice, text);
        let op = if dice.roll(2) == 0 { '+' } else { '-' };
        text.push(op);
        gap(dice, text);
        let operand = product(dice, depth, text);
        result = operate(op, result, operand);
    }
    result
}

#[test]
fn random_expressions_have_the_value_of_their_tree() {
    let mut dice = Dice { state: 2024 };
    let mut values = 0;
    let mut failures = 0;
    for _ in 0..20000 {
        let mut text = String::new();
        gap(&mut dice, &mut text);
        let expected = sum(&mut dice, 3, &mut text);
        gap(&mut dice, &mut text);
        assert_eq!(evaluate(&text), expected, "{:?}", text);
        match expected {
            Ok(_) => values += 1,
            Err(_) => failures += 1,
        }
    }
    assert!(values > 1000);
    assert!(failures > 1000);
}

#[test]
fn random_blanks_between_tokens_change_nothing() {
    let mut dice = Dice { state: 7 };
    let tokens = ["12", "+", "3", "*", "(", "45", "-", "6", ")", "/", "-", "7"];
    let plain = evaluate("12+3*(45-6)/-7");
    assert_eq!(plain, Ok(12 + 3 * (45 - 6) / -7));
    for _ in 0..2000 {
        let mut text = String::new();
        gap(&mut dice, &mut text);
        for token in tokens {
            text.push_str(token);
            gap(&mut dice, &mut text);
        }
        assert_eq!(evaluate(&text), plain, "{:?}", text);
    }
}
