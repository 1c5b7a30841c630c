use rust_calculator::error::EvalError;
use rust_calculator::scan::{digit_value, is_blank, is_digit, is_operator, precedence};
use rust_calculator::{apply_operator, calculate, evaluate, evaluate_expression};

#[test]
fn blank_is_unicode_white_space() {
    let mut code: u32 = 0;
    while code <= 0x10FFFF {
        if let Some(c) = char::from_u32(code) {
            assert_eq!(is_blank(c), c.is_whitespace(), "code point {:x}", code);
        }
        code += 1;
    }
}

#[test]
fn digits_are_the_ascii_decimal_digits() {
    let mut code: u32 = 0;
    while code <= 0x10FFFF {
        if let Some(c) = char::from_u32(code) {
            assert_eq!(is_digit(c), c.is_digit(10), "code point {:x}", code);
            assert_eq!(digit_value(c), c.to_digit(10), "code point {:x}", code);
        }
        code += 1;
    }
    assert_eq!(digit_value('0'), Some(0));
    assert_eq!(digit_value('7'), Some(7));
    assert_eq!(digit_value('9'), Some(9));
    assert_eq!(digit_value('a'), None);
}

#[test]
fn operators_and_their_precedence() {
    assert!(is_operator('+'));
    assert!(is_operator('-'));
    assert!(is_operator('*'));
    assert!(is_operator('/'));
    assert!(!is_operator('('));
    assert!(!is_operator(')'));
    assert!(!is_operator('^'));
    assert!(!is_operator('1'));
    assert_eq!(precedence(&'+'), 1);
    assert_eq!(precedence(&'-'), 1);
    assert_eq!(precedence(&'*'), 2);
    assert_eq!(precedence(&'/'), 2);
    assert_eq!(precedence(&'('), 0);
    assert_eq!(precedence(&'x'), 0);
}

#[test]
fn apply_operator_replaces_two_operands_by_the_result() {
    let mut numbers = vec![7, 2, 3];
    let mut operators = vec!['(', '+'];
    assert_eq!(apply_operator(&mut numbers, &mut operators), Ok(()));
    assert_eq!(numbers, vec![7, 5]);
    assert_eq!(operators, vec!['(']);

    let mut numbers = vec![10, 4];
    let mut operators = vec!['-'];
    assert_eq!(apply_operator(&mut numbers, &mut operators), Ok(()));
    assert_eq!(numbers, vec![6]);
    assert!(operators.is_empty());

    let mut numbers = vec![6, 7];
    let mut operators = vec!['*'];
    assert_eq!(apply_operator(&mut numbers, &mut operators), Ok(()));
    assert_eq!(numbers, vec![42]);

    let mut numbers = vec![-7, 2];
    let mut operators = vec!['/'];
    assert_eq!(apply_operator(&mut numbers, &mut operators), Ok(()));
    assert_eq!(numbers, vec![-3]);
}

#[test]
fn apply_operator_fails_without_two_operands() {
    let mut numbers = vec![1];
    let mut operators = vec!['+'];
    assert_eq!(apply_operator(&mut numbers, &mut operators), Err(EvalError::StackUnderflow));
    assert_eq!(numbers, vec![1]);
    assert_eq!(operators, vec!['+']);

    let mut numbers: Vec<i32> = Vec::new();
    let mut operators: Vec<char> = Vec::new();
    assert_eq!(apply_operator(&mut numbers, &mut operators), Err(EvalError::StackUnderflow));
}

#[test]
fn apply_operator_rejects_what_is_no_operator() {
    let mut numbers = vec![1, 2];
    let mut operators = vec!['^'];
    assert_eq!(apply_operator(&mut numbers, &mut operators), Err(EvalError::UnknownOperator('^')));
    assert_eq!(numbers, vec![1, 2]);
    assert_eq!(operators, vec!['^']);

    let mut operators = vec!['('];
    assert_eq!(apply_operator(&mut numbers, &mut operators), Err(EvalError::UnknownOperator('(')));
}

#[test]
fn apply_operator_checks_the_divisor_and_the_range() {
    let mut numbers = vec![5, 0];
    let mut operators = vec!['/'];
    assert_eq!(apply_operator(&mut numbers, &mut operators), Err(EvalError::DivisionByZero));
    assert_eq!(numbers, vec![5, 0]);
    assert_eq!(operators, vec!['/']);

    let mut numbers = vec![i32::MAX, 1];
    let mut operators = vec!['+'];
    assert_eq!(apply_operator(&mut numbers, &mut operators), Err(EvalError::Overflow));

    let mut numbers = vec![i32::MIN, 1];
    let mut operators = vec!['-'];
    assert_eq!(apply_operator(&mut numbers, &mut operators), Err(EvalError::Overflow));

    let mut numbers = vec![65536, 32768];
    let mut operators = vec!['*'];
    assert_eq!(apply_operator(&mut numbers, &mut operators), Err(EvalError::Overflow));

    let mut numbers = vec![i32::MIN, -1];
    let mut operators = vec!['/'];
    assert_eq!(apply_operator(&mut numbers, &mut operators), Err(EvalError::Overflow));

    let mut numbers = vec![i32::MIN, 1];
    let mut operators = vec!['/'];
    assert_eq!(apply_operator(&mut numbers, &mut operators), Ok(()));
    assert_eq!(numbers, vec![i32::MIN]);
}

#[test]
fn division_truncates_toward_zero() {
    assert_eq!(evaluate("5 / 2"), Ok(2));
    assert_eq!(evaluate("10 / 20"), Ok(0));
    assert_eq!(evaluate("(0 - 7) / 2"), Ok(-3));
    assert_eq!(evaluate("7 / (0 - 2)"), Ok(-3));
    assert_eq!(evaluate("(0 - 7) / (0 - 2)"), Ok(3));
    assert_eq!(evaluate("0 / 5"), Ok(0));
    assert_eq!(evaluate("0 / (0 - 5)"), Ok(0));
}

#[test]
fn operators_of_one_level_group_from_the_left() {
    assert_eq!(evaluate("10 - 3 * 2"), Ok(4));
    assert_eq!(evaluate("2 + 3 * 4 - 5"), Ok(9));
    assert_eq!(evaluate("10 - 3 - 2"), Ok(5));
    assert_eq!(evaluate("100 / 10 / 5"), Ok(2));
    assert_eq!(evaluate("100 / 10 * 5"), Ok(50));
    assert_eq!(evaluate("2 - 3 + 4"), Ok(3));
}

#[test]
fn parentheses_change_the_result() {
    assert_eq!(evaluate("(2 + 3) * 4"), Ok(20));
    assert_eq!(evaluate("2 + 3 * 4"), Ok(14));
    assert_eq!(evaluate("((((7))))"), Ok(7));
    assert_eq!(evaluate("2 * (3 + (4 - 1)) * 5"), Ok(60));
}

#[test]
fn a_sign_works_with_binary_operators() {
    assert_eq!(evaluate("-5 + 3"), Ok(-2));
    assert_eq!(evaluate("5 + -3"), Ok(2));
    assert_eq!(evaluate("-5 * -3"), Ok(15));
    assert_eq!(evaluate("(-5)"), Ok(-5));
    assert_eq!(evaluate("- - 3"), Ok(3));
    assert_eq!(evaluate("2 - -3 - 4"), Ok(1));
    assert_eq!(evaluate("-(2 + 3)"), Ok(-5));
}

#[test]
fn a_sign_reaches_over_the_product_that_follows() {
    assert_eq!(evaluate("2 * -3 * 4"), Ok(-24));
    assert_eq!(evaluate("8 / -2 * 3"), Ok(-1));
    assert_eq!(evaluate("-2 * 3 + 1"), Ok(-5));
    assert_eq!(evaluate("-7 / 2"), Ok(-3));
}

#[test]
fn blanks_between_tokens_change_nothing() {
    let spellings = [
        "2+3",
        "2 + 3",
        "2  +  3",
        " 2+3 ",
        "\t2\t+\t3\t",
        "\n2\n+\n3\n",
        "\r\n2 +\r\n3",
        "2\u{A0}+\u{3000}3",
        "\u{2003}2\u{2028}+\u{85}3\u{1680}",
    ];
    for text in spellings {
        assert_eq!(evaluate(text), Ok(5), "{:?}", text);
    }
    assert_eq!(evaluate("( 1 + 2 ) * 3"), evaluate("(1+2)*3"));
    assert_eq!(evaluate("(2 + 3"), evaluate(" ( 2+3 "));
    assert_eq!(evaluate("5 / 0"), evaluate("5/0"));
}

#[test]
fn a_blank_between_digits_parts_two_numbers() {
    assert_eq!(evaluate("12"), Ok(12));
    assert_eq!(evaluate("1 2"), Err(EvalError::InvalidExpression));
    assert_eq!(evaluate("1 2 +"), Ok(3));
}

#[test]
fn numbers_are_read_in_decimal() {
    assert_eq!(evaluate("0"), Ok(0));
    assert_eq!(evaluate("007"), Ok(7));
    assert_eq!(evaluate("1234567890"), Ok(1234567890));
    assert_eq!(evaluate("2147483647"), Ok(i32::MAX));
    assert_eq!(evaluate("000000000000000000000000012"), Ok(12));
}

#[test]
fn a_result_outside_i32_is_an_overflow() {
    assert_eq!(evaluate("2147483648"), Err(EvalError::Overflow));
    assert_eq!(evaluate("99999999999999999999"), Err(EvalError::Overflow));
    assert_eq!(evaluate("2147483647 + 1"), Err(EvalError::Overflow));
    assert_eq!(evaluate("65536 * 65536"), Err(EvalError::Overflow));
    assert_eq!(evaluate("-2147483647 - 2"), Err(EvalError::Overflow));
    assert_eq!(evaluate("-2147483647 - 1"), Ok(i32::MIN));
    assert_eq!(evaluate("(-2147483647 - 1) / -1"), Err(EvalError::Overflow));
    assert_eq!(evaluate("2147483647 + 1 - 1"), Err(EvalError::Overflow));
}

#[test]
fn division_by_zero_never_returns_a_value() {
    assert_eq!(evaluate("5 / 0"), Err(EvalError::DivisionByZero));
    assert_eq!(evaluate("5 / (3 - 3)"), Err(EvalError::DivisionByZero));
    assert_eq!(evaluate("0 / 0"), Err(EvalError::DivisionByZero));
    assert_eq!(evaluate("1 + 5 / 0 * 2"), Err(EvalError::DivisionByZero));
}

#[test]
fn a_character_outside_the_language_is_invalid() {
    assert_eq!(evaluate("2 + a"), Err(EvalError::InvalidCharacter('a')));
    assert_eq!(evaluate("2 $ 3"), Err(EvalError::InvalidCharacter('$')));
    assert_eq!(evaluate("2 ^ 3"), Err(EvalError::InvalidCharacter('^')));
    assert_eq!(evaluate("1.5"), Err(EvalError::InvalidCharacter('.')));
    assert_eq!(evaluate("\u{0663}"), Err(EvalError::InvalidCharacter('\u{0663}')));
}

#[test]
fn parentheses_have_to_match() {
    assert_eq!(evaluate("(2 + 3"), Err(EvalError::MismatchedParentheses));
    assert_eq!(evaluate("2 + 3)"), Err(EvalError::MismatchedParentheses));
    assert_eq!(evaluate("((2 + 3)"), Err(EvalError::MismatchedParentheses));
    assert_eq!(evaluate("("), Err(EvalError::MismatchedParentheses));
    assert_eq!(evaluate(")"), Err(EvalError::MismatchedParentheses));
    assert_eq!(evaluate(")("), Err(EvalError::MismatchedParentheses));
}

#[test]
fn what_is_no_expression_is_rejected() {
    assert_eq!(evaluate(""), Err(EvalError::InvalidExpression));
    assert_eq!(evaluate("   "), Err(EvalError::InvalidExpression));
    assert_eq!(evaluate("2 2"), Err(EvalError::InvalidExpression));
    assert_eq!(evaluate("()"), Err(EvalError::InvalidExpression));
    assert_eq!(evaluate("2 (3)"), Err(EvalError::InvalidExpression));
    assert_eq!(evaluate("2 +"), Err(EvalError::StackUnderflow));
    assert_eq!(evaluate("+ 2"), Err(EvalError::StackUnderflow));
    assert_eq!(evaluate("2 + + 3"), Err(EvalError::StackUnderflow));
    assert_eq!(evaluate("2 * / 3"), Err(EvalError::StackUnderflow));
    assert_eq!(evaluate("(2 +)"), Err(EvalError::StackUnderflow));
    assert_eq!(evaluate("-"), Err(EvalError::StackUnderflow));
    for text in ["", "2 +", "+ 2", "2 2"] {
        let message = evaluate_expression(text).unwrap_err();
        assert!(message.starts_with("Invalid expression"), "{:?}: {:?}", text, message);
    }
}

#[test]
fn the_first_failure_in_reading_order_is_reported() {
    assert_eq!(evaluate("5 / 0 $"), Err(EvalError::InvalidCharacter('$')));
    assert_eq!(evaluate("5 / 0 + $"), Err(EvalError::DivisionByZero));
    assert_eq!(evaluate("2 $ ("), Err(EvalError::InvalidCharacter('$')));
    assert_eq!(evaluate("(5 / 0"), Err(EvalError::DivisionByZero));
    assert_eq!(evaluate(") 99999999999"), Err(EvalError::MismatchedParentheses));
    assert_eq!(evaluate("99999999999 )"), Err(EvalError::Overflow));
}

#[test]
fn operands_may_come_before_their_operator() {
    assert_eq!(evaluate("2 3 +"), Ok(5));
    assert_eq!(evaluate("(2 3) *"), Ok(6));
}

#[test]
fn every_failure_has_its_text() {
    assert_eq!(EvalError::InvalidCharacter('a').message(), "Invalid character: a");
    assert_eq!(EvalError::MismatchedParentheses.message(), "Mismatched parentheses");
    assert_eq!(EvalError::DivisionByZero.message(), "Division by zero");
    assert_eq!(EvalError::StackUnderflow.message(), "Invalid expression: not enough operands");
    assert_eq!(EvalError::UnknownOperator('^').message(), "Unknown operator: ^");
    assert_eq!(EvalError::InvalidExpression.message(), "Invalid expression");
    assert_eq!(EvalError::Overflow.message(), "Arithmetic overflow");
}

#[test]
fn evaluate_expression_reports_failures_as_text() {
    assert_eq!(evaluate_expression("2 + 3 * 4"), Ok(14));
    assert_eq!(evaluate_expression("5 / 0"), Err("Division by zero".to_string()));
    assert_eq!(evaluate_expression("2 + a"), Err("Invalid character: a".to_string()));
    assert_eq!(evaluate_expression("2 $ 3"), Err("Invalid character: $".to_string()));
    assert_eq!(evaluate_expression("2 + \u{e9}"), Err("Invalid character: \u{e9}".to_string()));
    assert_eq!(evaluate_expression("(2 + 3"), Err("Mismatched parentheses".to_string()));
    assert_eq!(evaluate_expression("2 + 3)"), Err("Mismatched parentheses".to_string()));
    assert_eq!(evaluate_expression(""), Err("Invalid expression".to_string()));
    assert_eq!(evaluate_expression("2 2"), Err("Invalid expression".to_string()));
    assert_eq!(
        evaluate_expression("2 +"),
        Err("Invalid expression: not enough operands".to_string())
    );
    assert_eq!(
        evaluate_expression("+ 2"),
        Err("Invalid expression: not enough operands".to_string())
    );
    assert_eq!(evaluate_expression("2147483648"), Err("Arithmetic overflow".to_string()));
}

#[test]
fn calculate_puts_a_prefix_before_the_failure() {
    assert_eq!(calculate("(2 + 3) * 4"), Ok(20));
    assert_eq!(calculate("-5"), Ok(-5));
    assert_eq!(calculate("5 / 0"), Err("Error: Division by zero".to_string()));
    assert_eq!(calculate("2 + a"), Err("Error: Invalid character: a".to_string()));
    assert_eq!(calculate("(2"), Err("Error: Mismatched parentheses".to_string()));
    assert_eq!(calculate(""), Err("Error: Invalid expression".to_string()));
    assert_eq!(
        calculate("2 +"),
        Err("Error: Invalid expression: not enough operands".to_string())
    );
}

#[test]
fn evaluating_again_gives_the_same_result() {
    let texts = ["2 + 3 * 4", "5 / 0", "(2 + 3", "", "2 + a", "-5 * -3", "2147483648"];
    for text in texts {
        let first = evaluate_expression(text);
        for _ in 0..5 {
            assert_eq!(evaluate_expression(text), first);
            assert_eq!(evaluate(text).map_err(|e| e.message()), first);
        }
    }
}

#[test]
fn a_well_formed_expression_has_its_mathematical_value() {
    assert_eq!(evaluate("1 + 2 * 3 - 4 / 2"), Ok(1 + 2 * 3 - 4 / 2));
    assert_eq!(evaluate("(1 + 2) * (3 - 4) / 2"), Ok((1 + 2) * (3 - 4) / 2));
    assert_eq!(evaluate("100 - 7 * (6 + 5) / 4 * 3"), Ok(100 - 7 * (6 + 5) / 4 * 3));
    assert_eq!(evaluate("17 / 5 * 5 + 17 - 17 / 5 * 5"), Ok(17 / 5 * 5 + 17 - 17 / 5 * 5));
    assert_eq!(evaluate("((2))*((3)+(4))"), Ok(14));
    assert_eq!(evaluate("46341 * 46340"), Ok(46341 * 46340));
}
