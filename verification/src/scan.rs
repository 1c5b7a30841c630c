//! The lexical layer: character classes, and the token sequence that a string
//! of characters stands for.

use vstd::prelude::*;

verus! {

/// The blank characters: the code points with the Unicode `White_Space`
/// property. They separate tokens and are otherwise ignored.
pub open spec fn blank(c: char) -> bool {
    let u = c as u32;
    ||| 0x09 <= u <= 0x0D
    ||| u == 0x20
    ||| u == 0x85
    ||| u == 0xA0
    ||| u == 0x1680
    ||| 0x2000 <= u <= 0x200A
    ||| u == 0x2028
    ||| u == 0x2029
    ||| u == 0x202F
    ||| u == 0x205F
    ||| u == 0x3000
}

/// The decimal digits `0` to `9`.
pub open spec fn digit(c: char) -> bool {
    '0' <= c <= '9'
}

/// The number that a decimal digit stands for.
pub open spec fn digit_val(c: char) -> nat
    recommends
        digit(c),
{
    (c as u32 - '0' as u32) as nat
}

/// The four binary operator symbols.
pub open spec fn operator(c: char) -> bool {
    c == '+' || c == '-' || c == '*' || c == '/'
}

/// How tightly an operator symbol binds: 1 for `+` and `-`, 2 for `*` and
/// `/`, and 0 for every other character.
pub open spec fn binding(c: char) -> nat {
    if c == '+' || c == '-' {
        1
    } else if c == '*' || c == '/' {
        2
    } else {
        0
    }
}

/// Whether `c` is a blank character.
pub fn is_blank(c: char) -> (b: bool)
    ensures
        b == blank(c),
{
    let u: u32 = c as u32;
    (0x09 <= u && u <= 0x0D) || u == 0x20 || u == 0x85 || u == 0xA0 || u == 0x1680 || (0x2000 <= u
        && u <= 0x200A) || u == 0x2028 || u == 0x2029 || u == 0x202F || u == 0x205F || u == 0x3000
}

/// Whether `c` is a decimal digit.
pub fn is_digit(c: char) -> (b: bool)
    ensures
        b == digit(c),
{
    '0' <= c && c <= '9'
}

/// The value of `c` as a decimal digit, if it is one.
pub fn digit_value(c: char) -> (d: Option<u32>)
    ensures
        d == if digit(c) {
            Some(digit_val(c) as u32)
        } else {
            None::<u32>
        },
        d matches Some(v) ==> v <= 9,
{
    if '0' <= c && c <= '9' {
        Some(c as u32 - '0' as u32)
    } else {
        None
    }
}

/// Whether `c` is one of the four binary operator symbols.
pub fn is_operator(c: char) -> (b: bool)
    ensures
        b == operator(c),
{
    c == '+' || c == '-' || c == '*' || c == '/'
}

/// The precedence level of an operator symbol, 0 for any other character.
pub fn precedence(op: &char) -> (level: u8)
    ensures
        level == binding(*op),
{
    let c: char = *op;
    if c == '+' || c == '-' {
        1
    } else if c == '*' || c == '/' {
        2
    } else {
        0
    }
}

/// A lexical unit of an expression.
pub enum Token {
    /// A maximal run of decimal digits, by its value.
    Number(nat),
    /// One of `+ - * /`.
    Operator(char),
    /// `(`
    Open,
    /// `)`
    Close,
    /// A character that belongs to no token and is not blank.
    Invalid(char),
}

/// The token that a single character which is neither blank nor a digit
/// stands for.
pub open spec fn symbol(c: char) -> Token {
    if c == '(' {
        Token::Open
    } else if c == ')' {
        Token::Close
    } else if operator(c) {
        Token::Operator(c)
    } else {
        Token::Invalid(c)
    }
}

/// The length of the longest prefix of `s` that consists of digits.
pub open spec fn digit_run(s: Seq<char>) -> nat
    decreases s.len(),
{
    if s.len() > 0 && digit(s[0]) {
        1 + digit_run(s.skip(1))
    } else {
        0
    }
}

/// The number written by a sequence of decimal digits, most significant
/// digit first. No bound applies: the value is a mathematical integer.
pub open spec fn decimal(digits: Seq<char>) -> nat
    decreases digits.len(),
{
    if digits.len() == 0 {
        0
    } else {
        decimal(digits.drop_last()) * 10 + digit_val(digits.last())
    }
}

/// The tokens of `s`, left to right. Blank characters vanish, each maximal
/// run of digits is one number, every other character is a token by itself.
pub open spec fn tokens(s: Seq<char>) -> Seq<Token>
    decreases s.len(),
{
    if s.len() == 0 {
        Seq::empty()
    } else if blank(s[0]) {
        tokens(s.skip(1))
    } else if digit(s[0]) {
        let n = digit_run(s) as int;
        proof {
            lemma_digit_run_bounds(s);
        }
        seq![Token::Number(decimal(s.take(n)))] + tokens(s.skip(n))
    } else {
        seq![symbol(s[0])] + tokens(s.skip(1))
    }
}

/// A digit run is no longer than the sequence, and not empty where the
/// sequence starts with a digit.
pub proof fn lemma_digit_run_bounds(s: Seq<char>)
    ensures
        digit_run(s) <= s.len(),
        s.len() > 0 && digit(s[0]) ==> digit_run(s) >= 1,
        forall|k: int| 0 <= k < digit_run(s) ==> digit(#[trigger] s[k]),
        digit_run(s) < s.len() ==> !digit(s[digit_run(s) as int]),
    decreases s.len(),
{
    if s.len() > 0 && digit(s[0]) {
        let t = s.skip(1);
        lemma_digit_run_bounds(t);
        assert forall|k: int| 0 <= k < digit_run(s) implies digit(#[trigger] s[k]) by {
            if k > 0 {
                assert(s[k] == t[k - 1]);
            }
        }
        if digit_run(s) < s.len() {
            assert(s[digit_run(s) as int] == t[digit_run(t) as int]);
        }
    }
}

} // verus!
