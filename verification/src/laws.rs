//! What holds of every evaluation.

use crate::error::EvalError;
use crate::eval::{delivered, reported};
use crate::machine::{evaluation, Machine, Stacks};
use crate::scan::{blank, digit, digit_run, lemma_digit_run_bounds, operator, tokens, Token};
use vstd::prelude::*;

verus! {

/// The digit run of `s` has length `n` where the first `n` characters are
/// digits and the next one, if there is one, is not.
proof fn lemma_digit_run_is(s: Seq<char>, n: int)
    requires
        0 <= n <= s.len(),
        forall|k: int| 0 <= k < n ==> digit(#[trigger] s[k]),
        n < s.len() ==> !digit(s[n]),
    ensures
        digit_run(s) == n,
    decreases n,
{
    if n > 0 {
        let t = s.skip(1);
        assert forall|k: int| 0 <= k < n - 1 implies digit(#[trigger] t[k]) by {
            assert(t[k] == s[k + 1]);
        }
        lemma_digit_run_is(t, n - 1);
    }
}

/// A blank character put anywhere but between two digits leaves the tokens
/// as they are.
pub proof fn lemma_blank_is_no_token(s: Seq<char>, i: int, w: char)
    requires
        0 <= i <= s.len(),
        blank(w),
        !(0 < i < s.len() && digit(s[i - 1]) && digit(s[i])),
    ensures
        tokens(s.insert(i, w)) == tokens(s),
    decreases s.len(),
{
    let t = s.insert(i, w);
    if i == 0 {
        assert(t.skip(1) =~= s);
    } else if blank(s[0]) || !digit(s[0]) {
        assert(t[0] == s[0]);
        let rest = s.skip(1);
        assert(t.skip(1) =~= rest.insert(i - 1, w));
        lemma_blank_is_no_token(rest, i - 1, w);
    } else {
        let n = digit_run(s) as int;
        lemma_digit_run_bounds(s);
        assert(i >= n) by {
            if i < n {
                assert(digit(s[i - 1]) && digit(s[i]));
            }
        }
        assert forall|k: int| 0 <= k < n implies digit(#[trigger] t[k]) by {
            assert(t[k] == s[k]);
        }
        lemma_digit_run_is(t, n);
        assert(t.take(n) =~= s.take(n));
        let rest = s.skip(n);
        assert(t.skip(n) =~= rest.insert(i - n, w));
        lemma_blank_is_no_token(rest, i - n, w);
    }
}

/// Blank characters between tokens never change the result: with any
/// number of them put at a place that is not between two digits, an
/// expression evaluates as it did without them.
pub proof fn law_blanks_change_nothing(s: Seq<char>, i: int, gap: Seq<char>)
    requires
        0 <= i <= s.len(),
        forall|k: int| 0 <= k < gap.len() ==> blank(#[trigger] gap[k]),
        gap.len() > 0 ==> !(0 < i < s.len() && digit(s[i - 1]) && digit(s[i])),
    ensures
        tokens(s.take(i) + gap + s.skip(i)) == tokens(s),
        evaluation(s.take(i) + gap + s.skip(i)) == evaluation(s),
    decreases gap.len(),
{
    if gap.len() == 0 {
        assert(s.take(i) + gap + s.skip(i) =~= s);
    } else {
        let shorter = gap.drop_last();
        let before = s.take(i) + shorter + s.skip(i);
        law_blanks_change_nothing(s, i, shorter);
        let at = i + shorter.len();
        assert(before.insert(at, gap.last()) =~= s.take(i) + gap + s.skip(i));
        if shorter.len() > 0 {
            assert(before[at - 1] == shorter.last());
        } else {
            assert(before =~= s);
        }
        lemma_blank_is_no_token(before, at, gap.last());
    }
}

/// Evaluating the same characters again gives the same result: a result
/// depends on nothing but the characters of the expression.
pub proof fn law_same_characters_same_result(
    s: Seq<char>,
    first: Result<i32, String>,
    second: Result<i32, String>,
)
    requires
        reported(s, first),
        reported(s, second),
    ensures
        first is Ok <==> second is Ok,
        first is Ok ==> first->Ok_0 == second->Ok_0,
        first is Err ==> first->Err_0@ == second->Err_0@,
{
}

/// What holds for `evaluate_expression` holds for `calculate`: the same
/// characters give the same value or the same report.
pub proof fn law_same_characters_same_report(
    s: Seq<char>,
    first: Result<i32, String>,
    second: Result<i32, String>,
)
    requires
        delivered(s, first),
        delivered(s, second),
    ensures
        first is Ok <==> second is Ok,
        first is Ok ==> first->Ok_0 == second->Ok_0,
        first is Err ==> first->Err_0@ == second->Err_0@,
{
}

/// An operator stack that holds nothing but operator symbols and open
/// parentheses.
pub open spec fn tidy(operators: Seq<char>) -> bool {
    forall|k: int| 0 <= k < operators.len() ==> operator(#[trigger] operators[k]) || operators[k] == '('
}

/// Tokens that name an operator name one of the four.
pub open spec fn plain(tokens: Seq<Token>) -> bool {
    forall|k: int|
        0 <= k < tokens.len() ==> (#[trigger] tokens[k] matches Token::Operator(c) ==> operator(c))
}

/// Reducing a tidy stack leaves it tidy and meets no unknown operator.
proof fn lemma_reduce_tidy(st: Stacks, level: nat)
    requires
        tidy(st.operators),
    ensures
        match st.reduce(level) {
            Ok(reduced) => tidy(reduced.operators),
            Err(e) => !(e is UnknownOperator),
        },
    decreases st.operators.len(),
{
    if st.due(level) {
        assert(operator(st.operators[st.operators.len() - 1]));
        match st.apply() {
            Ok(next) => {
                assert forall|k: int| 0 <= k < next.operators.len() implies operator(
                    #[trigger] next.operators[k],
                ) || next.operators[k] == '(' by {
                    assert(next.operators[k] == st.operators[k]);
                }
                lemma_reduce_tidy(next, level);
            },
            Err(e) => {},
        }
    }
}

/// A token leaves a tidy stack tidy and meets no unknown operator.
proof fn lemma_step_tidy(m: Machine, token: Token)
    requires
        tidy(m.stacks.operators),
        token matches Token::Operator(c) ==> operator(c),
    ensures
        match m.step(token) {
            Ok(next) => tidy(next.stacks.operators),
            Err(e) => !(e is UnknownOperator),
        },
{
    match token {
        Token::Close => {
            lemma_reduce_tidy(m.stacks, 0);
            if let Ok(reduced) = m.stacks.reduce(0) {
                if reduced.operators.len() > 0 {
                    let left = reduced.operators.drop_last();
                    assert forall|k: int| 0 <= k < left.len() implies operator(#[trigger] left[k])
                        || left[k] == '(' by {
                        assert(left[k] == reduced.operators[k]);
                    }
                }
            }
        },
        Token::Operator(c) => {
            lemma_reduce_tidy(m.stacks, crate::scan::binding(c));
        },
        _ => {},
    }
}

/// The tokens of a string name no operator but the four.
proof fn lemma_tokens_plain(s: Seq<char>)
    ensures
        plain(tokens(s)),
    decreases s.len(),
{
    if s.len() == 0 {
    } else if blank(s[0]) {
        lemma_tokens_plain(s.skip(1));
    } else if digit(s[0]) {
        lemma_digit_run_bounds(s);
        lemma_tokens_plain(s.skip(digit_run(s) as int));
    } else {
        lemma_tokens_plain(s.skip(1));
    }
}

/// Running plain tokens from a tidy stack meets no unknown operator, on the
/// way or at the end.
proof fn lemma_run_tidy(m: Machine, toks: Seq<Token>)
    requires
        tidy(m.stacks.operators),
        plain(toks),
    ensures
        match m.run(toks) {
            Ok(last) => tidy(last.stacks.operators) && !(last.finish() matches Err(
                EvalError::UnknownOperator(_),
            )),
            Err(e) => !(e is UnknownOperator),
        },
    decreases toks.len(),
{
    if toks.len() == 0 {
        lemma_reduce_tidy(m.stacks, 0);
    } else {
        lemma_step_tidy(m, toks[0]);
        if let Ok(next) = m.step(toks[0]) {
            let rest = toks.skip(1);
            assert forall|k: int| 0 <= k < rest.len() implies (#[trigger] rest[k] matches Token::Operator(
                c,
            ) ==> operator(c)) by {
                assert(rest[k] == toks[k + 1]);
            }
            lemma_run_tidy(next, rest);
        }
    }
}

/// No expression fails with `UnknownOperator`: whatever the characters,
/// only the four operators ever reach the point where one is applied.
pub proof fn law_operators_are_known(s: Seq<char>)
    ensures
        !(evaluation(s) matches Err(EvalError::UnknownOperator(_))),
{
    lemma_tokens_plain(s);
    lemma_run_tidy(Machine::start(), tokens(s));
}

} // verus!
