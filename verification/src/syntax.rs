//! Expression trees, the value of a tree, and the theorem that the
//! evaluator computes that value from the tree's tokens.

use crate::error::EvalError;
use crate::machine::{compute, evaluation, exact, fits, stacks, Machine, Stacks};
use crate::scan::{binding, operator, tokens, Token};
use vstd::prelude::*;

verus! {

/// An arithmetic expression as a tree.
pub enum Expr {
    /// A number written in decimal digits.
    Literal(nat),
    /// An expression in parentheses.
    Group(Box<Expr>),
    /// A `-` in front of an operand.
    Negate(Box<Expr>),
    /// Two operands with an operator symbol between them.
    Binary(Box<Expr>, char, Box<Expr>),
}

impl Expr {
    /// The mathematical value: unbounded integers, and division that
    /// truncates toward zero.
    pub open spec fn value(self) -> int
        decreases self,
    {
        match self {
            Expr::Literal(n) => n as int,
            Expr::Group(inner) => inner.value(),
            Expr::Negate(operand) => -operand.value(),
            Expr::Binary(left, op, right) => exact(op, left.value(), right.value()),
        }
    }

    /// The tokens that write the tree down, left to right.
    pub open spec fn tokens(self) -> Seq<Token>
        decreases self,
    {
        match self {
            Expr::Literal(n) => seq![Token::Number(n)],
            Expr::Group(inner) => seq![Token::Open] + inner.tokens() + seq![Token::Close],
            Expr::Negate(operand) => seq![Token::Operator('-')] + operand.tokens(),
            Expr::Binary(left, op, right) => left.tokens() + seq![Token::Operator(op)]
                + right.tokens(),
        }
    }

    /// Whether the tree can be computed in `i32`: every operator is one of
    /// the four, no divisor is zero, and every literal and every value on
    /// the way fits.
    pub open spec fn computable(self) -> bool
        decreases self,
    {
        match self {
            Expr::Literal(n) => n <= i32::MAX,
            Expr::Group(inner) => inner.computable(),
            Expr::Negate(operand) => operand.computable() && fits(-operand.value()),
            Expr::Binary(left, op, right) => {
                &&& operator(op)
                &&& left.computable()
                &&& right.computable()
                &&& op == '/' ==> right.value() != 0
                &&& fits(exact(op, left.value(), right.value()))
            },
        }
    }

    /// What computing the tree in `i32` gives: operands before their
    /// operator, the left operand before the right one, and the first
    /// failure ends it.
    pub open spec fn result(self) -> Result<i32, EvalError>
        decreases self,
    {
        match self {
            Expr::Literal(n) => if n <= i32::MAX {
                Ok(n as i32)
            } else {
                Err(EvalError::Overflow)
            },
            Expr::Group(inner) => inner.result(),
            Expr::Negate(operand) => match operand.result() {
                Ok(v) => compute('-', 0, v),
                Err(e) => Err(e),
            },
            Expr::Binary(left, op, right) => match left.result() {
                Ok(a) => match right.result() {
                    Ok(b) => compute(op, a, b),
                    Err(e) => Err(e),
                },
                Err(e) => Err(e),
            },
        }
    }

    /// A literal, or a sum in parentheses.
    pub open spec fn atom(self) -> bool
        decreases self,
    {
        match self {
            Expr::Literal(_) => true,
            Expr::Group(inner) => inner.sum(),
            _ => false,
        }
    }

    /// Atoms joined by `*` and `/`, grouped from the left.
    pub open spec fn chain(self) -> bool
        decreases self,
    {
        match self {
            Expr::Literal(_) => true,
            Expr::Group(inner) => inner.sum(),
            Expr::Negate(_) => false,
            Expr::Binary(left, op, right) => {
                &&& op == '*' || op == '/'
                &&& left.chain()
                &&& right.atom()
            },
        }
    }

    /// A chain whose last operand may carry a sign. The sign reaches over
    /// all of the product that follows it: `2 * -3 * 4` is `2 * -(3 * 4)`.
    pub open spec fn product(self) -> bool
        decreases self,
    {
        match self {
            Expr::Literal(_) => true,
            Expr::Group(inner) => inner.sum(),
            Expr::Negate(operand) => operand.product(),
            Expr::Binary(left, op, right) => {
                &&& op == '*' || op == '/'
                &&& left.chain()
                &&& right.atom() || (*right is Negate && right.product())
            },
        }
    }

    /// Products joined by `+` and `-`, grouped from the left. This is the
    /// shape of a whole expression.
    pub open spec fn sum(self) -> bool
        decreases self,
    {
        match self {
            Expr::Literal(_) => true,
            Expr::Group(inner) => inner.sum(),
            Expr::Negate(operand) => operand.product(),
            Expr::Binary(left, op, right) => if op == '+' || op == '-' {
                left.sum() && right.product()
            } else {
                &&& op == '*' || op == '/'
                &&& left.chain()
                &&& right.atom() || (*right is Negate && right.product())
            },
        }
    }

    /// Whether all of the tree can be computed but, perhaps, the operators
    /// that its tokens leave pending.
    spec fn ready(self) -> bool
        decreases self,
    {
        match self {
            Expr::Literal(n) => n <= i32::MAX,
            Expr::Group(inner) => inner.result() is Ok,
            Expr::Negate(operand) => operand.ready(),
            Expr::Binary(left, _, right) => left.result() is Ok && right.ready(),
        }
    }

    /// What the tokens of a ready tree leave on the two stacks, above what
    /// lay there before: the operators that are not applied yet, and their
    /// operands.
    spec fn pending(self) -> Stacks
        decreases self,
    {
        match self {
            Expr::Literal(n) => stacks(seq![n as i32], Seq::empty()),
            Expr::Group(inner) => stacks(seq![inner.result()->Ok_0], Seq::empty()),
            Expr::Negate(operand) => stacks(
                seq![0i32] + operand.pending().operands,
                seq!['-'] + operand.pending().operators,
            ),
            Expr::Binary(left, op, right) => stacks(
                seq![left.result()->Ok_0] + right.pending().operands,
                seq![op] + right.pending().operators,
            ),
        }
    }

    /// Whether every pending operator of the tree binds at least as tightly
    /// as `level`.
    spec fn yields(self, level: nat) -> bool
        decreases self,
    {
        match self {
            Expr::Negate(operand) => level <= 1 && operand.yields(level),
            Expr::Binary(_, op, right) => operator(op) && level <= binding(op) && right.yields(
                level,
            ),
            _ => true,
        }
    }

    /// Whether an operator stack lets the tree's own operators stop where
    /// the tree begins.
    spec fn welcome(self, operators: Seq<char>) -> bool {
        match self {
            Expr::Binary(_, op, _) => !stacks(Seq::empty(), operators).due(binding(op)),
            _ => true,
        }
    }
}

/// One pair of stacks on top of another.
spec fn above(base: Stacks, top: Stacks) -> Stacks {
    stacks(base.operands + top.operands, base.operators + top.operators)
}

/// The stacks once `left` and `op` are pushed on `base`.
spec fn pushed(base: Stacks, left: i32, op: char) -> Stacks {
    stacks(base.operands.push(left), base.operators.push(op))
}

/// How a reduction goes on once a pending part has come to `result`.
spec fn resumed(base: Stacks, result: Result<i32, EvalError>, level: nat) -> Result<
    Stacks,
    EvalError,
> {
    match result {
        Ok(v) => stacks(base.operands.push(v), base.operators).reduce(level),
        Err(e) => Err(e),
    }
}

/// The shapes are nested: an atom is a chain, a chain a product, a product
/// a sum.
pub proof fn lemma_shapes_nest(e: Expr)
    ensures
        e.atom() ==> e.chain(),
        e.chain() ==> e.product(),
        e.product() ==> e.sum(),
{
    match e {
        Expr::Literal(_) => {},
        Expr::Group(_) => {},
        Expr::Negate(_) => {},
        Expr::Binary(_, _, _) => {},
    }
}

/// A computable tree comes to its mathematical value, and only a
/// computable tree comes to a value at all.
pub proof fn lemma_result_is_value(e: Expr)
    ensures
        e.computable() ==> fits(e.value()) && e.result() == Ok::<i32, EvalError>(
            e.value() as i32,
        ),
        e.result() is Ok ==> e.computable(),
    decreases e,
{
    match e {
        Expr::Literal(_) => {},
        Expr::Group(inner) => {
            lemma_result_is_value(*inner);
        },
        Expr::Negate(operand) => {
            lemma_result_is_value(*operand);
        },
        Expr::Binary(left, _, right) => {
            lemma_result_is_value(*left);
            lemma_result_is_value(*right);
        },
    }
}

/// The pending operators of a well-formed tree all bind at level 1 or
/// more; those of a chain at level 2.
proof fn lemma_yields(e: Expr)
    requires
        e.sum(),
    ensures
        e.yields(0),
        e.yields(1),
        e.chain() ==> e.yields(2),
    decreases e,
{
    match e {
        Expr::Negate(operand) => {
            lemma_shapes_nest(*operand);
            lemma_yields(*operand);
        },
        Expr::Binary(_, op, right) => {
            lemma_shapes_nest(*right);
            lemma_yields(*right);
        },
        _ => {},
    }
}

/// Whether an operator is due depends on the operator stack alone.
proof fn lemma_due_ignores_operands(a: Stacks, b: Stacks, level: nat)
    requires
        a.operators == b.operators,
    ensures
        a.due(level) == b.due(level),
{
}

/// One step of a collapse: where the right operand's pending part comes to
/// its result, the operator below it is applied next.
proof fn lemma_collapse_one(
    base: Stacks,
    left: i32,
    op: char,
    right: Stacks,
    right_result: Result<i32, EvalError>,
    level: nat,
)
    requires
        level <= binding(op),
        operator(op),
        above(pushed(base, left, op), right).reduce(level) == resumed(
            pushed(base, left, op),
            right_result,
            level,
        ),
    ensures
        above(base, stacks(seq![left] + right.operands, seq![op] + right.operators)).reduce(level)
            == resumed(
            base,
            match right_result {
                Ok(b) => compute(op, left, b),
                Err(e) => Err(e),
            },
            level,
        ),
{
    let lower = pushed(base, left, op);
    let from = above(base, stacks(seq![left] + right.operands, seq![op] + right.operators));
    let via = above(lower, right);
    assert(from.operands =~= via.operands);
    assert(from.operators =~= via.operators);
    if let Ok(b) = right_result {
        let ready = stacks(lower.operands.push(b), lower.operators);
        assert(ready.due(level));
        let n = ready.operands.len() as int;
        assert(ready.operands[n - 2] == left);
        assert(ready.operands[n - 1] == b);
        assert(ready.operands.take(n - 2) =~= base.operands);
        assert(ready.operators.drop_last() =~= base.operators);
        if let Ok(v) = compute(op, left, b) {
            let target = stacks(base.operands.push(v), base.operators);
            assert(ready.apply() == Ok::<Stacks, EvalError>(target));
        }
    }
}

/// Reducing what a tree has left pending brings the tree to its result,
/// after which the reduction goes on below.
proof fn lemma_collapse(e: Expr, level: nat, base: Stacks)
    requires
        e.ready(),
        e.yields(level),
    ensures
        above(base, e.pending()).reduce(level) == resumed(base, e.result(), level),
    decreases e,
{
    let from = above(base, e.pending());
    match e {
        Expr::Literal(n) => {
            let target = stacks(base.operands.push(n as i32), base.operators);
            assert(from.operands =~= target.operands);
            assert(from.operators =~= target.operators);
        },
        Expr::Group(inner) => {
            let target = stacks(base.operands.push(inner.result()->Ok_0), base.operators);
            assert(from.operands =~= target.operands);
            assert(from.operators =~= target.operators);
        },
        Expr::Negate(operand) => {
            lemma_collapse(*operand, level, pushed(base, 0, '-'));
            lemma_collapse_one(base, 0, '-', operand.pending(), operand.result(), level);
        },
        Expr::Binary(left, op, right) => {
            let a = left.result()->Ok_0;
            lemma_collapse(*right, level, pushed(base, a, op));
            lemma_collapse_one(base, a, op, right.pending(), right.result(), level);
        },
    }
}

/// What running on means after the tokens of a tree: from the state with
/// the tree's pending part on top where the tree is ready, and not at all
/// where it is not.
spec fn carried(e: Expr, m: Machine, rest: Seq<Token>) -> Result<Machine, EvalError> {
    if e.ready() {
        (Machine { stacks: above(m.stacks, e.pending()), expect_operand: false }).run(rest)
    } else {
        Err(e.result()->Err_0)
    }
}

/// The machine after the tokens of a tree, wherever the tree stands in an
/// expression: the tree's pending part lies on top of the stacks and an
/// operator is expected, or the run has ended in the tree's failure.
proof fn lemma_run(e: Expr, m: Machine, rest: Seq<Token>)
    requires
        e.sum(),
        m.expect_operand,
        e.welcome(m.stacks.operators),
    ensures
        m.run(e.tokens() + rest) == carried(e, m, rest),
        !e.ready() ==> e.result() is Err,
    decreases e, 1nat,
{
    let all = e.tokens() + rest;
    let after = Machine { stacks: above(m.stacks, e.pending()), expect_operand: false };
    match e {
        Expr::Literal(n) => {
            assert(all[0] == Token::Number(n));
            assert(all.skip(1) =~= rest);
            if n <= i32::MAX {
                let next = m.step(all[0])->Ok_0;
                assert(next.stacks.operands =~= after.stacks.operands);
                assert(next.stacks.operators =~= after.stacks.operators);
            }
        },
        Expr::Group(_) => {
            lemma_run_group(e, m, rest);
        },
        Expr::Negate(operand) => {
            assert(all[0] == Token::Operator('-'));
            assert(all.skip(1) =~= operand.tokens() + rest);
            let signed = Machine { stacks: pushed(m.stacks, 0, '-'), expect_operand: true };
            assert(m.step(all[0]) == Ok::<Machine, EvalError>(signed));
            lemma_shapes_nest(*operand);
            lemma_run(*operand, signed, rest);
            if operand.ready() {
                let last = above(signed.stacks, operand.pending());
                assert(last.operands =~= after.stacks.operands);
                assert(last.operators =~= after.stacks.operators);
            }
        },
        Expr::Binary(_, _, _) => {
            lemma_run_binary(e, m, rest);
        },
    }
}

/// The case of `lemma_run` for a tree in parentheses.
proof fn lemma_run_group(e: Expr, m: Machine, rest: Seq<Token>)
    requires
        e is Group,
        e.sum(),
        m.expect_operand,
    ensures
        m.run(e.tokens() + rest) == carried(e, m, rest),
        !e.ready() ==> e.result() is Err,
    decreases e, 0nat,
{
    let all = e.tokens() + rest;
    let after = Machine { stacks: above(m.stacks, e.pending()), expect_operand: false };
    match e {
        Expr::Group(inner) => {
            let closing = seq![Token::Close] + rest;
            assert(all[0] == Token::Open);
            assert(all.skip(1) =~= inner.tokens() + closing);
            let opened = Machine {
                stacks: stacks(m.stacks.operands, m.stacks.operators.push('(')),
                expect_operand: true,
            };
            assert(m.step(all[0]) == Ok::<Machine, EvalError>(opened));
            lemma_run(*inner, opened, closing);
            if inner.ready() {
                let inside = Machine {
                    stacks: above(opened.stacks, inner.pending()),
                    expect_operand: false,
                };
                assert(closing[0] == Token::Close);
                assert(closing.skip(1) =~= rest);
                lemma_yields(*inner);
                lemma_collapse(*inner, 0, opened.stacks);
                if let Ok(v) = inner.result() {
                    let reduced = stacks(opened.stacks.operands.push(v), opened.stacks.operators);
                    assert(!reduced.due(0));
                    assert(inside.stacks.reduce(0) == Ok::<Stacks, EvalError>(reduced));
                    let closed = inside.step(Token::Close)->Ok_0;
                    assert(closed.stacks.operands =~= after.stacks.operands);
                    assert(closed.stacks.operators =~= after.stacks.operators);
                }
            }
        },
        _ => {},
    }
}

/// The case of `lemma_run` for two operands with an operator between them.
proof fn lemma_run_binary(e: Expr, m: Machine, rest: Seq<Token>)
    requires
        e is Binary,
        e.sum(),
        m.expect_operand,
        e.welcome(m.stacks.operators),
    ensures
        m.run(e.tokens() + rest) == carried(e, m, rest),
        !e.ready() ==> e.result() is Err,
    decreases e, 0nat,
{
    let all = e.tokens() + rest;
    let after = Machine { stacks: above(m.stacks, e.pending()), expect_operand: false };
    match e {
        Expr::Binary(left, op, right) => {
            let tail = seq![Token::Operator(op)] + (right.tokens() + rest);
            assert(all =~= left.tokens() + tail);
            lemma_shapes_nest(*left);
            lemma_shapes_nest(*right);
            lemma_yields(*left);
            lemma_run(*left, m, tail);
            if left.ready() {
                let middle = Machine {
                    stacks: above(m.stacks, left.pending()),
                    expect_operand: false,
                };
                assert(tail[0] == Token::Operator(op));
                assert(tail.skip(1) =~= right.tokens() + rest);
                lemma_collapse(*left, binding(op), m.stacks);
                if let Ok(a) = left.result() {
                    let reduced = stacks(m.stacks.operands.push(a), m.stacks.operators);
                    lemma_due_ignores_operands(
                        reduced,
                        stacks(Seq::empty(), m.stacks.operators),
                        binding(op),
                    );
                    assert(!reduced.due(binding(op)));
                    assert(middle.stacks.reduce(binding(op)) == Ok::<Stacks, EvalError>(reduced));
                    let joined = Machine { stacks: pushed(m.stacks, a, op), expect_operand: true };
                    assert(middle.step(tail[0]) == Ok::<Machine, EvalError>(joined));
                    assert(joined.stacks.operators.last() == op);
                    lemma_run(*right, joined, rest);
                    if right.ready() {
                        let last = above(joined.stacks, right.pending());
                        assert(last.operands =~= after.stacks.operands);
                        assert(last.operators =~= after.stacks.operators);
                    }
                }
            }
        },
        _ => {},
    }
}

/// The evaluator computes what the tree says. Where the tokens of `s`
/// write down a tree of the expression grammar, evaluating `s` gives what
/// computing the tree gives: its value, or its first failure.
pub proof fn law_evaluation_follows_the_tree(e: Expr, s: Seq<char>)
    requires
        e.sum(),
        tokens(s) == e.tokens(),
    ensures
        evaluation(s) == e.result(),
{
    let none = Seq::<Token>::empty();
    let start = Machine::start();
    assert(e.tokens() + none =~= e.tokens());
    lemma_run(e, start, none);
    if e.ready() {
        let last = Machine { stacks: above(start.stacks, e.pending()), expect_operand: false };
        assert(start.run(tokens(s)) == Ok::<Machine, EvalError>(last));
        lemma_yields(e);
        lemma_collapse(e, 0, start.stacks);
        if let Ok(v) = e.result() {
            let reduced = stacks(start.stacks.operands.push(v), start.stacks.operators);
            assert(!reduced.due(0));
            assert(last.stacks.reduce(0) == Ok::<Stacks, EvalError>(reduced));
        }
    }
}

/// The evaluator is right about every well-formed expression. Where the
/// tokens of `s` write down a tree of the expression grammar, and the
/// tree can be computed in `i32`, evaluating `s` gives the tree's value:
/// `*` and `/` bind tighter than `+` and `-`, operators of one level group
/// from the left, and division truncates toward zero.
pub proof fn law_evaluation_is_value(e: Expr, s: Seq<char>)
    requires
        e.sum(),
        e.computable(),
        tokens(s) == e.tokens(),
    ensures
        fits(e.value()),
        evaluation(s) == Ok::<i32, EvalError>(e.value() as i32),
{
    lemma_result_is_value(e);
    law_evaluation_follows_the_tree(e, s);
}

/// A well-formed expression that cannot be computed in `i32` has no value:
/// its evaluation fails.
pub proof fn law_uncomputable_fails(e: Expr, s: Seq<char>)
    requires
        e.sum(),
        !e.computable(),
        tokens(s) == e.tokens(),
    ensures
        evaluation(s) is Err,
        evaluation(s) == e.result(),
{
    lemma_result_is_value(e);
    law_evaluation_follows_the_tree(e, s);
}

} // verus!
