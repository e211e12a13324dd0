//! What precedence climbing makes of a chain of operands and operators.
//!
//! Variables joined by binary operators, all with a precedence of zero or
//! more, always parse, whatever the precedences. Read from left to right,
//! the tree that comes out spells the chain again, and every operator in it
//! stands above a left operand whose operators bind at least as tightly as
//! it does and above a right operand whose operators bind tighter. So of two
//! neighbouring operators the tighter one takes the operand between them,
//! and of two equals the left one.

use crate::error::ParseError;
use crate::grammar::{binary, expr, precedence_of, unary, ExprView};
use crate::laws::{chain_tokens, lemma_chain_operand, lemma_chain_tokens};
use crate::lexer::TokenView;
use vstd::prelude::*;

verus! {

/// The tokens that a tree of variables and binary operators spells, read
/// from left to right.
pub open spec fn in_order(tree: ExprView) -> Seq<TokenView>
    decreases tree,
{
    match tree {
        ExprView::Variable(name) => seq![TokenView::Ident(name)],
        ExprView::Binary { op, left, right } => in_order(*left) + seq![TokenView::Op(op)]
            + in_order(*right),
        _ => Seq::empty(),
    }
}

/// Whether every binary operator in `tree` has a precedence of at least
/// `bound`.
pub open spec fn binds_at_least(tree: ExprView, table: Map<u32, i32>, bound: int) -> bool
    decreases tree,
{
    match tree {
        ExprView::Binary { op, left, right } => {
            &&& precedence_of(table, op) >= bound
            &&& binds_at_least(*left, table, bound)
            &&& binds_at_least(*right, table, bound)
        },
        _ => true,
    }
}

/// Whether `tree` is grouped by precedence: every binary operator in it has
/// a left operand whose operators bind at least as tightly as it does, and a
/// right operand whose operators bind tighter.
pub open spec fn grouped_by_precedence(tree: ExprView, table: Map<u32, i32>) -> bool
    decreases tree,
{
    match tree {
        ExprView::Binary { op, left, right } => {
            &&& grouped_by_precedence(*left, table)
            &&& grouped_by_precedence(*right, table)
            &&& binds_at_least(*left, table, precedence_of(table, op))
            &&& binds_at_least(*right, table, precedence_of(table, op) + 1)
        },
        _ => true,
    }
}

/// Operators that bind at least as tightly as `bound` bind at least as
/// tightly as anything below it.
pub proof fn lemma_binds_at_least_lower(
    tree: ExprView,
    table: Map<u32, i32>,
    bound: int,
    lower: int,
)
    requires
        binds_at_least(tree, table, bound),
        lower <= bound,
    ensures
        binds_at_least(tree, table, lower),
    decreases tree,
{
    if let ExprView::Binary { op, left, right } = tree {
        lemma_binds_at_least_lower(*left, table, bound, lower);
        lemma_binds_at_least_lower(*right, table, bound, lower);
    }
}

/// The part of a chain from its operand `from` through its operand `to`.
pub open spec fn chain_part(
    operands: Seq<Seq<char>>,
    ops: Seq<char>,
    from: nat,
    to: nat,
) -> Seq<TokenView> {
    chain_tokens(operands, ops).subrange(2 * from as int, 2 * to as int + 1)
}

/// Whether every operator of `ops` has a precedence of zero or more.
pub open spec fn all_bind(ops: Seq<char>, table: Map<u32, i32>) -> bool {
    forall|i: int| 0 <= i < ops.len() ==> precedence_of(table, #[trigger] ops[i]) >= 0
}

/// What `binary` gives behind the operand `at` of a chain, when `left` is a
/// tree over the operands `from` through `at`: a tree `found`, ending after
/// the operand `upto`.
pub open spec fn climbed(
    operands: Seq<Seq<char>>,
    ops: Seq<char>,
    table: Map<u32, i32>,
    min_prec: int,
    left: ExprView,
    from: nat,
    at: nat,
    found: ExprView,
    upto: nat,
) -> bool {
    &&& binary(chain_tokens(operands, ops), table, min_prec, left, 2 * at + 1) == Ok::<
        (ExprView, nat),
        ParseError,
    >((found, 2 * upto + 1))
    &&& at <= upto <= ops.len()
    &&& in_order(found) == chain_part(operands, ops, from, upto)
    &&& grouped_by_precedence(found, table)
    &&& binds_at_least(found, table, min_prec)
    &&& upto < ops.len() ==> precedence_of(table, ops[upto as int]) < min_prec
}

/// Climbing from the operand `at` of a chain takes in every operator up to
/// the first that binds less tightly than `min_prec`, and gives a tree that
/// spells the part taken in and is grouped by precedence.
pub proof fn lemma_climb(
    operands: Seq<Seq<char>>,
    ops: Seq<char>,
    table: Map<u32, i32>,
    min_prec: int,
    left: ExprView,
    from: nat,
    at: nat,
) -> (result: (ExprView, nat))
    requires
        operands.len() == ops.len() + 1,
        all_bind(ops, table),
        0 <= min_prec,
        from <= at <= ops.len(),
        in_order(left) == chain_part(operands, ops, from, at),
        grouped_by_precedence(left, table),
        binds_at_least(left, table, min_prec),
        at < ops.len() ==> binds_at_least(left, table, precedence_of(table, ops[at as int])),
    ensures
        climbed(operands, ops, table, min_prec, left, from, at, result.0, result.1),
    decreases ops.len() - at,
{
    reveal(binary);
    reveal(unary);
    lemma_chain_tokens(operands, ops, at);
    lemma_chain_operand(operands, ops, table, at);
    if at < ops.len() && precedence_of(table, ops[at as int]) >= min_prec {
        let op = ops[at as int];
        let current = precedence_of(table, op);
        let operand = ExprView::Variable(operands[at as int + 1]);
        lemma_chain_tokens(operands, ops, at + 1);
        lemma_chain_operand(operands, ops, table, at + 1);
        assert(in_order(operand) =~= chain_part(operands, ops, at + 1, at + 1));
        let (right, mid) = if at + 1 < ops.len() && current < precedence_of(
            table,
            ops[at as int + 1],
        ) {
            lemma_climb(operands, ops, table, current + 1, operand, at + 1, at + 1)
        } else {
            (operand, (at + 1) as nat)
        };
        // The operator at hand takes `left` and `right`; the operator after
        // them, if there is one, binds no tighter than it does.
        let joined = ExprView::Binary { op, left: Box::new(left), right: Box::new(right) };
        assert(in_order(joined) =~= chain_part(operands, ops, from, mid));
        assert(grouped_by_precedence(right, table));
        lemma_binds_at_least_lower(right, table, current + 1, min_prec);
        if mid < ops.len() {
            let next = precedence_of(table, ops[mid as int]);
            lemma_binds_at_least_lower(left, table, current, next);
            lemma_binds_at_least_lower(right, table, current + 1, next);
        }
        lemma_climb(operands, ops, table, min_prec, joined, from, mid)
    } else {
        (left, at)
    }
}

/// A chain of variables and binary operators, all with a precedence of zero
/// or more, parses to a tree that spells the chain from left to right and is
/// grouped by precedence.
pub proof fn law_precedence_climbing(
    operands: Seq<Seq<char>>,
    ops: Seq<char>,
    table: Map<u32, i32>,
) -> (tree: ExprView)
    requires
        operands.len() == ops.len() + 1,
        all_bind(ops, table),
    ensures
        expr(chain_tokens(operands, ops), table, 0) == Ok::<(ExprView, nat), ParseError>(
            (tree, 2 * ops.len() + 1),
        ),
        in_order(tree) == chain_tokens(operands, ops),
        grouped_by_precedence(tree, table),
{
    reveal(expr);
    reveal(unary);
    reveal(binary);
    let first = ExprView::Variable(operands[0]);
    lemma_chain_tokens(operands, ops, 0);
    lemma_chain_operand(operands, ops, table, 0);
    assert(in_order(first) =~= chain_part(operands, ops, 0, 0));
    let (tree, upto) = lemma_climb(operands, ops, table, 0, first, 0, 0);
    tree
}

} // verus!
