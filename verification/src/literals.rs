//! The number literals of a parsed tree.
//!
//! A parse makes no number literal of its own: where every number token is
//! well formed, so is every number literal in the tree that comes out. The
//! user who converts the literals of such a tree meets no malformed text.

use crate::grammar::{
    arguments, binary, binding, bindings, branch, conditional, expr, for_loop, identifier,
    initializer, loop_header, loop_range, loop_step, loop_tail, paren, precedence_at, primary,
    prototype, table_after_prototype, token_at, top_level, unary, var_in, ExprView,
};
use crate::lexer::{all_well_formed, TokenView};
use crate::number::is_float_literal;
use crate::progress::{
    lemma_binary_progress, lemma_binding_progress, lemma_bindings_progress, lemma_branch_progress,
    lemma_expr_progress, lemma_for_loop_progress, lemma_loop_range_progress,
    lemma_loop_step_progress, lemma_prototype_progress, lemma_unary_progress,
};
use vstd::prelude::*;

verus! {

/// Whether every number literal in `tree` is well formed.
pub open spec fn literals_well_formed(tree: ExprView) -> bool
    decreases tree,
{
    match tree {
        ExprView::Binary { left, right, .. } => {
            &&& literals_well_formed(*left)
            &&& literals_well_formed(*right)
        },
        ExprView::Call { args, .. } => forall|i: int|
            0 <= i < args.len() ==> literals_well_formed(#[trigger] args[i]),
        ExprView::Conditional { cond, consequence, alternative } => {
            &&& literals_well_formed(*cond)
            &&& literals_well_formed(*consequence)
            &&& literals_well_formed(*alternative)
        },
        ExprView::For { start, end, step, body, .. } => {
            &&& literals_well_formed(*start)
            &&& literals_well_formed(*end)
            &&& step matches Some(s) ==> literals_well_formed(*s)
            &&& literals_well_formed(*body)
        },
        ExprView::Number(text) => is_float_literal(text),
        ExprView::Variable(_) => true,
        ExprView::VarIn { variables, body } => {
            &&& forall|i: int|
                0 <= i < variables.len() ==> ((#[trigger] variables[i]).1 matches Some(value)
                    ==> literals_well_formed(value))
            &&& literals_well_formed(*body)
        },
    }
}

/// Whether every number literal in every tree of `trees` is well formed.
pub open spec fn all_literals_well_formed(trees: Seq<ExprView>) -> bool {
    forall|i: int| 0 <= i < trees.len() ==> literals_well_formed(#[trigger] trees[i])
}

/// Whether every number literal in every initial value of `variables` is
/// well formed.
pub open spec fn binding_literals_well_formed(
    variables: Seq<(Seq<char>, Option<ExprView>)>,
) -> bool {
    forall|i: int|
        0 <= i < variables.len() ==> ((#[trigger] variables[i]).1 matches Some(value)
            ==> literals_well_formed(value))
}

/// An expression over well-formed tokens has well-formed literals.
pub proof fn lemma_expr_literals(tokens: Seq<TokenView>, table: Map<u32, i32>, pos: nat)
    requires
        all_well_formed(tokens),
    ensures
        expr(tokens, table, pos) matches Ok((tree, _)) ==> literals_well_formed(tree),
    decreases tokens.len() - pos, 3int,
{
    reveal(expr);
    reveal(unary);
    reveal(binary);
    lemma_unary_literals(tokens, table, pos);
    lemma_unary_progress(tokens, table, pos);
    if let Ok((left, p)) = unary(tokens, table, pos) {
        lemma_binary_literals(tokens, table, 0, left, p);
    }
}

/// A unary expression over well-formed tokens has well-formed literals.
pub proof fn lemma_unary_literals(tokens: Seq<TokenView>, table: Map<u32, i32>, pos: nat)
    requires
        all_well_formed(tokens),
    ensures
        unary(tokens, table, pos) matches Ok((tree, _)) ==> literals_well_formed(tree),
    decreases tokens.len() - pos, 2int,
{
    reveal(unary);
    reveal(primary);
    match token_at(tokens, pos) {
        None => {},
        Some(TokenView::Op(_)) => {
            if pos + 1 < tokens.len() {
                lemma_unary_literals(tokens, table, pos + 1);
            }
        },
        Some(_) => {
            lemma_primary_literals(tokens, table, pos);
        },
    }
}

/// A chain of binary operators over well-formed tokens, behind a left
/// operand with well-formed literals, has well-formed literals.
pub proof fn lemma_binary_literals(
    tokens: Seq<TokenView>,
    table: Map<u32, i32>,
    min_prec: int,
    left: ExprView,
    pos: nat,
)
    requires
        all_well_formed(tokens),
        literals_well_formed(left),
        pos <= tokens.len(),
    ensures
        binary(tokens, table, min_prec, left, pos) matches Ok((tree, _)) ==> literals_well_formed(
            tree,
        ),
    decreases tokens.len() - pos, 0int,
{
    reveal(binary);
    reveal(unary);
    let current = precedence_at(tokens, table, pos);
    if !(current < min_prec || pos >= tokens.len()) {
        if let Some(TokenView::Op(op)) = token_at(tokens, pos) {
            if pos + 1 < tokens.len() {
                lemma_unary_literals(tokens, table, pos + 1);
                lemma_unary_progress(tokens, table, pos + 1);
                if let Ok((operand, p)) = unary(tokens, table, pos + 1) {
                    let right = if current < precedence_at(tokens, table, p) {
                        binary(tokens, table, current + 1, operand, p)
                    } else {
                        Ok((operand, p))
                    };
                    if current < precedence_at(tokens, table, p) {
                        lemma_binary_literals(tokens, table, current + 1, operand, p);
                        lemma_binary_progress(tokens, table, current + 1, operand, p);
                    }
                    if let Ok((right, q)) = right {
                        lemma_binary_literals(
                            tokens,
                            table,
                            min_prec,
                            ExprView::Binary { op, left: Box::new(left), right: Box::new(right) },
                            q,
                        );
                    }
                }
            }
        }
    }
}

/// A primary expression over well-formed tokens has well-formed literals.
pub proof fn lemma_primary_literals(tokens: Seq<TokenView>, table: Map<u32, i32>, pos: nat)
    requires
        all_well_formed(tokens),
    ensures
        primary(tokens, table, pos) matches Ok((tree, _)) ==> literals_well_formed(tree),
    decreases tokens.len() - pos, 1int,
{
    reveal(primary);
    reveal(identifier);
    reveal(paren);
    reveal(conditional);
    reveal(for_loop);
    reveal(var_in);
    match token_at(tokens, pos) {
        Some(TokenView::Ident(_)) => lemma_identifier_literals(tokens, table, pos),
        Some(TokenView::Number(_)) => {
        },
        Some(TokenView::LParen) => lemma_paren_literals(tokens, table, pos),
        Some(TokenView::If) => lemma_conditional_literals(tokens, table, pos),
        Some(TokenView::For) => lemma_for_loop_literals(tokens, table, pos),
        Some(TokenView::Var) => lemma_var_in_literals(tokens, table, pos),
        _ => {},
    }
}

/// A variable or call over well-formed tokens has well-formed literals.
pub proof fn lemma_identifier_literals(tokens: Seq<TokenView>, table: Map<u32, i32>, pos: nat)
    requires
        all_well_formed(tokens),
    ensures
        identifier(tokens, table, pos) matches Ok((tree, _)) ==> literals_well_formed(tree),
    decreases tokens.len() - pos, 0int,
{
    reveal(identifier);
    reveal(arguments);
    if token_at(tokens, pos) is Some && token_at(tokens, pos + 1) == Some(TokenView::LParen)
        && pos + 2 < tokens.len() {
        lemma_arguments_literals(tokens, table, pos + 2, Seq::empty());
    }
}

/// An argument list over well-formed tokens, behind arguments with
/// well-formed literals, has well-formed literals.
pub proof fn lemma_arguments_literals(
    tokens: Seq<TokenView>,
    table: Map<u32, i32>,
    pos: nat,
    done: Seq<ExprView>,
)
    requires
        all_well_formed(tokens),
        all_literals_well_formed(done),
    ensures
        arguments(tokens, table, pos, done) matches Ok((args, _)) ==> all_literals_well_formed(
            args,
        ),
    decreases tokens.len() - pos, 4int,
{
    reveal(arguments);
    reveal(expr);
    lemma_expr_literals(tokens, table, pos);
    lemma_expr_progress(tokens, table, pos);
    if let Ok((arg, p)) = expr(tokens, table, pos) {
        let more = done.push(arg);
        assert forall|i: int| 0 <= i < more.len() implies literals_well_formed(
            #[trigger] more[i],
        ) by {
            if i < done.len() {
            }
        }
        if token_at(tokens, p) == Some(TokenView::Comma) && p + 1 < tokens.len() {
            lemma_arguments_literals(tokens, table, p + 1, more);
        }
    }
}

/// A parenthesized expression over well-formed tokens has well-formed
/// literals.
pub proof fn lemma_paren_literals(tokens: Seq<TokenView>, table: Map<u32, i32>, pos: nat)
    requires
        all_well_formed(tokens),
    ensures
        paren(tokens, table, pos) matches Ok((tree, _)) ==> literals_well_formed(tree),
    decreases tokens.len() - pos, 0int,
{
    reveal(paren);
    reveal(expr);
    if pos + 1 < tokens.len() {
        lemma_expr_literals(tokens, table, pos + 1);
    }
}

/// A branch of a conditional over well-formed tokens has well-formed
/// literals.
pub proof fn lemma_branch_literals(
    tokens: Seq<TokenView>,
    table: Map<u32, i32>,
    pos: nat,
    first: bool,
)
    requires
        all_well_formed(tokens),
    ensures
        branch(tokens, table, pos, first) matches Ok((tree, _)) ==> literals_well_formed(tree),
    decreases tokens.len() - pos, 4int,
{
    reveal(branch);
    reveal(expr);
    if pos + 1 < tokens.len() {
        lemma_expr_literals(tokens, table, pos + 1);
    }
}

/// A conditional over well-formed tokens has well-formed literals.
pub proof fn lemma_conditional_literals(tokens: Seq<TokenView>, table: Map<u32, i32>, pos: nat)
    requires
        all_well_formed(tokens),
    ensures
        conditional(tokens, table, pos) matches Ok((tree, _)) ==> literals_well_formed(tree),
    decreases tokens.len() - pos, 0int,
{
    reveal(conditional);
    reveal(branch);
    reveal(expr);
    if pos + 1 < tokens.len() {
        lemma_expr_literals(tokens, table, pos + 1);
        lemma_expr_progress(tokens, table, pos + 1);
        if let Ok((_, p)) = expr(tokens, table, pos + 1) {
            lemma_branch_literals(tokens, table, p, true);
            lemma_branch_progress(tokens, table, p, true);
            if let Ok((_, q)) = branch(tokens, table, p, true) {
                lemma_branch_literals(tokens, table, q, false);
            }
        }
    }
}

/// The step of a loop over well-formed tokens has well-formed literals.
pub proof fn lemma_loop_step_literals(tokens: Seq<TokenView>, table: Map<u32, i32>, pos: nat)
    requires
        all_well_formed(tokens),
    ensures
        loop_step(tokens, table, pos) matches Ok((Some(step), _)) ==> literals_well_formed(*step),
    decreases tokens.len() - pos, 4int,
{
    reveal(loop_step);
    reveal(expr);
    if pos + 1 < tokens.len() {
        lemma_expr_literals(tokens, table, pos + 1);
    }
}

/// The range of a loop over well-formed tokens has well-formed literals.
pub proof fn lemma_loop_range_literals(tokens: Seq<TokenView>, table: Map<u32, i32>, pos: nat)
    requires
        all_well_formed(tokens),
    ensures
        loop_range(tokens, table, pos) matches Ok(((start, end), _)) ==> literals_well_formed(
            start,
        ) && literals_well_formed(end),
    decreases tokens.len() - pos, 4int,
{
    reveal(loop_range);
    reveal(expr);
    lemma_expr_literals(tokens, table, pos);
    lemma_expr_progress(tokens, table, pos);
    if let Ok((_, p)) = expr(tokens, table, pos) {
        if p + 1 < tokens.len() {
            lemma_expr_literals(tokens, table, p + 1);
        }
    }
}

/// The rest of a loop over well-formed tokens has well-formed literals.
pub proof fn lemma_loop_tail_literals(tokens: Seq<TokenView>, table: Map<u32, i32>, pos: nat)
    requires
        all_well_formed(tokens),
        pos <= tokens.len(),
    ensures
        loop_tail(tokens, table, pos) matches Ok(((step, body), _)) ==> literals_well_formed(body)
            && (step matches Some(s) ==> literals_well_formed(*s)),
    decreases tokens.len() - pos, 5int,
{
    reveal(loop_tail);
    reveal(loop_step);
    reveal(expr);
    lemma_loop_step_literals(tokens, table, pos);
    lemma_loop_step_progress(tokens, table, pos);
    if let Ok((_, p)) = loop_step(tokens, table, pos) {
        if p + 1 < tokens.len() {
            lemma_expr_literals(tokens, table, p + 1);
        }
    }
}

/// A loop over well-formed tokens has well-formed literals.
pub proof fn lemma_for_loop_literals(tokens: Seq<TokenView>, table: Map<u32, i32>, pos: nat)
    requires
        all_well_formed(tokens),
    ensures
        for_loop(tokens, table, pos) matches Ok((tree, _)) ==> literals_well_formed(tree),
    decreases tokens.len() - pos, 0int,
{
    reveal(for_loop);
    reveal(loop_header);
    reveal(loop_range);
    reveal(loop_tail);
    lemma_for_loop_progress(tokens, table, pos);
    if let Ok((_, p)) = loop_header(tokens, pos) {
        lemma_loop_range_literals(tokens, table, p);
        lemma_loop_range_progress(tokens, table, p);
        if let Ok((_, q)) = loop_range(tokens, table, p) {
            lemma_loop_tail_literals(tokens, table, q);
        }
    }
}

/// The initial value of a binding over well-formed tokens has well-formed
/// literals.
pub proof fn lemma_initializer_literals(tokens: Seq<TokenView>, table: Map<u32, i32>, pos: nat)
    requires
        all_well_formed(tokens),
    ensures
        initializer(tokens, table, pos) matches Ok((Some(value), _)) ==> literals_well_formed(
            value,
        ),
    decreases tokens.len() - pos, 4int,
{
    reveal(initializer);
    reveal(expr);
    if pos + 1 < tokens.len() {
        lemma_expr_literals(tokens, table, pos + 1);
    }
}

/// A binding over well-formed tokens has well-formed literals.
pub proof fn lemma_binding_literals(tokens: Seq<TokenView>, table: Map<u32, i32>, pos: nat)
    requires
        all_well_formed(tokens),
    ensures
        binding(tokens, table, pos) matches Ok(((_, Some(value)), _)) ==> literals_well_formed(
            value,
        ),
    decreases tokens.len() - pos, 4int,
{
    reveal(binding);
    reveal(initializer);
    if pos + 1 < tokens.len() {
        lemma_initializer_literals(tokens, table, pos + 1);
    }
}

/// A list of bindings over well-formed tokens, behind bindings with
/// well-formed literals, has well-formed literals.
pub proof fn lemma_bindings_literals(
    tokens: Seq<TokenView>,
    table: Map<u32, i32>,
    pos: nat,
    done: Seq<(Seq<char>, Option<ExprView>)>,
)
    requires
        all_well_formed(tokens),
        binding_literals_well_formed(done),
    ensures
        bindings(tokens, table, pos, done) matches Ok((variables, _))
            ==> binding_literals_well_formed(variables),
    decreases tokens.len() - pos, 5int,
{
    reveal(bindings);
    reveal(binding);
    lemma_binding_literals(tokens, table, pos);
    lemma_binding_progress(tokens, table, pos);
    if let Ok((bound, p)) = binding(tokens, table, pos) {
        let more = done.push(bound);
        assert forall|i: int| 0 <= i < more.len() implies ((#[trigger] more[i]).1 matches Some(
            v,
        ) ==> literals_well_formed(v)) by {
            if i < done.len() {
                assert(more[i] == done[i]);
            }
        }
        if token_at(tokens, p) == Some(TokenView::Comma) && p + 1 < tokens.len() {
            lemma_bindings_literals(tokens, table, p + 1, more);
        }
    }
}

/// Local bindings over well-formed tokens have well-formed literals.
pub proof fn lemma_var_in_literals(tokens: Seq<TokenView>, table: Map<u32, i32>, pos: nat)
    requires
        all_well_formed(tokens),
    ensures
        var_in(tokens, table, pos) matches Ok((tree, _)) ==> literals_well_formed(tree),
    decreases tokens.len() - pos, 0int,
{
    reveal(var_in);
    reveal(bindings);
    reveal(expr);
    if pos + 1 < tokens.len() {
        lemma_bindings_literals(tokens, table, pos + 1, Seq::empty());
        lemma_bindings_progress(tokens, table, pos + 1, Seq::empty());
        if let Ok((_, p)) = bindings(tokens, table, pos + 1, Seq::empty()) {
            lemma_expr_literals(tokens, table, p);
        }
    }
}

/// Where every number token is well formed, so is every number literal in
/// the body of the item that a parse gives.
pub proof fn law_literals_of_a_parse(tokens: Seq<TokenView>, table: Map<u32, i32>, pos: nat)
    requires
        all_well_formed(tokens),
    ensures
        top_level(tokens, table, pos).result matches Ok(item) ==> (item.body matches Some(body)
            ==> literals_well_formed(body)),
{
    reveal(top_level);
    reveal(prototype);
    reveal(expr);
    lemma_expr_literals(tokens, table, pos);
    lemma_prototype_progress(tokens, pos + 1);
    if let Ok((_, p)) = prototype(tokens, pos + 1) {
        lemma_expr_literals(tokens, table_after_prototype(tokens, table, pos + 1), p);
    }
}

} // verus!
