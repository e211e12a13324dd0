//! Which errors a parse can end in.
//!
//! Four kinds of error belong to productions that the grammar enters only on
//! the token they ask for, or with a precedence that no missing operator can
//! reach. A parse never ends in one of them.

use crate::error::ParseError;
use crate::grammar::{
    arguments, binary, binding, bindings, branch, conditional, expr, for_loop, identifier,
    initializer, loop_header, loop_range, loop_step, loop_tail, parameters, paren, precedence_at,
    primary, prototype, prototype_head, table_after_prototype, token_at, top_level, unary, var_in,
    ExprView,
};
use crate::lexer::TokenView;
use crate::progress::{
    lemma_binary_progress, lemma_binding_progress, lemma_bindings_progress, lemma_branch_progress,
    lemma_expr_progress, lemma_for_loop_progress, lemma_loop_range_progress,
    lemma_loop_step_progress, lemma_prototype_progress, lemma_unary_progress,
};
use vstd::prelude::*;

verus! {

/// Whether a parse can end in `error`: every kind but those for a missing
/// number, a missing opening parenthesis, a missing identifier, and a token
/// that is no operator.
pub open spec fn may_occur(error: ParseError) -> bool {
    &&& error != ParseError::ExpectedNumber
    &&& error != ParseError::ExpectedOpeningParen
    &&& error != ParseError::ExpectedIdentifier
    &&& error != ParseError::InvalidOperator
}

/// An expression fails only with an error that may occur.
pub proof fn lemma_expr_errors(tokens: Seq<TokenView>, table: Map<u32, i32>, pos: nat)
    ensures
        expr(tokens, table, pos) matches Err(e) ==> may_occur(e),
    decreases tokens.len() - pos, 3int,
{
    reveal(expr);
    reveal(unary);
    reveal(binary);
    lemma_unary_errors(tokens, table, pos);
    lemma_unary_progress(tokens, table, pos);
    if let Ok((left, p)) = unary(tokens, table, pos) {
        lemma_binary_errors(tokens, table, 0, left, p);
    }
}

/// A unary expression fails only with an error that may occur.
pub proof fn lemma_unary_errors(tokens: Seq<TokenView>, table: Map<u32, i32>, pos: nat)
    ensures
        unary(tokens, table, pos) matches Err(e) ==> may_occur(e),
    decreases tokens.len() - pos, 2int,
{
    reveal(unary);
    reveal(primary);
    match token_at(tokens, pos) {
        None => {},
        Some(TokenView::Op(_)) => {
            if pos + 1 < tokens.len() {
                lemma_unary_errors(tokens, table, pos + 1);
            }
        },
        Some(_) => {
            lemma_primary_errors(tokens, table, pos);
        },
    }
}

/// A chain of binary operators that is entered with a precedence of zero or
/// more fails only with an error that may occur.
pub proof fn lemma_binary_errors(
    tokens: Seq<TokenView>,
    table: Map<u32, i32>,
    min_prec: int,
    left: ExprView,
    pos: nat,
)
    requires
        pos <= tokens.len(),
        0 <= min_prec,
    ensures
        binary(tokens, table, min_prec, left, pos) matches Err(e) ==> may_occur(e),
    decreases tokens.len() - pos, 0int,
{
    reveal(binary);
    reveal(unary);
    let current = precedence_at(tokens, table, pos);
    if !(current < min_prec || pos >= tokens.len()) {
        if let Some(TokenView::Op(op)) = token_at(tokens, pos) {
            if pos + 1 < tokens.len() {
                lemma_unary_errors(tokens, table, pos + 1);
                lemma_unary_progress(tokens, table, pos + 1);
                if let Ok((operand, p)) = unary(tokens, table, pos + 1) {
                    let right = if current < precedence_at(tokens, table, p) {
                        binary(tokens, table, current + 1, operand, p)
                    } else {
                        Ok((operand, p))
                    };
                    if current < precedence_at(tokens, table, p) {
                        lemma_binary_errors(tokens, table, current + 1, operand, p);
                        lemma_binary_progress(tokens, table, current + 1, operand, p);
                    }
                    if let Ok((right, q)) = right {
                        lemma_binary_errors(
                            tokens,
                            table,
                            min_prec,
                            ExprView::Binary { op, left: Box::new(left), right: Box::new(right) },
                            q,
                        );
                    }
                }
            }
        }
    }
}

/// A primary expression fails only with an error that may occur.
pub proof fn lemma_primary_errors(tokens: Seq<TokenView>, table: Map<u32, i32>, pos: nat)
    ensures
        primary(tokens, table, pos) matches Err(e) ==> may_occur(e),
    decreases tokens.len() - pos, 1int,
{
    reveal(primary);
    reveal(identifier);
    reveal(paren);
    reveal(conditional);
    reveal(for_loop);
    reveal(var_in);
    match token_at(tokens, pos) {
        Some(TokenView::Ident(_)) => lemma_identifier_errors(tokens, table, pos),
        Some(TokenView::LParen) => lemma_paren_errors(tokens, table, pos),
        Some(TokenView::If) => lemma_conditional_errors(tokens, table, pos),
        Some(TokenView::For) => lemma_for_loop_errors(tokens, table, pos),
        Some(TokenView::Var) => lemma_var_in_errors(tokens, table, pos),
        _ => {},
    }
}

/// A variable or call, entered on an identifier, fails only with an error
/// that may occur.
pub proof fn lemma_identifier_errors(tokens: Seq<TokenView>, table: Map<u32, i32>, pos: nat)
    requires
        token_at(tokens, pos) matches Some(t) && t is Ident,
    ensures
        identifier(tokens, table, pos) matches Err(e) ==> may_occur(e),
    decreases tokens.len() - pos, 0int,
{
    reveal(identifier);
    reveal(arguments);
    if token_at(tokens, pos + 1) == Some(TokenView::LParen) && pos + 2 < tokens.len() {
        lemma_arguments_errors(tokens, table, pos + 2, Seq::empty());
    }
}

/// An argument list fails only with an error that may occur.
pub proof fn lemma_arguments_errors(
    tokens: Seq<TokenView>,
    table: Map<u32, i32>,
    pos: nat,
    done: Seq<ExprView>,
)
    ensures
        arguments(tokens, table, pos, done) matches Err(e) ==> may_occur(e),
    decreases tokens.len() - pos, 4int,
{
    reveal(arguments);
    reveal(expr);
    lemma_expr_errors(tokens, table, pos);
    lemma_expr_progress(tokens, table, pos);
    if let Ok((arg, p)) = expr(tokens, table, pos) {
        if token_at(tokens, p) == Some(TokenView::Comma) && p + 1 < tokens.len() {
            lemma_arguments_errors(tokens, table, p + 1, done.push(arg));
        }
    }
}

/// A parenthesized expression, entered on `(`, fails only with an error that
/// may occur.
pub proof fn lemma_paren_errors(tokens: Seq<TokenView>, table: Map<u32, i32>, pos: nat)
    requires
        token_at(tokens, pos) == Some(TokenView::LParen),
    ensures
        paren(tokens, table, pos) matches Err(e) ==> may_occur(e),
    decreases tokens.len() - pos, 0int,
{
    reveal(paren);
    reveal(expr);
    if pos + 1 < tokens.len() {
        lemma_expr_errors(tokens, table, pos + 1);
    }
}

/// A branch of a conditional fails only with an error that may occur.
pub proof fn lemma_branch_errors(
    tokens: Seq<TokenView>,
    table: Map<u32, i32>,
    pos: nat,
    first: bool,
)
    ensures
        branch(tokens, table, pos, first) matches Err(e) ==> may_occur(e),
    decreases tokens.len() - pos, 4int,
{
    reveal(branch);
    reveal(expr);
    if pos + 1 < tokens.len() {
        lemma_expr_errors(tokens, table, pos + 1);
    }
}

/// A conditional fails only with an error that may occur.
pub proof fn lemma_conditional_errors(tokens: Seq<TokenView>, table: Map<u32, i32>, pos: nat)
    ensures
        conditional(tokens, table, pos) matches Err(e) ==> may_occur(e),
    decreases tokens.len() - pos, 0int,
{
    reveal(conditional);
    reveal(branch);
    reveal(expr);
    if pos + 1 < tokens.len() {
        lemma_expr_errors(tokens, table, pos + 1);
        lemma_expr_progress(tokens, table, pos + 1);
        if let Ok((_, p)) = expr(tokens, table, pos + 1) {
            lemma_branch_errors(tokens, table, p, true);
            lemma_branch_progress(tokens, table, p, true);
            if let Ok((_, q)) = branch(tokens, table, p, true) {
                lemma_branch_errors(tokens, table, q, false);
            }
        }
    }
}

/// The step of a loop fails only with an error that may occur.
pub proof fn lemma_loop_step_errors(tokens: Seq<TokenView>, table: Map<u32, i32>, pos: nat)
    ensures
        loop_step(tokens, table, pos) matches Err(e) ==> may_occur(e),
    decreases tokens.len() - pos, 4int,
{
    reveal(loop_step);
    reveal(expr);
    if pos + 1 < tokens.len() {
        lemma_expr_errors(tokens, table, pos + 1);
    }
}

/// The range of a loop fails only with an error that may occur.
pub proof fn lemma_loop_range_errors(tokens: Seq<TokenView>, table: Map<u32, i32>, pos: nat)
    ensures
        loop_range(tokens, table, pos) matches Err(e) ==> may_occur(e),
    decreases tokens.len() - pos, 4int,
{
    reveal(loop_range);
    reveal(expr);
    lemma_expr_errors(tokens, table, pos);
    lemma_expr_progress(tokens, table, pos);
    if let Ok((_, p)) = expr(tokens, table, pos) {
        if p + 1 < tokens.len() {
            lemma_expr_errors(tokens, table, p + 1);
        }
    }
}

/// The rest of a loop fails only with an error that may occur.
pub proof fn lemma_loop_tail_errors(tokens: Seq<TokenView>, table: Map<u32, i32>, pos: nat)
    requires
        pos <= tokens.len(),
    ensures
        loop_tail(tokens, table, pos) matches Err(e) ==> may_occur(e),
    decreases tokens.len() - pos, 5int,
{
    reveal(loop_tail);
    reveal(loop_step);
    reveal(expr);
    lemma_loop_step_errors(tokens, table, pos);
    lemma_loop_step_progress(tokens, table, pos);
    if let Ok((_, p)) = loop_step(tokens, table, pos) {
        if p + 1 < tokens.len() {
            lemma_expr_errors(tokens, table, p + 1);
        }
    }
}

/// A loop fails only with an error that may occur.
pub proof fn lemma_for_loop_errors(tokens: Seq<TokenView>, table: Map<u32, i32>, pos: nat)
    ensures
        for_loop(tokens, table, pos) matches Err(e) ==> may_occur(e),
    decreases tokens.len() - pos, 0int,
{
    reveal(for_loop);
    reveal(loop_header);
    reveal(loop_range);
    reveal(loop_tail);
    lemma_for_loop_progress(tokens, table, pos);
    if let Ok((_, p)) = loop_header(tokens, pos) {
        lemma_loop_range_errors(tokens, table, p);
        lemma_loop_range_progress(tokens, table, p);
        if let Ok((_, q)) = loop_range(tokens, table, p) {
            lemma_loop_tail_errors(tokens, table, q);
        }
    }
}

/// The initial value of a binding fails only with an error that may occur.
pub proof fn lemma_initializer_errors(tokens: Seq<TokenView>, table: Map<u32, i32>, pos: nat)
    ensures
        initializer(tokens, table, pos) matches Err(e) ==> may_occur(e),
    decreases tokens.len() - pos, 4int,
{
    reveal(initializer);
    reveal(expr);
    if pos + 1 < tokens.len() {
        lemma_expr_errors(tokens, table, pos + 1);
    }
}

/// A binding fails only with an error that may occur.
pub proof fn lemma_binding_errors(tokens: Seq<TokenView>, table: Map<u32, i32>, pos: nat)
    ensures
        binding(tokens, table, pos) matches Err(e) ==> may_occur(e),
    decreases tokens.len() - pos, 4int,
{
    reveal(binding);
    reveal(initializer);
    if pos + 1 < tokens.len() {
        lemma_initializer_errors(tokens, table, pos + 1);
    }
}

/// A list of bindings fails only with an error that may occur.
pub proof fn lemma_bindings_errors(
    tokens: Seq<TokenView>,
    table: Map<u32, i32>,
    pos: nat,
    done: Seq<(Seq<char>, Option<ExprView>)>,
)
    ensures
        bindings(tokens, table, pos, done) matches Err(e) ==> may_occur(e),
    decreases tokens.len() - pos, 5int,
{
    reveal(bindings);
    reveal(binding);
    lemma_binding_errors(tokens, table, pos);
    lemma_binding_progress(tokens, table, pos);
    if let Ok((bound, p)) = binding(tokens, table, pos) {
        if token_at(tokens, p) == Some(TokenView::Comma) && p + 1 < tokens.len() {
            lemma_bindings_errors(tokens, table, p + 1, done.push(bound));
        }
    }
}

/// Local bindings fail only with an error that may occur.
pub proof fn lemma_var_in_errors(tokens: Seq<TokenView>, table: Map<u32, i32>, pos: nat)
    ensures
        var_in(tokens, table, pos) matches Err(e) ==> may_occur(e),
    decreases tokens.len() - pos, 0int,
{
    reveal(var_in);
    reveal(bindings);
    reveal(expr);
    if pos + 1 < tokens.len() {
        lemma_bindings_errors(tokens, table, pos + 1, Seq::empty());
        lemma_bindings_progress(tokens, table, pos + 1, Seq::empty());
        if let Ok((_, p)) = bindings(tokens, table, pos + 1, Seq::empty()) {
            lemma_expr_errors(tokens, table, p);
        }
    }
}

/// A parameter list fails only with an error that may occur.
pub proof fn lemma_parameters_errors(tokens: Seq<TokenView>, pos: nat, done: Seq<Seq<char>>)
    ensures
        parameters(tokens, pos, done) matches Err(e) ==> may_occur(e),
    decreases tokens.len() - pos,
{
    reveal(parameters);
    if let Some(TokenView::Ident(name)) = token_at(tokens, pos) {
        if pos + 1 < tokens.len() && token_at(tokens, pos + 1) == Some(TokenView::Comma) {
            lemma_parameters_errors(tokens, pos + 2, done.push(name));
        }
    }
}

/// A parse fails only with an error that may occur: the four other kinds
/// never come out of it.
pub proof fn law_errors_of_a_parse(tokens: Seq<TokenView>, table: Map<u32, i32>, pos: nat)
    ensures
        top_level(tokens, table, pos).result matches Err(e) ==> may_occur(e),
{
    reveal(top_level);
    reveal(prototype);
    reveal(prototype_head);
    reveal(parameters);
    reveal(expr);
    lemma_expr_errors(tokens, table, pos);
    lemma_prototype_progress(tokens, pos + 1);
    if let Ok((_, p)) = prototype_head(tokens, pos + 1) {
        if p + 1 < tokens.len() {
            lemma_parameters_errors(tokens, p + 1, Seq::empty());
        }
    }
    if let Ok((_, p)) = prototype(tokens, pos + 1) {
        lemma_expr_errors(tokens, table_after_prototype(tokens, table, pos + 1), p);
    }
}

} // verus!
