//! Every production that succeeds moves forward and stays inside the tokens.

use crate::grammar::{
    arguments, binary, binding, bindings, branch, conditional, expr, for_loop, identifier,
    initializer, loop_header, loop_range, loop_step, loop_tail, number, parameters, paren,
    precedence_at, primary, prototype, prototype_head, token_at, unary, var_in, ExprView,
};
use crate::lexer::TokenView;
use vstd::prelude::*;

verus! {

/// Whether `end` lies after `pos` and not beyond the tokens.
pub open spec fn moved_on(tokens: Seq<TokenView>, pos: nat, end: nat) -> bool {
    pos < end <= tokens.len()
}

/// An expression takes up at least one token.
pub proof fn lemma_expr_progress(tokens: Seq<TokenView>, table: Map<u32, i32>, pos: nat)
    ensures
        expr(tokens, table, pos) matches Ok((_, end)) ==> moved_on(tokens, pos, end),
    decreases tokens.len() - pos, 3int,
{
    reveal(expr);
    reveal(unary);
    reveal(binary);
    lemma_unary_progress(tokens, table, pos);
    if let Ok((left, p)) = unary(tokens, table, pos) {
        lemma_binary_progress(tokens, table, 0, left, p);
    }
}

/// A unary expression takes up at least one token.
pub proof fn lemma_unary_progress(tokens: Seq<TokenView>, table: Map<u32, i32>, pos: nat)
    ensures
        unary(tokens, table, pos) matches Ok((_, end)) ==> moved_on(tokens, pos, end),
    decreases tokens.len() - pos, 2int,
{
    reveal(unary);
    reveal(primary);
    match token_at(tokens, pos) {
        None => {},
        Some(TokenView::Op(_)) => {
            if pos + 1 < tokens.len() {
                lemma_unary_progress(tokens, table, pos + 1);
            }
        },
        Some(_) => {
            lemma_primary_progress(tokens, table, pos);
        },
    }
}

/// A chain of binary operators ends at or after its start, inside the
/// tokens.
pub proof fn lemma_binary_progress(
    tokens: Seq<TokenView>,
    table: Map<u32, i32>,
    min_prec: int,
    left: ExprView,
    pos: nat,
)
    requires
        pos <= tokens.len(),
    ensures
        binary(tokens, table, min_prec, left, pos) matches Ok((_, end)) ==> pos <= end
            <= tokens.len(),
    decreases tokens.len() - pos, 0int,
{
    reveal(binary);
    reveal(unary);
    let current = precedence_at(tokens, table, pos);
    if !(current < min_prec || pos >= tokens.len()) {
        if let Some(TokenView::Op(op)) = token_at(tokens, pos) {
            if pos + 1 < tokens.len() {
                lemma_unary_progress(tokens, table, pos + 1);
                if let Ok((operand, p)) = unary(tokens, table, pos + 1) {
                    let right = if current < precedence_at(tokens, table, p) {
                        binary(tokens, table, current + 1, operand, p)
                    } else {
                        Ok((operand, p))
                    };
                    if current < precedence_at(tokens, table, p) {
                        lemma_binary_progress(tokens, table, current + 1, operand, p);
                    }
                    if let Ok((right, q)) = right {
                        lemma_binary_progress(
                            tokens,
                            table,
                            min_prec,
                            ExprView::Binary { op, left: Box::new(left), right: Box::new(right) },
                            q,
                        );
                    }
                }
            }
        }
    }
}

/// A primary expression takes up at least one token.
pub proof fn lemma_primary_progress(tokens: Seq<TokenView>, table: Map<u32, i32>, pos: nat)
    ensures
        primary(tokens, table, pos) matches Ok((_, end)) ==> moved_on(tokens, pos, end),
    decreases tokens.len() - pos, 1int,
{
    reveal(primary);
    reveal(identifier);
    reveal(paren);
    reveal(conditional);
    reveal(for_loop);
    reveal(var_in);
    match token_at(tokens, pos) {
        Some(TokenView::Ident(_)) => lemma_identifier_progress(tokens, table, pos),
        Some(TokenView::LParen) => lemma_paren_progress(tokens, table, pos),
        Some(TokenView::If) => lemma_conditional_progress(tokens, table, pos),
        Some(TokenView::For) => lemma_for_loop_progress(tokens, table, pos),
        Some(TokenView::Var) => lemma_var_in_progress(tokens, table, pos),
        _ => {},
    }
}

/// A variable or call takes up at least one token.
pub proof fn lemma_identifier_progress(tokens: Seq<TokenView>, table: Map<u32, i32>, pos: nat)
    ensures
        identifier(tokens, table, pos) matches Ok((_, end)) ==> moved_on(tokens, pos, end),
    decreases tokens.len() - pos, 0int,
{
    reveal(identifier);
    reveal(arguments);
    if token_at(tokens, pos) is Some && token_at(tokens, pos + 1) == Some(TokenView::LParen)
        && pos + 2 < tokens.len() {
        lemma_arguments_progress(tokens, table, pos + 2, Seq::empty());
    }
}

/// An argument list ends after its start, inside the tokens.
pub proof fn lemma_arguments_progress(
    tokens: Seq<TokenView>,
    table: Map<u32, i32>,
    pos: nat,
    done: Seq<ExprView>,
)
    ensures
        arguments(tokens, table, pos, done) matches Ok((_, end)) ==> moved_on(tokens, pos, end),
    decreases tokens.len() - pos, 4int,
{
    reveal(arguments);
    reveal(expr);
    lemma_expr_progress(tokens, table, pos);
    if let Ok((arg, p)) = expr(tokens, table, pos) {
        if token_at(tokens, p) == Some(TokenView::Comma) && p + 1 < tokens.len() {
            lemma_arguments_progress(tokens, table, p + 1, done.push(arg));
        }
    }
}

/// A parenthesized expression takes up at least one token.
pub proof fn lemma_paren_progress(tokens: Seq<TokenView>, table: Map<u32, i32>, pos: nat)
    ensures
        paren(tokens, table, pos) matches Ok((_, end)) ==> moved_on(tokens, pos, end),
    decreases tokens.len() - pos, 0int,
{
    reveal(paren);
    reveal(expr);
    if pos + 1 < tokens.len() {
        lemma_expr_progress(tokens, table, pos + 1);
    }
}

/// A branch of a conditional takes up at least one token.
pub proof fn lemma_branch_progress(
    tokens: Seq<TokenView>,
    table: Map<u32, i32>,
    pos: nat,
    first: bool,
)
    ensures
        branch(tokens, table, pos, first) matches Ok((_, end)) ==> moved_on(tokens, pos, end),
    decreases tokens.len() - pos, 4int,
{
    reveal(branch);
    reveal(expr);
    if pos + 1 < tokens.len() {
        lemma_expr_progress(tokens, table, pos + 1);
    }
}

/// A conditional takes up at least one token.
pub proof fn lemma_conditional_progress(tokens: Seq<TokenView>, table: Map<u32, i32>, pos: nat)
    ensures
        conditional(tokens, table, pos) matches Ok((_, end)) ==> moved_on(tokens, pos, end),
    decreases tokens.len() - pos, 0int,
{
    reveal(conditional);
    reveal(branch);
    reveal(expr);
    if pos + 1 < tokens.len() {
        lemma_expr_progress(tokens, table, pos + 1);
        if let Ok((_, p)) = expr(tokens, table, pos + 1) {
            lemma_branch_progress(tokens, table, p, true);
            if let Ok((_, q)) = branch(tokens, table, p, true) {
                lemma_branch_progress(tokens, table, q, false);
            }
        }
    }
}

/// The step of a loop ends at or after its start, inside the tokens.
pub proof fn lemma_loop_step_progress(tokens: Seq<TokenView>, table: Map<u32, i32>, pos: nat)
    requires
        pos <= tokens.len(),
    ensures
        loop_step(tokens, table, pos) matches Ok((_, end)) ==> pos <= end <= tokens.len(),
    decreases tokens.len() - pos, 4int,
{
    reveal(loop_step);
    reveal(expr);
    if pos + 1 < tokens.len() {
        lemma_expr_progress(tokens, table, pos + 1);
    }
}

/// The range of a loop takes up at least one token.
pub proof fn lemma_loop_range_progress(tokens: Seq<TokenView>, table: Map<u32, i32>, pos: nat)
    ensures
        loop_range(tokens, table, pos) matches Ok((_, end)) ==> moved_on(tokens, pos, end),
    decreases tokens.len() - pos, 4int,
{
    reveal(loop_range);
    reveal(expr);
    lemma_expr_progress(tokens, table, pos);
    if let Ok((_, p)) = expr(tokens, table, pos) {
        if p + 1 < tokens.len() {
            lemma_expr_progress(tokens, table, p + 1);
        }
    }
}

/// The rest of a loop takes up at least one token.
pub proof fn lemma_loop_tail_progress(tokens: Seq<TokenView>, table: Map<u32, i32>, pos: nat)
    requires
        pos <= tokens.len(),
    ensures
        loop_tail(tokens, table, pos) matches Ok((_, end)) ==> moved_on(tokens, pos, end),
    decreases tokens.len() - pos, 5int,
{
    reveal(loop_tail);
    reveal(loop_step);
    reveal(expr);
    lemma_loop_step_progress(tokens, table, pos);
    if let Ok((_, p)) = loop_step(tokens, table, pos) {
        if p + 1 < tokens.len() {
            lemma_expr_progress(tokens, table, p + 1);
        }
    }
}

/// A loop takes up at least one token, and a token follows its head.
pub proof fn lemma_for_loop_progress(tokens: Seq<TokenView>, table: Map<u32, i32>, pos: nat)
    ensures
        loop_header(tokens, pos) matches Ok((_, end)) ==> pos < end < tokens.len(),
        for_loop(tokens, table, pos) matches Ok((_, end)) ==> moved_on(tokens, pos, end),
    decreases tokens.len() - pos, 0int,
{
    reveal(for_loop);
    reveal(loop_header);
    reveal(loop_range);
    reveal(loop_tail);
    if let Ok((_, p)) = loop_header(tokens, pos) {
        lemma_loop_range_progress(tokens, table, p);
        if let Ok((_, q)) = loop_range(tokens, table, p) {
            lemma_loop_tail_progress(tokens, table, q);
        }
    }
}

/// The initial value of a binding ends at or after its start, inside the
/// tokens.
pub proof fn lemma_initializer_progress(tokens: Seq<TokenView>, table: Map<u32, i32>, pos: nat)
    requires
        pos <= tokens.len(),
    ensures
        initializer(tokens, table, pos) matches Ok((_, end)) ==> pos <= end <= tokens.len(),
    decreases tokens.len() - pos, 4int,
{
    reveal(initializer);
    reveal(expr);
    if pos + 1 < tokens.len() {
        lemma_expr_progress(tokens, table, pos + 1);
    }
}

/// A binding takes up at least one token.
pub proof fn lemma_binding_progress(tokens: Seq<TokenView>, table: Map<u32, i32>, pos: nat)
    ensures
        binding(tokens, table, pos) matches Ok((_, end)) ==> moved_on(tokens, pos, end),
    decreases tokens.len() - pos, 4int,
{
    reveal(binding);
    reveal(initializer);
    if pos + 1 < tokens.len() {
        lemma_initializer_progress(tokens, table, pos + 1);
    }
}

/// A list of bindings ends after its start, inside the tokens.
pub proof fn lemma_bindings_progress(
    tokens: Seq<TokenView>,
    table: Map<u32, i32>,
    pos: nat,
    done: Seq<(Seq<char>, Option<ExprView>)>,
)
    ensures
        bindings(tokens, table, pos, done) matches Ok((_, end)) ==> moved_on(tokens, pos, end),
    decreases tokens.len() - pos, 5int,
{
    reveal(bindings);
    reveal(binding);
    lemma_binding_progress(tokens, table, pos);
    if let Ok((bound, p)) = binding(tokens, table, pos) {
        if token_at(tokens, p) == Some(TokenView::Comma) && p + 1 < tokens.len() {
            lemma_bindings_progress(tokens, table, p + 1, done.push(bound));
        }
    }
}

/// Local bindings take up at least one token.
pub proof fn lemma_var_in_progress(tokens: Seq<TokenView>, table: Map<u32, i32>, pos: nat)
    ensures
        var_in(tokens, table, pos) matches Ok((_, end)) ==> moved_on(tokens, pos, end),
    decreases tokens.len() - pos, 0int,
{
    reveal(var_in);
    reveal(bindings);
    reveal(expr);
    if pos + 1 < tokens.len() {
        lemma_bindings_progress(tokens, table, pos + 1, Seq::empty());
        if let Ok((_, p)) = bindings(tokens, table, pos + 1, Seq::empty()) {
            lemma_expr_progress(tokens, table, p);
        }
    }
}

/// A parameter list ends after its start, inside the tokens.
pub proof fn lemma_parameters_progress(tokens: Seq<TokenView>, pos: nat, done: Seq<Seq<char>>)
    ensures
        parameters(tokens, pos, done) matches Ok((_, end)) ==> moved_on(tokens, pos, end),
    decreases tokens.len() - pos,
{
    reveal(parameters);
    if let Some(TokenView::Ident(name)) = token_at(tokens, pos) {
        if pos + 1 < tokens.len() && token_at(tokens, pos + 1) == Some(TokenView::Comma) {
            lemma_parameters_progress(tokens, pos + 2, done.push(name));
        }
    }
}

/// A prototype takes up at least one token, and a token follows its head.
pub proof fn lemma_prototype_progress(tokens: Seq<TokenView>, pos: nat)
    ensures
        prototype_head(tokens, pos) matches Ok((_, end)) ==> pos < end < tokens.len(),
        prototype(tokens, pos) matches Ok((_, end)) ==> moved_on(tokens, pos, end),
{
    reveal(prototype_head);
    reveal(prototype);
    reveal(parameters);
    if let Ok((_, p)) = prototype_head(tokens, pos) {
        if p + 1 < tokens.len() {
            lemma_parameters_progress(tokens, p + 1, Seq::empty());
        }
    }
}

/// A number literal takes up one token.
pub proof fn lemma_number_progress(tokens: Seq<TokenView>, pos: nat)
    ensures
        number(tokens, pos) matches Ok((_, end)) ==> moved_on(tokens, pos, end),
{
}

} // verus!
