//! Laws of the grammar, proved of every token sequence and table.

use crate::error::ParseError;
use crate::grammar::{
    anonymous_prototype, binary, builtin_table, expr, identifier, precedence_at, precedence_of,
    primary, prototype, prototype_head, stated_precedence, table_after_prototype, token_at,
    top_level, unary, ExprView, FunctionView, Outcome, UNKNOWN_PRECEDENCE,
};
use crate::lexer::{code_tokens, TokenView};
use crate::progress::{lemma_expr_progress, lemma_prototype_progress};
use vstd::prelude::*;

verus! {

/// The built-in operators bind in the order `=`, `<`, `+` and `-`, `*` and
/// `/`, from loosest to tightest, and an operator that the built-in table
/// lacks binds tighter than all of them.
pub proof fn law_builtin_precedences(op: char)
    ensures
        precedence_of(builtin_table(), '=') == 2,
        precedence_of(builtin_table(), '<') == 10,
        precedence_of(builtin_table(), '+') == 20,
        precedence_of(builtin_table(), '-') == 20,
        precedence_of(builtin_table(), '*') == 40,
        precedence_of(builtin_table(), '/') == 40,
        op != '=' && op != '<' && op != '+' && op != '-' && op != '*' && op != '/'
            ==> precedence_of(builtin_table(), op) == UNKNOWN_PRECEDENCE,
        precedence_of(builtin_table(), op) <= UNKNOWN_PRECEDENCE,
{
}

/// One number literal alone parses, under any table, to an anonymous
/// function whose body is that number, and the table stays as it was.
pub proof fn law_single_number_token(tokens: Seq<TokenView>, table: Map<u32, i32>, text: Seq<char>)
    requires
        tokens == seq![TokenView::Number(text)],
    ensures
        top_level(tokens, table, 0) == (Outcome {
            result: Ok(
                FunctionView {
                    prototype: anonymous_prototype(),
                    body: Some(ExprView::Number(text)),
                    is_anon: true,
                },
            ),
            table,
        }),
{
    reveal(top_level);
    reveal(expr);
    reveal(unary);
    reveal(primary);
    reveal(binary);
}

/// A source whose only token, comments aside, is one number literal parses,
/// under any table, to an anonymous function whose body is that number, and
/// the table stays as it was.
pub proof fn law_single_number(source: Seq<char>, table: Map<u32, i32>, text: Seq<char>)
    requires
        code_tokens(source, 0) == seq![TokenView::Number(text)],
    ensures
        top_level(code_tokens(source, 0), table, 0) == (Outcome {
            result: Ok(
                FunctionView {
                    prototype: anonymous_prototype(),
                    body: Some(ExprView::Number(text)),
                    is_anon: true,
                },
            ),
            table,
        }),
{
    law_single_number_token(code_tokens(source, 0), table, text);
}

/// An identifier with an empty pair of parentheses behind it is a call
/// without arguments, and the closing parenthesis belongs to it: alone it
/// parses, under any table, to an anonymous function whose body is that call.
pub proof fn law_call_without_arguments(
    tokens: Seq<TokenView>,
    table: Map<u32, i32>,
    name: Seq<char>,
)
    requires
        tokens == seq![TokenView::Ident(name), TokenView::LParen, TokenView::RParen],
    ensures
        top_level(tokens, table, 0) == (Outcome {
            result: Ok(
                FunctionView {
                    prototype: anonymous_prototype(),
                    body: Some(ExprView::Call { fn_name: name, args: Seq::empty() }),
                    is_anon: true,
                },
            ),
            table,
        }),
{
    reveal(top_level);
    reveal(expr);
    reveal(unary);
    reveal(primary);
    reveal(identifier);
    reveal(binary);
}

/// Two operators between three variables group by precedence: where the
/// first operator binds at least as tightly as the second, the first two
/// operands go together, so that equal precedences group to the left;
/// where the second binds tighter, the last two go together. Both operators
/// must have a precedence of zero or more.
pub proof fn law_precedence_grouping(
    a: Seq<char>,
    first: char,
    b: Seq<char>,
    second: char,
    c: Seq<char>,
    table: Map<u32, i32>,
)
    requires
        precedence_of(table, first) >= 0,
        precedence_of(table, second) >= 0,
    ensures
        ({
            let tokens = seq![
                TokenView::Ident(a),
                TokenView::Op(first),
                TokenView::Ident(b),
                TokenView::Op(second),
                TokenView::Ident(c),
            ];
            let left_first = ExprView::Binary {
                op: second,
                left: Box::new(
                    ExprView::Binary {
                        op: first,
                        left: Box::new(ExprView::Variable(a)),
                        right: Box::new(ExprView::Variable(b)),
                    },
                ),
                right: Box::new(ExprView::Variable(c)),
            };
            let right_first = ExprView::Binary {
                op: first,
                left: Box::new(ExprView::Variable(a)),
                right: Box::new(
                    ExprView::Binary {
                        op: second,
                        left: Box::new(ExprView::Variable(b)),
                        right: Box::new(ExprView::Variable(c)),
                    },
                ),
            };
            expr(tokens, table, 0) == Ok::<(ExprView, nat), ParseError>(
                (
                    if precedence_of(table, first) >= precedence_of(table, second) {
                        left_first
                    } else {
                        right_first
                    },
                    5nat,
                ),
            )
        }),
{
    reveal(expr);
    reveal(unary);
    reveal(primary);
    reveal(identifier);
    reveal(binary);
    let tokens = seq![
        TokenView::Ident(a),
        TokenView::Op(first),
        TokenView::Ident(b),
        TokenView::Op(second),
        TokenView::Ident(c),
    ];
    let ok = |e: ExprView, p: nat| Ok::<(ExprView, nat), ParseError>((e, p));
    assert(primary(tokens, table, 2) == ok(ExprView::Variable(b), 3));
    assert(primary(tokens, table, 4) == ok(ExprView::Variable(c), 5));
}

/// The token at index `i` of a chain: a variable at every even index, an
/// operator at every odd one.
pub open spec fn chain_token(operands: Seq<Seq<char>>, ops: Seq<char>, i: int) -> TokenView {
    if i % 2 == 0 {
        TokenView::Ident(operands[i / 2])
    } else {
        TokenView::Op(ops[i / 2])
    }
}

/// The tokens of a chain: variables with one operator between each two,
/// `operands[0] ops[0] operands[1] ops[1] ...`, ending in a variable.
pub open spec fn chain_tokens(operands: Seq<Seq<char>>, ops: Seq<char>) -> Seq<TokenView>
    recommends
        operands.len() == ops.len() + 1,
{
    Seq::new((2 * ops.len() + 1) as nat, |i: int| chain_token(operands, ops, i))
}

/// The tree over the first `count + 1` operands of a chain in which every
/// operator takes all that stands to its left as its left operand.
pub open spec fn left_grouped(operands: Seq<Seq<char>>, ops: Seq<char>, count: nat) -> ExprView
    decreases count,
{
    if count == 0 {
        ExprView::Variable(operands[0])
    } else {
        ExprView::Binary {
            op: ops[count - 1],
            left: Box::new(left_grouped(operands, ops, (count - 1) as nat)),
            right: Box::new(ExprView::Variable(operands[count as int])),
        }
    }
}

/// The tree over the operands of a chain from `from` on in which every
/// operator takes all that stands to its right as its right operand.
pub open spec fn right_grouped(operands: Seq<Seq<char>>, ops: Seq<char>, from: nat) -> ExprView
    decreases ops.len() - from,
{
    if from >= ops.len() {
        ExprView::Variable(operands[from as int])
    } else {
        ExprView::Binary {
            op: ops[from as int],
            left: Box::new(ExprView::Variable(operands[from as int])),
            right: Box::new(right_grouped(operands, ops, from + 1)),
        }
    }
}

/// Where the variables and the operators of a chain stand.
pub proof fn lemma_chain_tokens(operands: Seq<Seq<char>>, ops: Seq<char>, k: nat)
    requires
        operands.len() == ops.len() + 1,
        k <= ops.len(),
    ensures
        chain_tokens(operands, ops).len() == 2 * ops.len() + 1,
        token_at(chain_tokens(operands, ops), 2 * k) == Some(
            TokenView::Ident(operands[k as int]),
        ),
        k < ops.len() ==> token_at(chain_tokens(operands, ops), 2 * k + 1) == Some(
            TokenView::Op(ops[k as int]),
        ),
        k == ops.len() ==> token_at(chain_tokens(operands, ops), 2 * k + 1) is None,
{
    assert((2 * k) % 2 == 0 && (2 * k) / 2 == k && (2 * k + 1) % 2 == 1 && (2 * k + 1) / 2 == k)
        by (nonlinear_arith);
}

/// A variable of a chain parses as itself.
pub proof fn lemma_chain_operand(
    operands: Seq<Seq<char>>,
    ops: Seq<char>,
    table: Map<u32, i32>,
    k: nat,
)
    requires
        operands.len() == ops.len() + 1,
        k <= ops.len(),
    ensures
        unary(chain_tokens(operands, ops), table, 2 * k) == Ok::<(ExprView, nat), ParseError>(
            (ExprView::Variable(operands[k as int]), 2 * k + 1),
        ),
        k < ops.len() ==> precedence_at(chain_tokens(operands, ops), table, 2 * k + 1)
            == precedence_of(table, ops[k as int]),
        k == ops.len() ==> precedence_at(chain_tokens(operands, ops), table, 2 * k + 1) == -1,
{
    reveal(unary);
    reveal(primary);
    reveal(identifier);
    lemma_chain_tokens(operands, ops, k);
    let tokens = chain_tokens(operands, ops);
    let pos = (2 * k) as nat;
    assert(unary(tokens, table, pos) == primary(tokens, table, pos));
}

/// In a chain whose operators all have one precedence, the operators after
/// the first `k` go on grouping to the left.
proof fn lemma_left_chain(
    operands: Seq<Seq<char>>,
    ops: Seq<char>,
    table: Map<u32, i32>,
    prec: int,
    min_prec: int,
    k: nat,
)
    requires
        operands.len() == ops.len() + 1,
        k <= ops.len(),
        min_prec <= prec,
        0 <= prec,
        forall|i: int| 0 <= i < ops.len() ==> precedence_of(table, #[trigger] ops[i]) == prec,
    ensures
        binary(
            chain_tokens(operands, ops),
            table,
            min_prec,
            left_grouped(operands, ops, k),
            2 * k + 1,
        ) == Ok::<(ExprView, nat), ParseError>(
            (left_grouped(operands, ops, ops.len()), 2 * ops.len() + 1),
        ),
    decreases ops.len() - k,
{
    reveal(binary);
    reveal(unary);
    lemma_chain_tokens(operands, ops, k);
    lemma_chain_operand(operands, ops, table, k);
    if k < ops.len() {
        // The operator at hand takes the next variable alone, since the
        // operator after that binds no tighter; the rest follows from there.
        lemma_chain_operand(operands, ops, table, k + 1);
        lemma_left_chain(operands, ops, table, prec, min_prec, k + 1);
    }
}

/// In a chain whose operators rise in precedence, the operators from the
/// `k`-th on group to the right.
proof fn lemma_right_chain(
    operands: Seq<Seq<char>>,
    ops: Seq<char>,
    table: Map<u32, i32>,
    min_prec: int,
    k: nat,
)
    requires
        operands.len() == ops.len() + 1,
        k <= ops.len(),
        0 <= min_prec,
        k < ops.len() ==> min_prec <= precedence_of(table, ops[k as int]),
        forall|i: int, j: int|
            0 <= i < j < ops.len() ==> precedence_of(table, #[trigger] ops[i]) < precedence_of(
                table,
                #[trigger] ops[j],
            ),
    ensures
        binary(
            chain_tokens(operands, ops),
            table,
            min_prec,
            ExprView::Variable(operands[k as int]),
            2 * k + 1,
        ) == Ok::<(ExprView, nat), ParseError>(
            (right_grouped(operands, ops, k), 2 * ops.len() + 1),
        ),
    decreases ops.len() - k,
{
    reveal(binary);
    reveal(unary);
    let tokens = chain_tokens(operands, ops);
    let end = (2 * ops.len() + 1) as nat;
    lemma_chain_tokens(operands, ops, k);
    lemma_chain_operand(operands, ops, table, k);
    if k < ops.len() {
        // The operator at hand takes everything after it, since the operator
        // after it binds tighter; with that the chain is at its end.
        let joined = ExprView::Binary {
            op: ops[k as int],
            left: Box::new(ExprView::Variable(operands[k as int])),
            right: Box::new(right_grouped(operands, ops, k + 1)),
        };
        lemma_chain_operand(operands, ops, table, k + 1);
        if k + 1 < ops.len() {
            lemma_right_chain(
                operands,
                ops,
                table,
                precedence_of(table, ops[k as int]) + 1,
                k + 1,
            );
        }
        assert(binary(
            tokens,
            table,
            min_prec,
            ExprView::Variable(operands[k as int]),
            2 * k + 1,
        ) == binary(tokens, table, min_prec, joined, end));
    }
}

/// Equal precedences group to the left, however long the chain: variables
/// joined by operators that all have one precedence, zero or more, parse to
/// the tree in which every operator has the whole chain before it as its
/// left operand.
pub proof fn law_equal_precedence_groups_left(
    operands: Seq<Seq<char>>,
    ops: Seq<char>,
    table: Map<u32, i32>,
    prec: int,
)
    requires
        operands.len() == ops.len() + 1,
        prec >= 0,
        forall|i: int| 0 <= i < ops.len() ==> precedence_of(table, #[trigger] ops[i]) == prec,
    ensures
        expr(chain_tokens(operands, ops), table, 0) == Ok::<(ExprView, nat), ParseError>(
            (left_grouped(operands, ops, ops.len()), 2 * ops.len() + 1),
        ),
{
    reveal(expr);
    reveal(unary);
    reveal(binary);
    lemma_chain_tokens(operands, ops, 0);
    lemma_chain_operand(operands, ops, table, 0);
    lemma_left_chain(operands, ops, table, prec, 0, 0);
}

/// Rising precedences group to the right, however long the chain: variables
/// joined by operators of which each binds tighter than those before it, the
/// first with a precedence of zero or more, parse to the tree in which every
/// operator has the whole chain after it as its right operand.
pub proof fn law_rising_precedence_groups_right(
    operands: Seq<Seq<char>>,
    ops: Seq<char>,
    table: Map<u32, i32>,
)
    requires
        operands.len() == ops.len() + 1,
        ops.len() > 0 ==> precedence_of(table, ops[0]) >= 0,
        forall|i: int, j: int|
            0 <= i < j < ops.len() ==> precedence_of(table, #[trigger] ops[i]) < precedence_of(
                table,
                #[trigger] ops[j],
            ),
    ensures
        expr(chain_tokens(operands, ops), table, 0) == Ok::<(ExprView, nat), ParseError>(
            (right_grouped(operands, ops, 0), 2 * ops.len() + 1),
        ),
{
    reveal(expr);
    reveal(unary);
    reveal(binary);
    lemma_chain_tokens(operands, ops, 0);
    lemma_chain_operand(operands, ops, table, 0);
    lemma_right_chain(operands, ops, table, 0, 0);
}

/// The first token decides what kind of item a parse gives: after `def` a
/// function with the prototype read and a body, after the keyword for
/// external declarations a function with the prototype read and no body,
/// and otherwise an anonymous function with a body.
pub proof fn law_item_shape(tokens: Seq<TokenView>, table: Map<u32, i32>, pos: nat)
    ensures
        top_level(tokens, table, pos).result matches Ok(item) ==> match token_at(tokens, pos) {
            Some(TokenView::Def) => {
                &&& !item.is_anon
                &&& item.body is Some
                &&& prototype(tokens, pos + 1) matches Ok((read, _)) && item.prototype == read
            },
            Some(TokenView::Extern) => {
                &&& !item.is_anon
                &&& item.body is None
                &&& prototype(tokens, pos + 1) matches Ok((read, _)) && item.prototype == read
            },
            _ => {
                &&& item.is_anon
                &&& item.body is Some
                &&& item.prototype == anonymous_prototype()
            },
        },
{
    reveal(top_level);
}

/// Nothing is cut off in silence: a parse succeeds only if its item takes up
/// every token from the cursor on, and an item that ends before the last
/// token gives the error for left-over tokens.
pub proof fn law_no_silent_truncation(tokens: Seq<TokenView>, table: Map<u32, i32>, pos: nat)
    ensures
        match token_at(tokens, pos) {
            None => top_level(tokens, table, pos).result == Err::<FunctionView, ParseError>(
                ParseError::UnexpectedEof,
            ),
            Some(TokenView::Def) => match prototype(tokens, pos + 1) {
                Ok((_, p)) => match expr(tokens, table_after_prototype(tokens, table, pos + 1), p) {
                    Ok((_, end)) => end <= tokens.len() && (top_level(tokens, table, pos).result
                        is Ok <==> end == tokens.len()) && (end < tokens.len() ==> top_level(
                        tokens,
                        table,
                        pos,
                    ).result == Err::<FunctionView, ParseError>(ParseError::UnexpectedToken)),
                    Err(_) => top_level(tokens, table, pos).result is Err,
                },
                Err(_) => top_level(tokens, table, pos).result is Err,
            },
            Some(TokenView::Extern) => match prototype(tokens, pos + 1) {
                Ok((_, end)) => end <= tokens.len() && (top_level(tokens, table, pos).result
                    is Ok <==> end == tokens.len()) && (end < tokens.len() ==> top_level(
                    tokens,
                    table,
                    pos,
                ).result == Err::<FunctionView, ParseError>(ParseError::UnexpectedToken)),
                Err(_) => top_level(tokens, table, pos).result is Err,
            },
            Some(_) => match expr(tokens, table, pos) {
                Ok((_, end)) => end <= tokens.len() && (top_level(tokens, table, pos).result
                    is Ok <==> end == tokens.len()) && (end < tokens.len() ==> top_level(
                    tokens,
                    table,
                    pos,
                ).result == Err::<FunctionView, ParseError>(ParseError::UnexpectedToken)),
                Err(_) => top_level(tokens, table, pos).result is Err,
            },
        },
{
    reveal(top_level);
    reveal(prototype);
    reveal(prototype_head);
    reveal(expr);
    lemma_prototype_progress(tokens, pos + 1);
    lemma_expr_progress(tokens, table, pos);
    if let Ok((_, p)) = prototype(tokens, pos + 1) {
        lemma_expr_progress(tokens, table_after_prototype(tokens, table, pos + 1), p);
    }
}

/// Only a declaration changes the table: parsing a bare expression leaves
/// it as it was.
pub proof fn law_expression_keeps_table(tokens: Seq<TokenView>, table: Map<u32, i32>, pos: nat)
    requires
        token_at(tokens, pos) != Some(TokenView::Def),
        token_at(tokens, pos) != Some(TokenView::Extern),
    ensures
        top_level(tokens, table, pos).table == table,
{
    reveal(top_level);
}

/// The operator and the number literal of a declaration that states a
/// precedence: the tokens at `pos` are `def`, or the keyword for external
/// declarations, then `binary`, an operator character and a number literal,
/// and a further token follows. `None` for any other tokens.
pub open spec fn stated_declaration(tokens: Seq<TokenView>, pos: nat) -> Option<
    (char, Seq<char>),
> {
    if (token_at(tokens, pos) == Some(TokenView::Def) || token_at(tokens, pos) == Some(
        TokenView::Extern,
    )) && token_at(tokens, pos + 1) == Some(TokenView::Binary) && pos + 4 < tokens.len() {
        match (token_at(tokens, pos + 2), token_at(tokens, pos + 3)) {
            (Some(TokenView::Op(op)), Some(TokenView::Number(text))) => Some((op, text)),
            _ => None,
        }
    } else {
        None
    }
}

/// A parse changes the table in one case only: a declaration of a binary
/// operator that states a precedence enters the operator with that
/// precedence, cut to an `i32`. The entry is there whether or not the rest of
/// the declaration parses. Every other parse, whether it succeeds or fails,
/// leaves the table as it was: a bare expression, a declaration of a
/// function or of a unary operator, and a declaration of a binary operator
/// without a number.
pub proof fn law_table_after_parse(tokens: Seq<TokenView>, table: Map<u32, i32>, pos: nat)
    ensures
        top_level(tokens, table, pos).table == match stated_declaration(tokens, pos) {
            Some((op, text)) => table.insert(op as u32, stated_precedence(text) as i32),
            None => table,
        },
{
    reveal(top_level);
    reveal(prototype_head);
}

/// A parse removes no entry from the table: every operator that had a
/// precedence before has one afterwards.
pub proof fn law_entries_stay(tokens: Seq<TokenView>, table: Map<u32, i32>, pos: nat, key: u32)
    requires
        table.contains_key(key),
    ensures
        top_level(tokens, table, pos).table.contains_key(key),
{
    law_table_after_parse(tokens, table, pos);
}

/// A declaration of a binary operator with a stated precedence enters the
/// operator into the table with that precedence, cut to an `i32`, provided a
/// token follows the number, and the operator then has that precedence.
pub proof fn law_declaration_enters_table(
    tokens: Seq<TokenView>,
    table: Map<u32, i32>,
    pos: nat,
    op: char,
    text: Seq<char>,
)
    requires
        token_at(tokens, pos) == Some(TokenView::Def) || token_at(tokens, pos) == Some(
            TokenView::Extern,
        ),
        token_at(tokens, pos + 1) == Some(TokenView::Binary),
        token_at(tokens, pos + 2) == Some(TokenView::Op(op)),
        token_at(tokens, pos + 3) == Some(TokenView::Number(text)),
        pos + 4 < tokens.len(),
    ensures
        top_level(tokens, table, pos).table == table.insert(
            op as u32,
            stated_precedence(text) as i32,
        ),
        precedence_of(top_level(tokens, table, pos).table, op) == stated_precedence(text) as i32,
{
    law_table_after_parse(tokens, table, pos);
}

/// A declaration of a binary operator without a stated precedence leaves the
/// table as it was: the operator keeps the precedence it had.
pub proof fn law_plain_declaration_keeps_table(
    tokens: Seq<TokenView>,
    table: Map<u32, i32>,
    pos: nat,
    op: char,
)
    requires
        token_at(tokens, pos + 1) == Some(TokenView::Binary),
        token_at(tokens, pos + 2) == Some(TokenView::Op(op)),
        !(token_at(tokens, pos + 3) matches Some(t) && t is Number),
    ensures
        top_level(tokens, table, pos).table == table,
        precedence_of(top_level(tokens, table, pos).table, op) == precedence_of(table, op),
{
    law_table_after_parse(tokens, table, pos);
}

} // verus!
