//! The grammar of the language, as functions on token sequences.
//!
//! Each production reads the tokens from a position on and gives either the
//! tree it recognised with the position after it, or the first error met.
//! Productions commit on the token at hand and never go back. Binary
//! operators are resolved by precedence climbing over a table from operator
//! character to precedence; an operator that the table lacks has precedence
//! `UNKNOWN_PRECEDENCE`.
//!
//! Wherever a production goes on from the position that another one reached,
//! it first tests that this position lies further on. The lemmas of
//! `progress` show that the test never fails; it is there so that the
//! definitions are seen to terminate.
//!
//! The productions are opaque: a proof that needs the body of one reveals
//! it.

use crate::error::ParseError;
use crate::lexer::TokenView;
use crate::number::{integer_part, saturated};
use vstd::prelude::*;

verus! {

/// What an `Expr` stands for: the same tree over character sequences.
pub ghost enum ExprView {
    Binary { op: char, left: Box<ExprView>, right: Box<ExprView> },
    Call { fn_name: Seq<char>, args: Seq<ExprView> },
    Conditional { cond: Box<ExprView>, consequence: Box<ExprView>, alternative: Box<ExprView> },
    For {
        var_name: Seq<char>,
        start: Box<ExprView>,
        end: Box<ExprView>,
        step: Option<Box<ExprView>>,
        body: Box<ExprView>,
    },
    Number(Seq<char>),
    Variable(Seq<char>),
    VarIn { variables: Seq<(Seq<char>, Option<ExprView>)>, body: Box<ExprView> },
}

/// What a `Prototype` stands for.
pub ghost struct PrototypeView {
    pub name: Seq<char>,
    pub args: Seq<Seq<char>>,
    pub is_op: bool,
    pub prec: usize,
}

/// What a `Function` stands for.
pub ghost struct FunctionView {
    pub prototype: PrototypeView,
    pub body: Option<ExprView>,
    pub is_anon: bool,
}

/// The precedence of an operator that the table does not hold.
pub const UNKNOWN_PRECEDENCE: i32 = 100;

/// The precedences of the built-in operators.
pub open spec fn builtin_table() -> Map<u32, i32> {
    map![
        '=' as u32 => 2i32,
        '<' as u32 => 10i32,
        '+' as u32 => 20i32,
        '-' as u32 => 20i32,
        '*' as u32 => 40i32,
        '/' as u32 => 40i32,
    ]
}

/// The token at `pos`, if there is one.
pub open spec fn token_at(tokens: Seq<TokenView>, pos: nat) -> Option<TokenView> {
    if pos < tokens.len() {
        Some(tokens[pos as int])
    } else {
        None
    }
}

/// The precedence that `table` gives to the operator `op`.
pub open spec fn precedence_of(table: Map<u32, i32>, op: char) -> int {
    if table.contains_key(op as u32) {
        table[op as u32] as int
    } else {
        UNKNOWN_PRECEDENCE as int
    }
}

/// The precedence of the token at `pos`: that of its operator, and `-1` where
/// there is no operator.
pub open spec fn precedence_at(tokens: Seq<TokenView>, table: Map<u32, i32>, pos: nat) -> int {
    match token_at(tokens, pos) {
        Some(TokenView::Op(op)) => precedence_of(table, op),
        _ => -1,
    }
}

/// The name of the function that the prefix operator `op` calls.
pub open spec fn unary_name(op: char) -> Seq<char> {
    "unary"@.push(op)
}

/// The name of the function that the infix operator `op` calls.
pub open spec fn binary_name(op: char) -> Seq<char> {
    "binary"@.push(op)
}

/// The name given to the function that wraps a bare expression.
pub open spec fn anonymous_name() -> Seq<char> {
    "anonymous"@
}

/// The precedence that a number literal states in an operator declaration:
/// the integer part of its value, held at the largest `usize`.
pub open spec fn stated_precedence(text: Seq<char>) -> usize {
    saturated(integer_part(text))
}

/// An expression: a unary expression, continued by binary operators of any
/// precedence from zero up.
#[verifier::opaque]
pub open spec fn expr(tokens: Seq<TokenView>, table: Map<u32, i32>, pos: nat) -> Result<
    (ExprView, nat),
    ParseError,
>
    decreases tokens.len() - pos, 3int,
{
    match unary(tokens, table, pos) {
        Ok((left, p)) => if pos < p <= tokens.len() {
            binary(tokens, table, 0, left, p)
        } else {
            Err(ParseError::UnexpectedEof)
        },
        Err(e) => Err(e),
    }
}

/// A unary expression: a primary expression, or an operator character in
/// front of a unary expression, which stands for a call of `unary_name`.
#[verifier::opaque]
pub open spec fn unary(tokens: Seq<TokenView>, table: Map<u32, i32>, pos: nat) -> Result<
    (ExprView, nat),
    ParseError,
>
    decreases tokens.len() - pos, 2int,
{
    match token_at(tokens, pos) {
        None => Err(ParseError::UnexpectedEof),
        Some(TokenView::Op(op)) => if pos + 1 >= tokens.len() {
            Err(ParseError::UnexpectedEof)
        } else {
            match unary(tokens, table, pos + 1) {
                Ok((operand, p)) => Ok(
                    (ExprView::Call { fn_name: unary_name(op), args: seq![operand] }, p),
                ),
                Err(e) => Err(e),
            }
        },
        Some(_) => primary(tokens, table, pos),
    }
}

/// The binary operators that follow `left`, as far as their precedence is at
/// least `min_prec`. An operator takes its right operand together with all
/// operators after it that bind tighter, so that equal precedences group to
/// the left.
#[verifier::opaque]
pub open spec fn binary(
    tokens: Seq<TokenView>,
    table: Map<u32, i32>,
    min_prec: int,
    left: ExprView,
    pos: nat,
) -> Result<(ExprView, nat), ParseError>
    decreases tokens.len() - pos, 0int,
{
    let current = precedence_at(tokens, table, pos);
    if current < min_prec || pos >= tokens.len() {
        Ok((left, pos))
    } else {
        match token_at(tokens, pos) {
            Some(TokenView::Op(op)) => if pos + 1 >= tokens.len() {
                Err(ParseError::UnexpectedEof)
            } else {
                match unary(tokens, table, pos + 1) {
                    Err(e) => Err(e),
                    Ok((operand, p)) => {
                        let right = if current < precedence_at(tokens, table, p) {
                            if pos < p <= tokens.len() {
                                binary(tokens, table, current + 1, operand, p)
                            } else {
                                Err(ParseError::UnexpectedEof)
                            }
                        } else {
                            Ok((operand, p))
                        };
                        match right {
                            Err(e) => Err(e),
                            Ok((right, q)) => if pos < q <= tokens.len() {
                                binary(
                                    tokens,
                                    table,
                                    min_prec,
                                    ExprView::Binary {
                                        op,
                                        left: Box::new(left),
                                        right: Box::new(right),
                                    },
                                    q,
                                )
                            } else {
                                Err(ParseError::UnexpectedEof)
                            },
                        }
                    },
                }
            },
            _ => Err(ParseError::InvalidOperator),
        }
    }
}

/// A primary expression, chosen by the token at hand: an identifier, a number
/// literal, a parenthesized expression, a conditional, a loop, or local
/// bindings.
#[verifier::opaque]
pub open spec fn primary(tokens: Seq<TokenView>, table: Map<u32, i32>, pos: nat) -> Result<
    (ExprView, nat),
    ParseError,
>
    decreases tokens.len() - pos, 1int,
{
    match token_at(tokens, pos) {
        None => Err(ParseError::UnexpectedEof),
        Some(TokenView::Ident(_)) => identifier(tokens, table, pos),
        Some(TokenView::Number(_)) => number(tokens, pos),
        Some(TokenView::LParen) => paren(tokens, table, pos),
        Some(TokenView::If) => conditional(tokens, table, pos),
        Some(TokenView::For) => for_loop(tokens, table, pos),
        Some(TokenView::Var) => var_in(tokens, table, pos),
        Some(_) => Err(ParseError::UnknownExpression),
    }
}

/// `primary` is the production that the token at hand selects.
pub proof fn lemma_primary(tokens: Seq<TokenView>, table: Map<u32, i32>, pos: nat)
    ensures
        primary(tokens, table, pos) == match token_at(tokens, pos) {
            None => Err(ParseError::UnexpectedEof),
            Some(TokenView::Ident(_)) => identifier(tokens, table, pos),
            Some(TokenView::Number(_)) => number(tokens, pos),
            Some(TokenView::LParen) => paren(tokens, table, pos),
            Some(TokenView::If) => conditional(tokens, table, pos),
            Some(TokenView::For) => for_loop(tokens, table, pos),
            Some(TokenView::Var) => var_in(tokens, table, pos),
            Some(_) => Err(ParseError::UnknownExpression),
        },
{
    reveal(primary);
    reveal(identifier);
    reveal(paren);
    reveal(conditional);
    reveal(for_loop);
    reveal(var_in);
}

/// A number literal.
pub open spec fn number(tokens: Seq<TokenView>, pos: nat) -> Result<(ExprView, nat), ParseError> {
    match token_at(tokens, pos) {
        None => Err(ParseError::UnexpectedEof),
        Some(TokenView::Number(text)) => Ok((ExprView::Number(text), pos + 1)),
        Some(_) => Err(ParseError::ExpectedNumber),
    }
}

/// A variable, or a call where `(` follows the identifier: the arguments are
/// expressions separated by `,`, which may be none, up to the closing `)`.
/// The call ends after its `)`.
#[verifier::opaque]
pub open spec fn identifier(tokens: Seq<TokenView>, table: Map<u32, i32>, pos: nat) -> Result<
    (ExprView, nat),
    ParseError,
>
    decreases tokens.len() - pos, 0int,
{
    match token_at(tokens, pos) {
        None => Err(ParseError::UnexpectedEof),
        Some(TokenView::Ident(name)) => match token_at(tokens, pos + 1) {
            Some(TokenView::LParen) => if pos + 2 >= tokens.len() {
                Err(ParseError::UnexpectedEof)
            } else if token_at(tokens, pos + 2) == Some(TokenView::RParen) {
                Ok((ExprView::Call { fn_name: name, args: Seq::empty() }, pos + 3))
            } else {
                match arguments(tokens, table, pos + 2, Seq::empty()) {
                    Ok((args, p)) => Ok((ExprView::Call { fn_name: name, args }, p)),
                    Err(e) => Err(e),
                }
            },
            _ => Ok((ExprView::Variable(name), pos + 1)),
        },
        Some(_) => Err(ParseError::ExpectedIdentifier),
    }
}

/// The arguments of a call from `pos` on, after those in `done`, and the
/// position after the closing `)`.
#[verifier::opaque]
pub open spec fn arguments(
    tokens: Seq<TokenView>,
    table: Map<u32, i32>,
    pos: nat,
    done: Seq<ExprView>,
) -> Result<(Seq<ExprView>, nat), ParseError>
    decreases tokens.len() - pos, 4int,
{
    match expr(tokens, table, pos) {
        Err(e) => Err(e),
        Ok((arg, p)) => match token_at(tokens, p) {
            None => Err(ParseError::UnexpectedEof),
            Some(TokenView::RParen) => Ok((done.push(arg), p + 1)),
            Some(TokenView::Comma) => if p + 1 >= tokens.len() || p < pos {
                Err(ParseError::UnexpectedEof)
            } else {
                arguments(tokens, table, p + 1, done.push(arg))
            },
            Some(_) => Err(ParseError::ExpectedArgumentSeparator),
        },
    }
}

/// An expression between `(` and `)`.
#[verifier::opaque]
pub open spec fn paren(tokens: Seq<TokenView>, table: Map<u32, i32>, pos: nat) -> Result<
    (ExprView, nat),
    ParseError,
>
    decreases tokens.len() - pos, 0int,
{
    match token_at(tokens, pos) {
        None => Err(ParseError::UnexpectedEof),
        Some(TokenView::LParen) => if pos + 1 >= tokens.len() {
            Err(ParseError::UnexpectedEof)
        } else {
            match expr(tokens, table, pos + 1) {
                Err(e) => Err(e),
                Ok((inner, p)) => match token_at(tokens, p) {
                    None => Err(ParseError::UnexpectedEof),
                    Some(TokenView::RParen) => Ok((inner, p + 1)),
                    Some(_) => Err(ParseError::ExpectedClosingParen),
                },
            }
        },
        Some(_) => Err(ParseError::ExpectedOpeningParen),
    }
}

/// One branch of a conditional: its keyword, `then` for the first branch and
/// `else` for the second, and an expression.
#[verifier::opaque]
pub open spec fn branch(
    tokens: Seq<TokenView>,
    table: Map<u32, i32>,
    pos: nat,
    first: bool,
) -> Result<(ExprView, nat), ParseError>
    decreases tokens.len() - pos, 4int,
{
    if first && token_at(tokens, pos) != Some(TokenView::Then) {
        Err(ParseError::ExpectedThen)
    } else if !first && token_at(tokens, pos) != Some(TokenView::Else) {
        Err(ParseError::ExpectedElse)
    } else if pos + 1 >= tokens.len() {
        Err(ParseError::UnexpectedEof)
    } else {
        expr(tokens, table, pos + 1)
    }
}

/// `if` condition `then` expression `else` expression, read from the `if`.
/// Both branches are required.
#[verifier::opaque]
pub open spec fn conditional(tokens: Seq<TokenView>, table: Map<u32, i32>, pos: nat) -> Result<
    (ExprView, nat),
    ParseError,
>
    decreases tokens.len() - pos, 0int,
{
    if pos + 1 >= tokens.len() {
        Err(ParseError::UnexpectedEof)
    } else {
        match expr(tokens, table, pos + 1) {
            Err(e) => Err(e),
            Ok((cond, p)) => if p <= pos || p > tokens.len() {
                Err(ParseError::UnexpectedEof)
            } else {
                match branch(tokens, table, p, true) {
                    Err(e) => Err(e),
                    Ok((consequence, q)) => if q <= pos || q > tokens.len() {
                        Err(ParseError::UnexpectedEof)
                    } else {
                        match branch(tokens, table, q, false) {
                            Err(e) => Err(e),
                            Ok((alternative, r)) => Ok(
                                (
                                    ExprView::Conditional {
                                        cond: Box::new(cond),
                                        consequence: Box::new(consequence),
                                        alternative: Box::new(alternative),
                                    },
                                    r,
                                ),
                            ),
                        }
                    },
                }
            },
        }
    }
}

/// The optional step of a loop, read at the token after the end value: `,`
/// and an expression, or nothing.
#[verifier::opaque]
pub open spec fn loop_step(tokens: Seq<TokenView>, table: Map<u32, i32>, pos: nat) -> Result<
    (Option<Box<ExprView>>, nat),
    ParseError,
>
    decreases tokens.len() - pos, 4int,
{
    match token_at(tokens, pos) {
        None => Err(ParseError::UnexpectedEof),
        Some(TokenView::Comma) => if pos + 1 >= tokens.len() {
            Err(ParseError::UnexpectedEof)
        } else {
            match expr(tokens, table, pos + 1) {
                Err(e) => Err(e),
                Ok((step, p)) => Ok((Some(Box::new(step)), p)),
            }
        },
        Some(_) => Ok((None, pos)),
    }
}

/// The head of a loop, read from the `for`: the keyword, the loop variable
/// and `=`. Gives the variable and the position of the token after the `=`,
/// which exists.
#[verifier::opaque]
pub open spec fn loop_header(tokens: Seq<TokenView>, pos: nat) -> Result<
    (Seq<char>, nat),
    ParseError,
> {
    if pos + 1 >= tokens.len() {
        Err(ParseError::UnexpectedEof)
    } else {
        match token_at(tokens, pos + 1) {
            Some(TokenView::Ident(var_name)) => if pos + 2 >= tokens.len() {
                Err(ParseError::UnexpectedEof)
            } else if token_at(tokens, pos + 2) != Some(TokenView::Op('=')) {
                Err(ParseError::ExpectedLoopAssignment)
            } else if pos + 3 >= tokens.len() {
                Err(ParseError::UnexpectedEof)
            } else {
                Ok((var_name, pos + 3))
            },
            _ => Err(ParseError::ExpectedLoopVariable),
        }
    }
}

/// The range of a loop: the start value, `,` and the end value.
#[verifier::opaque]
pub open spec fn loop_range(tokens: Seq<TokenView>, table: Map<u32, i32>, pos: nat) -> Result<
    ((ExprView, ExprView), nat),
    ParseError,
>
    decreases tokens.len() - pos, 4int,
{
    match expr(tokens, table, pos) {
        Err(e) => Err(e),
        Ok((start, p)) => match token_at(tokens, p) {
            None => Err(ParseError::UnexpectedEof),
            Some(TokenView::Comma) => if p + 1 >= tokens.len() || p < pos {
                Err(ParseError::UnexpectedEof)
            } else {
                match expr(tokens, table, p + 1) {
                    Err(e) => Err(e),
                    Ok((end, q)) => Ok(((start, end), q)),
                }
            },
            Some(_) => Err(ParseError::ExpectedLoopSeparator),
        },
    }
}

/// The rest of a loop behind its range: the optional step, `in` and the
/// body.
#[verifier::opaque]
pub open spec fn loop_tail(tokens: Seq<TokenView>, table: Map<u32, i32>, pos: nat) -> Result<
    ((Option<Box<ExprView>>, ExprView), nat),
    ParseError,
>
    decreases tokens.len() - pos, 5int,
{
    match loop_step(tokens, table, pos) {
        Err(e) => Err(e),
        Ok((step, p)) => match token_at(tokens, p) {
            None => Err(ParseError::UnexpectedEof),
            Some(TokenView::In) => if p + 1 >= tokens.len() || p < pos {
                Err(ParseError::UnexpectedEof)
            } else {
                match expr(tokens, table, p + 1) {
                    Err(e) => Err(e),
                    Ok((body, q)) => Ok(((step, body), q)),
                }
            },
            Some(_) => Err(ParseError::ExpectedLoopIn),
        },
    }
}

/// `for` identifier `=` start `,` end, optionally `,` step, then `in` and the
/// body, read from the `for`.
#[verifier::opaque]
pub open spec fn for_loop(tokens: Seq<TokenView>, table: Map<u32, i32>, pos: nat) -> Result<
    (ExprView, nat),
    ParseError,
>
    decreases tokens.len() - pos, 0int,
{
    match loop_header(tokens, pos) {
        Err(e) => Err(e),
        Ok((var_name, p)) => if p <= pos || p >= tokens.len() {
            Err(ParseError::UnexpectedEof)
        } else {
            match loop_range(tokens, table, p) {
                Err(e) => Err(e),
                Ok(((start, end), q)) => if q <= pos || q > tokens.len() {
                    Err(ParseError::UnexpectedEof)
                } else {
                    match loop_tail(tokens, table, q) {
                        Err(e) => Err(e),
                        Ok(((step, body), r)) => Ok(
                            (
                                ExprView::For {
                                    var_name,
                                    start: Box::new(start),
                                    end: Box::new(end),
                                    step,
                                    body: Box::new(body),
                                },
                                r,
                            ),
                        ),
                    }
                },
            }
        },
    }
}

/// The optional initial value of a binding, read at the token after its
/// name: `=` and an expression, or nothing.
#[verifier::opaque]
pub open spec fn initializer(tokens: Seq<TokenView>, table: Map<u32, i32>, pos: nat) -> Result<
    (Option<ExprView>, nat),
    ParseError,
>
    decreases tokens.len() - pos, 4int,
{
    if token_at(tokens, pos) == Some(TokenView::Op('=')) {
        if pos + 1 >= tokens.len() {
            Err(ParseError::UnexpectedEof)
        } else {
            match expr(tokens, table, pos + 1) {
                Err(e) => Err(e),
                Ok((value, p)) => Ok((Some(value), p)),
            }
        }
    } else {
        Ok((None, pos))
    }
}

/// One binding of a `var`: an identifier and its optional initial value.
#[verifier::opaque]
pub open spec fn binding(tokens: Seq<TokenView>, table: Map<u32, i32>, pos: nat) -> Result<
    ((Seq<char>, Option<ExprView>), nat),
    ParseError,
>
    decreases tokens.len() - pos, 4int,
{
    match token_at(tokens, pos) {
        None => Err(ParseError::UnexpectedEof),
        Some(TokenView::Ident(name)) => if pos + 1 >= tokens.len() {
            Err(ParseError::UnexpectedEof)
        } else {
            match initializer(tokens, table, pos + 1) {
                Err(e) => Err(e),
                Ok((value, p)) => Ok(((name, value), p)),
            }
        },
        Some(_) => Err(ParseError::ExpectedBinding),
    }
}

/// The bindings of a `var` from `pos` on, after those in `done`, and the
/// position after the `in` that closes them. Bindings are separated by `,`.
#[verifier::opaque]
pub open spec fn bindings(
    tokens: Seq<TokenView>,
    table: Map<u32, i32>,
    pos: nat,
    done: Seq<(Seq<char>, Option<ExprView>)>,
) -> Result<(Seq<(Seq<char>, Option<ExprView>)>, nat), ParseError>
    decreases tokens.len() - pos, 5int,
{
    match binding(tokens, table, pos) {
        Err(e) => Err(e),
        Ok((bound, p)) => match token_at(tokens, p) {
            None => Err(ParseError::UnexpectedEof),
            Some(TokenView::Comma) => if p + 1 >= tokens.len() || p < pos {
                Err(ParseError::UnexpectedEof)
            } else {
                bindings(tokens, table, p + 1, done.push(bound))
            },
            Some(TokenView::In) => if p + 1 >= tokens.len() {
                Err(ParseError::UnexpectedEof)
            } else {
                Ok((done.push(bound), p + 1))
            },
            Some(_) => Err(ParseError::ExpectedBindingSeparator),
        },
    }
}

/// `var` bindings `in` body, read from the `var`.
#[verifier::opaque]
pub open spec fn var_in(tokens: Seq<TokenView>, table: Map<u32, i32>, pos: nat) -> Result<
    (ExprView, nat),
    ParseError,
>
    decreases tokens.len() - pos, 0int,
{
    if pos + 1 >= tokens.len() {
        Err(ParseError::UnexpectedEof)
    } else {
        match bindings(tokens, table, pos + 1, Seq::empty()) {
            Err(e) => Err(e),
            Ok((variables, p)) => if p <= pos || p > tokens.len() {
                Err(ParseError::UnexpectedEof)
            } else {
                match expr(tokens, table, p) {
                    Err(e) => Err(e),
                    Ok((body, q)) => Ok((ExprView::VarIn { variables, body: Box::new(body) }, q)),
                }
            },
        }
    }
}

/// The head of a prototype: what is declared, before the parameter list.
pub ghost struct PrototypeHead {
    pub name: Seq<char>,
    pub is_op: bool,
    pub prec: usize,
    /// The operator and precedence to enter into the table, if the head
    /// declares a binary operator and states its precedence.
    pub entry: Option<(char, usize)>,
}

/// The head of a prototype at `pos`, and the position of the token after it,
/// which exists. The head is an identifier, or `unary` and an operator
/// character, or `binary`, an operator character and optionally a number
/// literal that states the operator's precedence. Without the literal the
/// prototype has precedence zero and nothing is to enter into the table.
#[verifier::opaque]
pub open spec fn prototype_head(tokens: Seq<TokenView>, pos: nat) -> Result<
    (PrototypeHead, nat),
    ParseError,
> {
    match token_at(tokens, pos) {
        None => Err(ParseError::UnexpectedEof),
        Some(TokenView::Ident(name)) => if pos + 1 >= tokens.len() {
            Err(ParseError::UnexpectedEof)
        } else {
            Ok((PrototypeHead { name, is_op: false, prec: 0, entry: None }, pos + 1))
        },
        Some(TokenView::Binary) => if pos + 1 >= tokens.len() {
            Err(ParseError::UnexpectedEof)
        } else {
            match token_at(tokens, pos + 1) {
                Some(TokenView::Op(op)) => if pos + 2 >= tokens.len() {
                    Err(ParseError::UnexpectedEof)
                } else {
                    match token_at(tokens, pos + 2) {
                        Some(TokenView::Number(text)) => if pos + 3 >= tokens.len() {
                            Err(ParseError::UnexpectedEof)
                        } else {
                            Ok(
                                (
                                    PrototypeHead {
                                        name: binary_name(op),
                                        is_op: true,
                                        prec: stated_precedence(text),
                                        entry: Some((op, stated_precedence(text))),
                                    },
                                    pos + 3,
                                ),
                            )
                        },
                        _ => Ok(
                            (
                                PrototypeHead {
                                    name: binary_name(op),
                                    is_op: true,
                                    prec: 0,
                                    entry: None,
                                },
                                pos + 2,
                            ),
                        ),
                    }
                },
                _ => Err(ParseError::ExpectedOperator),
            }
        },
        Some(TokenView::Unary) => if pos + 1 >= tokens.len() {
            Err(ParseError::UnexpectedEof)
        } else {
            match token_at(tokens, pos + 1) {
                Some(TokenView::Op(op)) => if pos + 2 >= tokens.len() {
                    Err(ParseError::UnexpectedEof)
                } else {
                    Ok(
                        (
                            PrototypeHead {
                                name: unary_name(op),
                                is_op: true,
                                prec: 0,
                                entry: None,
                            },
                            pos + 2,
                        ),
                    )
                },
                _ => Err(ParseError::ExpectedOperator),
            }
        },
        Some(_) => Err(ParseError::ExpectedPrototypeName),
    }
}

/// The parameter names of a prototype from `pos` on, after those in `done`,
/// and the position after the closing `)`. Names are separated by `,`.
#[verifier::opaque]
pub open spec fn parameters(tokens: Seq<TokenView>, pos: nat, done: Seq<Seq<char>>) -> Result<
    (Seq<Seq<char>>, nat),
    ParseError,
>
    decreases tokens.len() - pos,
{
    match token_at(tokens, pos) {
        None => Err(ParseError::UnexpectedEof),
        Some(TokenView::Ident(name)) => if pos + 1 >= tokens.len() {
            Err(ParseError::UnexpectedEof)
        } else {
            match token_at(tokens, pos + 1) {
                Some(TokenView::RParen) => Ok((done.push(name), pos + 2)),
                Some(TokenView::Comma) => parameters(tokens, pos + 2, done.push(name)),
                _ => Err(ParseError::ExpectedParameterSeparator),
            }
        },
        Some(_) => Err(ParseError::ExpectedParameter),
    }
}

/// A prototype at `pos`: its head, `(`, the parameter names, which may be
/// none, and `)`.
#[verifier::opaque]
pub open spec fn prototype(tokens: Seq<TokenView>, pos: nat) -> Result<
    (PrototypeView, nat),
    ParseError,
> {
    match prototype_head(tokens, pos) {
        Err(e) => Err(e),
        Ok((head, p)) => if token_at(tokens, p) != Some(TokenView::LParen) {
            Err(ParseError::ExpectedPrototypeParen)
        } else if p + 1 >= tokens.len() {
            Err(ParseError::UnexpectedEof)
        } else if token_at(tokens, p + 1) == Some(TokenView::RParen) {
            Ok(
                (
                    PrototypeView {
                        name: head.name,
                        args: Seq::empty(),
                        is_op: head.is_op,
                        prec: head.prec,
                    },
                    p + 2,
                ),
            )
        } else {
            match parameters(tokens, p + 1, Seq::empty()) {
                Err(e) => Err(e),
                Ok((args, q)) => Ok(
                    (
                        PrototypeView {
                            name: head.name,
                            args,
                            is_op: head.is_op,
                            prec: head.prec,
                        },
                        q,
                    ),
                ),
            }
        },
    }
}

/// The table once the prototype at `pos` has been read: where its head
/// declares a binary operator and states its precedence, the operator is
/// entered with that precedence, cut to an `i32`, in place of any earlier
/// entry. The entry is made as soon as the head is read, whatever follows.
/// Any other head leaves the table as it was.
pub open spec fn table_after_prototype(
    tokens: Seq<TokenView>,
    table: Map<u32, i32>,
    pos: nat,
) -> Map<u32, i32> {
    match prototype_head(tokens, pos) {
        Ok((head, _)) => match head.entry {
            Some((op, prec)) => table.insert(op as u32, prec as i32),
            None => table,
        },
        Err(_) => table,
    }
}

/// What parsing one top-level item gives: the item or the error, and the
/// precedence table afterwards.
pub ghost struct Outcome {
    pub result: Result<FunctionView, ParseError>,
    pub table: Map<u32, i32>,
}

/// The prototype of the function that wraps a bare expression.
pub open spec fn anonymous_prototype() -> PrototypeView {
    PrototypeView { name: anonymous_name(), args: Seq::empty(), is_op: false, prec: 0 }
}

/// The item `item` if it reached the end of the tokens at `end`, and the
/// error for left-over tokens otherwise.
pub open spec fn complete(tokens: Seq<TokenView>, item: FunctionView, end: nat) -> Result<
    FunctionView,
    ParseError,
> {
    if end < tokens.len() {
        Err(ParseError::UnexpectedToken)
    } else {
        Ok(item)
    }
}

/// One top-level item, read from `pos`, which must take up all tokens:
///
/// - after `def`, a prototype and the expression that is its body;
/// - after the keyword for external declarations, a prototype alone;
/// - otherwise an expression, wrapped into an anonymous function.
///
/// The body of a definition is read with the table as its prototype left it.
#[verifier::opaque]
pub open spec fn top_level(tokens: Seq<TokenView>, table: Map<u32, i32>, pos: nat) -> Outcome {
    match token_at(tokens, pos) {
        None => Outcome { result: Err(ParseError::UnexpectedEof), table },
        Some(TokenView::Def) => {
            let declared = table_after_prototype(tokens, table, pos + 1);
            let result = match prototype(tokens, pos + 1) {
                Err(e) => Err(e),
                Ok((prototype, p)) => match expr(tokens, declared, p) {
                    Err(e) => Err(e),
                    Ok((body, q)) => complete(
                        tokens,
                        FunctionView { prototype, body: Some(body), is_anon: false },
                        q,
                    ),
                },
            };
            Outcome { result, table: declared }
        },
        Some(TokenView::Extern) => {
            let declared = table_after_prototype(tokens, table, pos + 1);
            let result = match prototype(tokens, pos + 1) {
                Err(e) => Err(e),
                Ok((prototype, p)) => complete(
                    tokens,
                    FunctionView { prototype, body: None, is_anon: false },
                    p,
                ),
            };
            Outcome { result, table: declared }
        },
        Some(_) => {
            let result = match expr(tokens, table, pos) {
                Err(e) => Err(e),
                Ok((body, p)) => complete(
                    tokens,
                    FunctionView {
                        prototype: anonymous_prototype(),
                        body: Some(body),
                        is_anon: true,
                    },
                    p,
                ),
            };
            Outcome { result, table }
        },
    }
}

} // verus!
