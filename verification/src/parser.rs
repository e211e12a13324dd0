//! The parser: from source text to one top-level item.
//!
//! `Parser` lexes its whole input when it is made, drops the comments, and
//! then walks the tokens with a cursor. Every method computes the production
//! of the same name in `grammar`, and says so in its contract.

pub use crate::error::ParseError;
use crate::grammar::{
    anonymous_prototype, arguments, binary, binding, bindings, branch, builtin_table, conditional,
    expr, for_loop, identifier, initializer, lemma_primary, loop_header, loop_range, loop_step,
    loop_tail, number, parameters, paren, precedence_at, primary, prototype, prototype_head,
    table_after_prototype, token_at, top_level, unary, var_in, ExprView, FunctionView,
    PrototypeView, UNKNOWN_PRECEDENCE,
};
use crate::lexer::{
    all_well_formed, code_tokens, is_lexable, lemma_next_lexeme, lexable_from, token_views,
    Lexer, Token, TokenView,
};
use crate::literals::{law_literals_of_a_parse, literals_well_formed};
use crate::number::integer_part_of;
use crate::progress::{
    lemma_binary_progress, lemma_binding_progress, lemma_bindings_progress, lemma_branch_progress,
    lemma_expr_progress, lemma_for_loop_progress, lemma_loop_range_progress,
    lemma_loop_step_progress, lemma_prototype_progress, lemma_unary_progress,
};
use crate::text::{chars_of, push_char};
use std::collections::HashMap;
use vstd::prelude::*;
use vstd::string::StringExecFns;

verus! {

/// An expression of the language.
#[derive(Debug, PartialEq)]
pub enum Expr {
    Binary { op: char, left: Box<Expr>, right: Box<Expr> },
    Call { fn_name: String, args: Vec<Expr> },
    Conditional { cond: Box<Expr>, consequence: Box<Expr>, alternative: Box<Expr> },
    For {
        var_name: String,
        start: Box<Expr>,
        end: Box<Expr>,
        step: Option<Box<Expr>>,
        body: Box<Expr>,
    },
    /// A number literal, as the text that was written.
    Number(String),
    Variable(String),
    VarIn { variables: Vec<(String, Option<Expr>)>, body: Box<Expr> },
}

/// The name and parameters of a function, and whether it defines an operator.
#[derive(Debug, PartialEq)]
pub struct Prototype {
    pub name: String,
    pub args: Vec<String>,
    pub is_op: bool,
    pub prec: usize,
}

/// A definition, an external declaration, or a bare expression wrapped into
/// an anonymous function.
#[derive(Debug, PartialEq)]
pub struct Function {
    pub prototype: Prototype,
    pub body: Option<Expr>,
    pub is_anon: bool,
}

impl Expr {
    /// The tree that this expression stands for.
    #[verifier::opaque]
    pub open spec fn tree(&self) -> ExprView
        decreases self,
    {
        match self {
            Expr::Binary { op, left, right } => ExprView::Binary {
                op: *op,
                left: Box::new(left.tree()),
                right: Box::new(right.tree()),
            },
            Expr::Call { fn_name, args } => ExprView::Call {
                fn_name: fn_name@,
                args: Seq::new(
                    args.len() as nat,
                    |i: int|
                        if 0 <= i < args.len() {
                            args[i].tree()
                        } else {
                            ExprView::Number(Seq::empty())
                        },
                ),
            },
            Expr::Conditional { cond, consequence, alternative } => ExprView::Conditional {
                cond: Box::new(cond.tree()),
                consequence: Box::new(consequence.tree()),
                alternative: Box::new(alternative.tree()),
            },
            Expr::For { var_name, start, end, step, body } => ExprView::For {
                var_name: var_name@,
                start: Box::new(start.tree()),
                end: Box::new(end.tree()),
                step: match step {
                    Some(s) => Some(Box::new(s.tree())),
                    None => None,
                },
                body: Box::new(body.tree()),
            },
            Expr::Number(text) => ExprView::Number(text@),
            Expr::Variable(name) => ExprView::Variable(name@),
            Expr::VarIn { variables, body } => ExprView::VarIn {
                variables: Seq::new(
                    variables.len() as nat,
                    |i: int|
                        if 0 <= i < variables.len() {
                            (
                                variables[i].0@,
                                match variables[i].1 {
                                    Some(e) => Some(e.tree()),
                                    None => None,
                                },
                            )
                        } else {
                            (Seq::empty(), None)
                        },
                ),
                body: Box::new(body.tree()),
            },
        }
    }
}

impl View for Expr {
    type V = ExprView;

    open spec fn view(&self) -> ExprView {
        self.tree()
    }
}

/// The trees of a sequence of expressions, in order.
pub open spec fn expr_views(exprs: Seq<Expr>) -> Seq<ExprView> {
    Seq::new(exprs.len(), |i: int| exprs[i]@)
}

/// What one binding stands for.
pub open spec fn binding_view(binding: (String, Option<Expr>)) -> (Seq<char>, Option<ExprView>) {
    (
        binding.0@,
        match binding.1 {
            Some(e) => Some(e@),
            None => None,
        },
    )
}

/// What a sequence of bindings stands for.
pub open spec fn binding_views(bindings: Seq<(String, Option<Expr>)>) -> Seq<
    (Seq<char>, Option<ExprView>),
> {
    Seq::new(bindings.len(), |i: int| binding_view(bindings[i]))
}

/// The character sequences of a sequence of strings, in order.
pub open spec fn string_views(strings: Seq<String>) -> Seq<Seq<char>> {
    Seq::new(strings.len(), |i: int| strings[i]@)
}

impl View for Prototype {
    type V = PrototypeView;

    open spec fn view(&self) -> PrototypeView {
        PrototypeView {
            name: self.name@,
            args: string_views(self.args@),
            is_op: self.is_op,
            prec: self.prec,
        }
    }
}

impl View for Function {
    type V = FunctionView;

    open spec fn view(&self) -> FunctionView {
        FunctionView {
            prototype: self.prototype@,
            body: match self.body {
                Some(e) => Some(e@),
                None => None,
            },
            is_anon: self.is_anon,
        }
    }
}

/// Whether a method that returned `result` and left the cursor at `end` did
/// what the production `model` says: the same tree and end on success, the
/// same error on failure.
pub open spec fn produces(
    result: Result<Expr, ParseError>,
    end: usize,
    model: Result<(ExprView, nat), ParseError>,
) -> bool {
    match model {
        Ok((tree, p)) => result matches Ok(e) && e@ == tree && end == p,
        Err(error) => result matches Err(e) && e == error,
    }
}

/// Whether a parse that returned `result` did what `model` says.
pub open spec fn yields(
    result: Result<Function, ParseError>,
    model: Result<FunctionView, ParseError>,
) -> bool {
    match model {
        Ok(item) => result matches Ok(f) && f@ == item,
        Err(error) => result matches Err(e) && e == error,
    }
}

/// The name of the function that an operator calls: `prefix` and the
/// operator character.
fn operator_name(prefix: &str, op: char) -> (name: String)
    ensures
        name@ == prefix@.push(op),
{
    let mut name = String::from_str(prefix);
    push_char(&mut name, op);
    name
}

/// The table of the built-in operators: `=` has precedence 2, `<` has 10,
/// `+` and `-` have 20, `*` and `/` have 40.
pub fn builtin_precedence() -> (table: HashMap<u32, i32>)
    ensures
        table@ == builtin_table(),
{
    let mut table: HashMap<u32, i32> = HashMap::new();
    table.insert('=' as u32, 2);
    table.insert('<' as u32, 10);
    table.insert('+' as u32, 20);
    table.insert('-' as u32, 20);
    table.insert('*' as u32, 40);
    table.insert('/' as u32, 40);
    assert(table@ =~= builtin_table());
    table
}

/// Parses `input` as one top-level item under `table`, into which operator
/// declarations enter their precedences. The answer is `None`, and the table
/// untouched, where a number literal of `input` is not well formed. Every
/// number literal in an item that is given is well formed.
pub fn parse_source(input: String, table: &mut HashMap<u32, i32>) -> (answer: Option<
    Result<Function, ParseError>,
>)
    ensures
        match answer {
            None => !lexable_from(input@, 0) && *final(table) == *old(table),
            Some(result) => {
                let outcome = top_level(code_tokens(input@, 0), old(table)@, 0);
                &&& lexable_from(input@, 0)
                &&& yields(result, outcome.result)
                &&& final(table)@ == outcome.table
                &&& result matches Ok(item) ==> (item@.body matches Some(body)
                    ==> literals_well_formed(body))
            },
        },
{
    match Parser::try_new(input, table) {
        None => None,
        Some(parser) => {
            let mut parser = parser;
            proof {
                law_literals_of_a_parse(parser.views(), parser.table(), 0);
            }
            Some(parser.parse())
        },
    }
}

/// A parser over the tokens of one input, with a cursor and the precedence
/// table that it shares with its caller.
#[derive(Debug)]
pub struct Parser<'a> {
    /// The tokens of the input, comments left out.
    pub tokens: Vec<Token>,
    /// The index of the token at hand.
    pub pos: usize,
    /// The precedence of each binary operator, keyed by the code point of
    /// its character.
    pub prec: &'a mut HashMap<u32, i32>,
}

impl<'a> Parser<'a> {
    /// The tokens of this parser, as the grammar sees them.
    pub open spec fn views(&self) -> Seq<TokenView> {
        token_views(self.tokens@)
    }

    /// The precedence table as it stands.
    pub open spec fn table(&self) -> Map<u32, i32> {
        self.prec@
    }

    /// The position of the cursor.
    pub open spec fn cursor(&self) -> nat {
        self.pos as nat
    }

    /// Whether `self` and `other` hold the same tokens and the same table.
    pub open spec fn same_input(&self, other: &Self) -> bool {
        &&& self.tokens == other.tokens
        &&& self.prec == other.prec
    }

    /// A parser at the start of the tokens of `input`, comments left out,
    /// over the table `op_precedence`. Every number literal of `input` must
    /// be well formed, and then every token of the parser is.
    #[verifier::loop_isolation(false)]
    pub fn new(input: String, op_precedence: &'a mut HashMap<u32, i32>) -> (parser: Self)
        requires
            lexable_from(input@, 0),
        ensures
            parser.views() == code_tokens(input@, 0),
            all_well_formed(parser.views()),
            parser.pos == 0,
            *parser.prec == *old(op_precedence),
            *final(parser.prec) == *final(op_precedence),
    {
        let mut lexer = Lexer::new(input.as_str());
        let mut tokens: Vec<Token> = Vec::new();
        let mut done = false;
        assert(token_views(tokens@) =~= Seq::<TokenView>::empty());
        while !done
            invariant
                lexer.source() == input@,
                0 <= lexer.position() <= input@.len(),
                lexable_from(input@, lexer.position()),
                all_well_formed(token_views(tokens@)),
                !done ==> token_views(tokens@) + code_tokens(input@, lexer.position())
                    == code_tokens(input@, 0),
                done ==> token_views(tokens@) == code_tokens(input@, 0),
            decreases input@.len() - lexer.position(), (if done { 0int } else { 1int }),
        {
            let ghost before = lexer.position();
            let ghost sofar = token_views(tokens@);
            proof {
                lemma_next_lexeme(input@, before);
            }
            match lexer.next() {
                None => {
                    assert(sofar + Seq::<TokenView>::empty() =~= sofar);
                    done = true;
                },
                Some(Token::Comment) => {},
                Some(token) => {
                    tokens.push(token);
                    assert(token_views(tokens@) =~= sofar.push(token@));
                },
            }
        }
        Parser { tokens: tokens, prec: op_precedence, pos: 0 }
    }

    /// A parser as `new` makes it, where every number literal of `input` is
    /// well formed, and `None` otherwise.
    pub fn try_new(input: String, op_precedence: &'a mut HashMap<u32, i32>) -> (result: Option<
        Self,
    >)
        ensures
            match result {
                Some(parser) => {
                    &&& lexable_from(input@, 0)
                    &&& parser.views() == code_tokens(input@, 0)
                    &&& all_well_formed(parser.views())
                    &&& parser.pos == 0
                    &&& *parser.prec == *old(op_precedence)
                    &&& *final(parser.prec) == *final(op_precedence)
                },
                None => {
                    &&& !lexable_from(input@, 0)
                    &&& *final(op_precedence) == *old(op_precedence)
                },
            },
    {
        if is_lexable(input.as_str()) {
            Some(Parser::new(input, op_precedence))
        } else {
            None
        }
    }

    /// Parses one top-level item, which must take up all tokens from the
    /// cursor on. An operator declaration enters its precedence into the
    /// table, where it stays for later parses, whether or not this parse
    /// succeeds. `law_literals_of_a_parse` adds that the number literals of
    /// the item are well formed where those of the tokens are.
    pub fn parse(&mut self) -> (result: Result<Function, ParseError>)
        ensures
            yields(
                result,
                top_level(old(self).views(), old(self).table(), old(self).cursor()).result,
            ),
            final(self).table() == top_level(
                old(self).views(),
                old(self).table(),
                old(self).cursor(),
            ).table,
            *final(final(self).prec) == *final(old(self).prec),
            final(self).tokens == old(self).tokens,
            result is Ok ==> final(self).pos == final(self).tokens.len(),
    {
        proof {
            reveal(top_level);
            reveal(prototype);
            reveal(prototype_head);
            reveal(expr);
            let tokens = self.views();
            let table = self.table();
            let start = self.cursor();
            lemma_prototype_progress(tokens, start + 1);
            lemma_expr_progress(tokens, table, start);
            if let Ok((_, p)) = prototype(tokens, start + 1) {
                lemma_expr_progress(tokens, table_after_prototype(tokens, table, start + 1), p);
            }
        }
        let kind: u8 = match self.current() {
            None => {
                return Err(ParseError::UnexpectedEof);
            },
            Some(Token::Def) => 0,
            Some(Token::Extern) => 1,
            Some(_) => 2,
        };
        let result = if kind == 0 {
            self.parse_def()
        } else if kind == 1 {
            self.parse_extern()
        } else {
            self.parse_toplevel_expr()
        };
        match result {
            Ok(item) => {
                if !self.at_end() {
                    Err(ParseError::UnexpectedToken)
                } else {
                    Ok(item)
                }
            },
            Err(e) => Err(e),
        }
    }

    /// The token at the cursor, if there is one.
    fn current(&self) -> (token: Option<&Token>)
        ensures
            match token {
                Some(t) => self.pos < self.tokens.len() && token_at(self.views(), self.cursor())
                    == Some(t@),
                None => self.pos >= self.tokens.len() && token_at(self.views(), self.cursor())
                    is None,
            },
    {
        if self.pos < self.tokens.len() {
            Some(&self.tokens[self.pos])
        } else {
            None
        }
    }

    /// Moves the cursor past the token at hand, and fails if no token
    /// follows it.
    fn advance(&mut self) -> (result: Result<(), ParseError>)
        requires
            old(self).pos < old(self).tokens.len(),
        ensures
            final(self).same_input(old(self)),
            final(self).pos == old(self).pos + 1,
            result == if old(self).pos + 1 < old(self).tokens.len() {
                Ok::<(), ParseError>(())
            } else {
                Err::<(), ParseError>(ParseError::UnexpectedEof)
            },
    {
        let next = self.pos + 1;
        self.pos = next;
        if next < self.tokens.len() {
            Ok(())
        } else {
            Err(ParseError::UnexpectedEof)
        }
    }

    /// Whether the cursor has passed the last token.
    fn at_end(&self) -> (b: bool)
        ensures
            b == (self.pos >= self.tokens.len()),
    {
        self.pos >= self.tokens.len()
    }

    /// The precedence of the token at the cursor; `-1` if it is no operator.
    fn get_tok_precedence(&self) -> (p: i32)
        ensures
            p == precedence_at(self.views(), self.table(), self.cursor()),
    {
        match self.current() {
            Some(Token::Op(op)) => {
                let key: u32 = *op as u32;
                match self.prec.get(&key) {
                    Some(p) => *p,
                    None => UNKNOWN_PRECEDENCE,
                }
            },
            _ => -1,
        }
    }

    /// Reads the head of a prototype and, where it declares a binary
    /// operator and states its precedence, enters the operator with that
    /// precedence into the table.
    fn parse_prototype_head(&mut self) -> (result: Result<(String, bool, usize), ParseError>)
        ensures
            final(self).tokens == old(self).tokens,
            *final(final(self).prec) == *final(old(self).prec),
            final(self).table() == table_after_prototype(
                old(self).views(),
                old(self).table(),
                old(self).cursor(),
            ),
            match prototype_head(old(self).views(), old(self).cursor()) {
                Ok((head, p)) => {
                    &&& result matches Ok(found)
                    &&& found.0@ == head.name
                    &&& found.1 == head.is_op
                    &&& found.2 == head.prec
                    &&& final(self).pos == p
                },
                Err(error) => result matches Err(e) && e == error,
            },
    {
        proof {
            reveal(prototype_head);
        }
        let (is_binary, name) = match self.current() {
            None => {
                return Err(ParseError::UnexpectedEof);
            },
            Some(Token::Ident(id)) => (false, Some(id.clone())),
            Some(Token::Binary) => (true, None),
            Some(Token::Unary) => (false, None),
            Some(_) => {
                return Err(ParseError::ExpectedPrototypeName);
            },
        };
        match self.advance() {
            Ok(()) => {},
            Err(e) => {
                return Err(e);
            },
        }
        match name {
            Some(id) => {
                return Ok((id, false, 0));
            },
            None => {},
        }
        let op = match self.current() {
            Some(Token::Op(ch)) => *ch,
            _ => {
                return Err(ParseError::ExpectedOperator);
            },
        };
        match self.advance() {
            Ok(()) => {},
            Err(e) => {
                return Err(e);
            },
        }
        if !is_binary {
            return Ok((operator_name("unary", op), true, 0));
        }
        let name = operator_name("binary", op);
        let stated = match self.current() {
            Some(Token::Number(text)) => Some(integer_part_of(&chars_of(text.as_str()))),
            _ => None,
        };
        match stated {
            Some(prec) => {
                match self.advance() {
                    Ok(()) => {},
                    Err(e) => {
                        return Err(e);
                    },
                }
                let key: u32 = op as u32;
                #[verifier::truncate]
                let entry: i32 = prec as i32;
                self.prec.insert(key, entry);
                Ok((name, true, prec))
            },
            None => Ok((name, true, 0)),
        }
    }

    /// Parses a prototype, of a definition or of an external declaration.
    fn parse_prototype(&mut self) -> (result: Result<Prototype, ParseError>)
        ensures
            final(self).tokens == old(self).tokens,
            *final(final(self).prec) == *final(old(self).prec),
            final(self).table() == table_after_prototype(
                old(self).views(),
                old(self).table(),
                old(self).cursor(),
            ),
            match prototype(old(self).views(), old(self).cursor()) {
                Ok((proto, p)) => result matches Ok(found) && found@ == proto && final(self).pos
                    == p,
                Err(error) => result matches Err(e) && e == error,
            },
    {
        proof {
            reveal(prototype);
            reveal(prototype_head);
            reveal(parameters);
        }
        let ghost tokens = self.views();
        let ghost start = self.cursor();
        proof {
            lemma_prototype_progress(tokens, start);
        }
        let (id, is_operator, precedence) = match self.parse_prototype_head() {
            Ok(head) => head,
            Err(e) => {
                return Err(e);
            },
        };
        match self.current() {
            Some(Token::LParen) => {},
            _ => {
                return Err(ParseError::ExpectedPrototypeParen);
            },
        }
        match self.advance() {
            Ok(()) => {},
            Err(e) => {
                return Err(e);
            },
        }
        let closes = match self.current() {
            Some(Token::RParen) => true,
            _ => false,
        };
        let args = if closes {
            let _ = self.advance();
            let args: Vec<String> = Vec::new();
            assert(string_views(args@) =~= Seq::<Seq<char>>::empty());
            args
        } else {
            match self.parse_parameters() {
                Ok(args) => args,
                Err(e) => {
                    return Err(e);
                },
            }
        };
        Ok(Prototype { name: id, args: args, is_op: is_operator, prec: precedence })
    }

    /// Reads the parameter names of a prototype, up to the closing `)`.
    #[verifier::loop_isolation(false)]
    fn parse_parameters(&mut self) -> (result: Result<Vec<String>, ParseError>)
        ensures
            final(self).same_input(old(self)),
            match parameters(old(self).views(), old(self).cursor(), Seq::empty()) {
                Ok((names, p)) => result matches Ok(found) && string_views(found@) == names
                    && final(self).pos == p,
                Err(error) => result matches Err(e) && e == error,
            },
    {
        proof {
            reveal(parameters);
        }
        let ghost tokens = self.views();
        let ghost goal = parameters(tokens, self.cursor(), Seq::empty());
        let mut args: Vec<String> = Vec::new();
        assert(string_views(args@) =~= Seq::<Seq<char>>::empty());
        loop
            invariant
                self.same_input(old(self)),
                self.views() == tokens,
                parameters(tokens, self.cursor(), string_views(args@)) == goal,
            decreases self.tokens.len() - self.pos,
        {
            let ghost done = string_views(args@);
            let name = match self.current() {
                None => {
                    return Err(ParseError::UnexpectedEof);
                },
                Some(Token::Ident(name)) => name.clone(),
                Some(_) => {
                    return Err(ParseError::ExpectedParameter);
                },
            };
            args.push(name);
            assert(string_views(args@) =~= done.push(name@));
            match self.advance() {
                Ok(()) => {},
                Err(e) => {
                    return Err(e);
                },
            }
            let closes = match self.current() {
                Some(Token::RParen) => true,
                Some(Token::Comma) => false,
                _ => {
                    return Err(ParseError::ExpectedParameterSeparator);
                },
            };
            let _ = self.advance();
            if closes {
                return Ok(args);
            }
        }
    }

    /// Parses a definition: `def`, a prototype and the body.
    fn parse_def(&mut self) -> (result: Result<Function, ParseError>)
        requires
            old(self).pos < old(self).tokens.len(),
            token_at(old(self).views(), old(self).cursor()) == Some(TokenView::Def),
        ensures
            final(self).tokens == old(self).tokens,
            *final(final(self).prec) == *final(old(self).prec),
            final(self).table() == table_after_prototype(
                old(self).views(),
                old(self).table(),
                old(self).cursor() + 1,
            ),
            match prototype(old(self).views(), old(self).cursor() + 1) {
                Err(error) => result matches Err(e) && e == error,
                Ok((proto, p)) => match expr(old(self).views(), final(self).table(), p) {
                    Err(error) => result matches Err(e) && e == error,
                    Ok((body, q)) => {
                        &&& result matches Ok(f)
                        &&& f@ == (FunctionView {
                            prototype: proto,
                            body: Some(body),
                            is_anon: false,
                        })
                        &&& final(self).pos == q
                    },
                },
            },
    {
        self.pos = self.pos + 1;
        let proto = match self.parse_prototype() {
            Ok(proto) => proto,
            Err(e) => {
                return Err(e);
            },
        };
        let body = match self.parse_expr() {
            Ok(body) => body,
            Err(e) => {
                return Err(e);
            },
        };
        Ok(Function { prototype: proto, body: Some(body), is_anon: false })
    }

    /// Parses an external declaration: its keyword and a prototype.
    fn parse_extern(&mut self) -> (result: Result<Function, ParseError>)
        requires
            old(self).pos < old(self).tokens.len(),
            token_at(old(self).views(), old(self).cursor()) == Some(TokenView::Extern),
        ensures
            final(self).tokens == old(self).tokens,
            *final(final(self).prec) == *final(old(self).prec),
            final(self).table() == table_after_prototype(
                old(self).views(),
                old(self).table(),
                old(self).cursor() + 1,
            ),
            match prototype(old(self).views(), old(self).cursor() + 1) {
                Err(error) => result matches Err(e) && e == error,
                Ok((proto, p)) => {
                    &&& result matches Ok(f)
                    &&& f@ == (FunctionView { prototype: proto, body: None, is_anon: false })
                    &&& final(self).pos == p
                },
            },
    {
        self.pos = self.pos + 1;
        let proto = match self.parse_prototype() {
            Ok(proto) => proto,
            Err(e) => {
                return Err(e);
            },
        };
        Ok(Function { prototype: proto, body: None, is_anon: false })
    }

    /// Parses an expression.
    fn parse_expr(&mut self) -> (result: Result<Expr, ParseError>)
        ensures
            final(self).same_input(old(self)),
            produces(
                result,
                final(self).pos,
                expr(old(self).views(), old(self).table(), old(self).cursor()),
            ),
        decreases old(self).tokens.len() - old(self).pos, 3int,
    {
        proof {
            reveal(expr);
            reveal(unary);
            reveal(binary);
        }
        proof {
            lemma_unary_progress(self.views(), self.table(), self.cursor());
        }
        match self.parse_unary_expr() {
            Ok(left) => self.parse_binary_expr(0, left),
            Err(e) => Err(e),
        }
    }

    /// Parses a number literal.
    fn parse_nb_expr(&mut self) -> (result: Result<Expr, ParseError>)
        ensures
            final(self).same_input(old(self)),
            produces(result, final(self).pos, number(old(self).views(), old(self).cursor())),
    {
        proof {
            reveal(Expr::tree);
        }
        let text = match self.current() {
            None => {
                return Err(ParseError::UnexpectedEof);
            },
            Some(Token::Number(text)) => text.clone(),
            Some(_) => {
                return Err(ParseError::ExpectedNumber);
            },
        };
        let _ = self.advance();
        Ok(Expr::Number(text))
    }

    /// Parses an expression between parentheses.
    fn parse_paren_expr(&mut self) -> (result: Result<Expr, ParseError>)
        ensures
            final(self).same_input(old(self)),
            produces(
                result,
                final(self).pos,
                paren(old(self).views(), old(self).table(), old(self).cursor()),
            ),
        decreases old(self).tokens.len() - old(self).pos, 0int,
    {
        proof {
            reveal(paren);
            reveal(expr);
        }
        match self.current() {
            None => {
                return Err(ParseError::UnexpectedEof);
            },
            Some(Token::LParen) => {},
            Some(_) => {
                return Err(ParseError::ExpectedOpeningParen);
            },
        }
        match self.advance() {
            Ok(()) => {},
            Err(e) => {
                return Err(e);
            },
        }
        let inner = match self.parse_expr() {
            Ok(inner) => inner,
            Err(e) => {
                return Err(e);
            },
        };
        match self.current() {
            None => {
                return Err(ParseError::UnexpectedEof);
            },
            Some(Token::RParen) => {},
            Some(_) => {
                return Err(ParseError::ExpectedClosingParen);
            },
        }
        let _ = self.advance();
        Ok(inner)
    }

    /// Parses an expression that begins with an identifier: a variable or a
    /// call.
    fn parse_id_expr(&mut self) -> (result: Result<Expr, ParseError>)
        ensures
            final(self).same_input(old(self)),
            produces(
                result,
                final(self).pos,
                identifier(old(self).views(), old(self).table(), old(self).cursor()),
            ),
        decreases old(self).tokens.len() - old(self).pos, 0int,
    {
        proof {
            reveal(Expr::tree);
            reveal(identifier);
            reveal(arguments);
        }
        let id = match self.current() {
            None => {
                return Err(ParseError::UnexpectedEof);
            },
            Some(Token::Ident(id)) => id.clone(),
            Some(_) => {
                return Err(ParseError::ExpectedIdentifier);
            },
        };
        match self.advance() {
            Ok(()) => {},
            Err(_) => {
                return Ok(Expr::Variable(id));
            },
        }
        match self.current() {
            Some(Token::LParen) => {},
            _ => {
                return Ok(Expr::Variable(id));
            },
        }
        match self.advance() {
            Ok(()) => {},
            Err(e) => {
                return Err(e);
            },
        }
        let closes = match self.current() {
            Some(Token::RParen) => true,
            _ => false,
        };
        let args = if closes {
            let _ = self.advance();
            let args: Vec<Expr> = Vec::new();
            assert(expr_views(args@) =~= Seq::<ExprView>::empty());
            args
        } else {
            match self.parse_arguments() {
                Ok(args) => args,
                Err(e) => {
                    return Err(e);
                },
            }
        };
        let call = Expr::Call { fn_name: id, args: args };
        assert(call@->Call_args =~= expr_views(args@));
        Ok(call)
    }

    /// Parses the arguments of a call, up to the closing `)`.
    #[verifier::loop_isolation(false)]
    fn parse_arguments(&mut self) -> (result: Result<Vec<Expr>, ParseError>)
        requires
            old(self).pos <= old(self).tokens.len(),
        ensures
            final(self).same_input(old(self)),
            match arguments(
                old(self).views(),
                old(self).table(),
                old(self).cursor(),
                Seq::empty(),
            ) {
                Ok((args, p)) => result matches Ok(found) && expr_views(found@) == args
                    && final(self).pos == p,
                Err(error) => result matches Err(e) && e == error,
            },
        decreases old(self).tokens.len() - old(self).pos, 4int,
    {
        proof {
            reveal(arguments);
            reveal(expr);
        }
        let ghost tokens = self.views();
        let ghost table = self.table();
        let ghost goal = arguments(tokens, table, self.cursor(), Seq::empty());
        let mut args: Vec<Expr> = Vec::new();
        assert(expr_views(args@) =~= Seq::<ExprView>::empty());
        loop
            invariant
                self.same_input(old(self)),
                self.views() == tokens,
                self.table() == table,
                old(self).pos <= self.pos <= self.tokens.len(),
                arguments(tokens, table, self.cursor(), expr_views(args@)) == goal,
            decreases self.tokens.len() - self.pos,
        {
            let ghost done = expr_views(args@);
            proof {
                lemma_expr_progress(tokens, table, self.cursor());
            }
            let arg = match self.parse_expr() {
                Ok(arg) => arg,
                Err(e) => {
                    return Err(e);
                },
            };
            let ghost tree = arg@;
            args.push(arg);
            assert(expr_views(args@) =~= done.push(tree));
            let closes = match self.current() {
                None => {
                    return Err(ParseError::UnexpectedEof);
                },
                Some(Token::Comma) => false,
                Some(Token::RParen) => true,
                Some(_) => {
                    return Err(ParseError::ExpectedArgumentSeparator);
                },
            };
            if closes {
                let _ = self.advance();
                return Ok(args);
            }
            match self.advance() {
                Ok(()) => {},
                Err(e) => {
                    return Err(e);
                },
            }
        }
    }

    /// Parses a unary expression: a primary expression, or a prefix operator
    /// and its operand.
    fn parse_unary_expr(&mut self) -> (result: Result<Expr, ParseError>)
        ensures
            final(self).same_input(old(self)),
            produces(
                result,
                final(self).pos,
                unary(old(self).views(), old(self).table(), old(self).cursor()),
            ),
        decreases old(self).tokens.len() - old(self).pos, 2int,
    {
        proof {
            reveal(Expr::tree);
            reveal(unary);
            reveal(primary);
        }
        let found = match self.current() {
            None => {
                return Err(ParseError::UnexpectedEof);
            },
            Some(Token::Op(ch)) => Some(*ch),
            Some(_) => None,
        };
        let op = match found {
            Some(op) => op,
            None => {
                return self.parse_primary();
            },
        };
        match self.advance() {
            Ok(()) => {},
            Err(e) => {
                return Err(e);
            },
        }
        let operand = match self.parse_unary_expr() {
            Ok(operand) => operand,
            Err(e) => {
                return Err(e);
            },
        };
        let ghost tree = operand@;
        let mut args: Vec<Expr> = Vec::new();
        args.push(operand);
        let call = Expr::Call { fn_name: operator_name("unary", op), args: args };
        assert(call@->Call_args =~= seq![tree]);
        Ok(call)
    }

    /// Parses the binary operators after `left` whose precedence is at least
    /// `prec`.
    #[verifier::loop_isolation(false)]
    fn parse_binary_expr(&mut self, prec: i32, left: Expr) -> (result: Result<Expr, ParseError>)
        requires
            old(self).pos <= old(self).tokens.len(),
        ensures
            final(self).same_input(old(self)),
            produces(
                result,
                final(self).pos,
                binary(
                    old(self).views(),
                    old(self).table(),
                    prec as int,
                    left@,
                    old(self).cursor(),
                ),
            ),
        decreases old(self).tokens.len() - old(self).pos, 0int,
    {
        proof {
            reveal(Expr::tree);
            reveal(binary);
            reveal(unary);
        }
        let ghost tokens = self.views();
        let ghost table = self.table();
        let ghost goal = binary(tokens, table, prec as int, left@, self.cursor());
        let mut left = left;
        loop
            invariant
                self.same_input(old(self)),
                self.views() == tokens,
                self.table() == table,
                old(self).pos <= self.pos <= self.tokens.len(),
                binary(tokens, table, prec as int, left@, self.cursor()) == goal,
            decreases self.tokens.len() - self.pos,
        {
            let ghost here = self.cursor();
            let curr_prec = self.get_tok_precedence();
            if curr_prec < prec || self.at_end() {
                return Ok(left);
            }
            let op = match self.current() {
                Some(Token::Op(op)) => *op,
                _ => {
                    return Err(ParseError::InvalidOperator);
                },
            };
            match self.advance() {
                Ok(()) => {},
                Err(e) => {
                    return Err(e);
                },
            }
            proof {
                lemma_unary_progress(tokens, table, here + 1);
            }
            let mut right = match self.parse_unary_expr() {
                Ok(right) => right,
                Err(e) => {
                    return Err(e);
                },
            };
            let next_prec = self.get_tok_precedence();
            if curr_prec < next_prec {
                proof {
                    lemma_binary_progress(tokens, table, curr_prec + 1, right@, self.cursor());
                }
                right = match self.parse_binary_expr(curr_prec + 1, right) {
                    Ok(right) => right,
                    Err(e) => {
                        return Err(e);
                    },
                };
            }
            left = Expr::Binary { op: op, left: Box::new(left), right: Box::new(right) };
        }
    }

    /// Parses one branch of a conditional: `then`, for the first branch, or
    /// `else`, for the second, and an expression.
    #[verifier::rlimit(50)]
    fn parse_branch(&mut self, first: bool) -> (result: Result<Expr, ParseError>)
        ensures
            final(self).same_input(old(self)),
            produces(
                result,
                final(self).pos,
                branch(old(self).views(), old(self).table(), old(self).cursor(), first),
            ),
        decreases old(self).tokens.len() - old(self).pos, 4int,
    {
        proof {
            reveal(branch);
            reveal(expr);
        }
        let found = match self.current() {
            Some(Token::Then) => first,
            Some(Token::Else) => !first,
            _ => false,
        };
        if !found {
            if first {
                return Err(ParseError::ExpectedThen);
            } else {
                return Err(ParseError::ExpectedElse);
            }
        }
        match self.advance() {
            Ok(()) => {},
            Err(e) => {
                return Err(e);
            },
        }
        self.parse_expr()
    }

    /// Parses `if` condition `then` expression `else` expression.
    #[verifier::rlimit(50)]
    fn parse_conditional_expr(&mut self) -> (result: Result<Expr, ParseError>)
        requires
            old(self).pos < old(self).tokens.len(),
        ensures
            final(self).same_input(old(self)),
            produces(
                result,
                final(self).pos,
                conditional(old(self).views(), old(self).table(), old(self).cursor()),
            ),
        decreases old(self).tokens.len() - old(self).pos, 0int,
    {
        proof {
            reveal(Expr::tree);
            reveal(conditional);
            reveal(branch);
            reveal(expr);
        }
        let ghost tokens = self.views();
        let ghost table = self.table();
        match self.advance() {
            Ok(()) => {},
            Err(e) => {
                return Err(e);
            },
        }
        proof {
            lemma_expr_progress(tokens, table, self.cursor());
        }
        let cond = match self.parse_expr() {
            Ok(cond) => cond,
            Err(e) => {
                return Err(e);
            },
        };
        proof {
            lemma_branch_progress(tokens, table, self.cursor(), true);
        }
        let then_result = match self.parse_branch(true) {
            Ok(then_result) => then_result,
            Err(e) => {
                return Err(e);
            },
        };
        let else_result = match self.parse_branch(false) {
            Ok(else_result) => else_result,
            Err(e) => {
                return Err(e);
            },
        };
        Ok(
            Expr::Conditional {
                cond: Box::new(cond),
                consequence: Box::new(then_result),
                alternative: Box::new(else_result),
            },
        )
    }

    /// Parses the optional step of a loop.
    #[verifier::rlimit(50)]
    fn parse_loop_step(&mut self) -> (result: Result<Option<Box<Expr>>, ParseError>)
        ensures
            final(self).same_input(old(self)),
            match loop_step(old(self).views(), old(self).table(), old(self).cursor()) {
                Ok((step, p)) => {
                    &&& result matches Ok(found)
                    &&& final(self).pos == p
                    &&& match found {
                        Some(e) => step == Some(Box::new(e@)),
                        None => step is None,
                    }
                },
                Err(error) => result matches Err(e) && e == error,
            },
        decreases old(self).tokens.len() - old(self).pos, 4int,
    {
        proof {
            reveal(loop_step);
            reveal(expr);
        }
        match self.current() {
            None => {
                return Err(ParseError::UnexpectedEof);
            },
            Some(Token::Comma) => {},
            Some(_) => {
                return Ok(None);
            },
        }
        match self.advance() {
            Ok(()) => {},
            Err(e) => {
                return Err(e);
            },
        }
        match self.parse_expr() {
            Ok(step) => Ok(Some(Box::new(step))),
            Err(e) => Err(e),
        }
    }

    /// Parses the head of a loop: `for`, the loop variable and `=`.
    fn parse_loop_header(&mut self) -> (result: Result<String, ParseError>)
        requires
            old(self).pos < old(self).tokens.len(),
        ensures
            final(self).same_input(old(self)),
            match loop_header(old(self).views(), old(self).cursor()) {
                Ok((var_name, p)) => result matches Ok(name) && name@ == var_name
                    && final(self).pos == p,
                Err(error) => result matches Err(e) && e == error,
            },
    {
        proof {
            reveal(loop_header);
        }
        match self.advance() {
            Ok(()) => {},
            Err(e) => {
                return Err(e);
            },
        }
        let name = match self.current() {
            Some(Token::Ident(name)) => name.clone(),
            _ => {
                return Err(ParseError::ExpectedLoopVariable);
            },
        };
        match self.advance() {
            Ok(()) => {},
            Err(e) => {
                return Err(e);
            },
        }
        let assigns = match self.current() {
            Some(Token::Op(op)) => *op == '=',
            _ => false,
        };
        if !assigns {
            return Err(ParseError::ExpectedLoopAssignment);
        }
        match self.advance() {
            Ok(()) => {},
            Err(e) => {
                return Err(e);
            },
        }
        Ok(name)
    }

    /// Parses the range of a loop: the start value, `,` and the end value.
    #[verifier::rlimit(50)]
    fn parse_loop_range(&mut self) -> (result: Result<(Expr, Expr), ParseError>)
        ensures
            final(self).same_input(old(self)),
            match loop_range(old(self).views(), old(self).table(), old(self).cursor()) {
                Ok(((start, end), p)) => result matches Ok(found) && found.0@ == start
                    && found.1@ == end && final(self).pos == p,
                Err(error) => result matches Err(e) && e == error,
            },
        decreases old(self).tokens.len() - old(self).pos, 4int,
    {
        proof {
            reveal(loop_range);
            reveal(expr);
            lemma_expr_progress(self.views(), self.table(), self.cursor());
        }
        let start = match self.parse_expr() {
            Ok(start) => start,
            Err(e) => {
                return Err(e);
            },
        };
        match self.current() {
            None => {
                return Err(ParseError::UnexpectedEof);
            },
            Some(Token::Comma) => {},
            Some(_) => {
                return Err(ParseError::ExpectedLoopSeparator);
            },
        }
        match self.advance() {
            Ok(()) => {},
            Err(e) => {
                return Err(e);
            },
        }
        let end = match self.parse_expr() {
            Ok(end) => end,
            Err(e) => {
                return Err(e);
            },
        };
        Ok((start, end))
    }

    /// Parses the rest of a loop behind its range: the optional step, `in`
    /// and the body.
    #[verifier::rlimit(50)]
    fn parse_loop_tail(&mut self) -> (result: Result<(Option<Box<Expr>>, Expr), ParseError>)
        requires
            old(self).pos <= old(self).tokens.len(),
        ensures
            final(self).same_input(old(self)),
            match loop_tail(old(self).views(), old(self).table(), old(self).cursor()) {
                Ok(((step, body), p)) => {
                    &&& result matches Ok(found)
                    &&& final(self).pos == p
                    &&& found.1@ == body
                    &&& match found.0 {
                        Some(e) => step == Some(Box::new(e@)),
                        None => step is None,
                    }
                },
                Err(error) => result matches Err(e) && e == error,
            },
        decreases old(self).tokens.len() - old(self).pos, 5int,
    {
        proof {
            reveal(loop_tail);
            reveal(loop_step);
            reveal(expr);
            lemma_loop_step_progress(self.views(), self.table(), self.cursor());
        }
        let step = match self.parse_loop_step() {
            Ok(step) => step,
            Err(e) => {
                return Err(e);
            },
        };
        match self.current() {
            None => {
                return Err(ParseError::UnexpectedEof);
            },
            Some(Token::In) => {},
            Some(_) => {
                return Err(ParseError::ExpectedLoopIn);
            },
        }
        match self.advance() {
            Ok(()) => {},
            Err(e) => {
                return Err(e);
            },
        }
        match self.parse_expr() {
            Ok(body) => Ok((step, body)),
            Err(e) => Err(e),
        }
    }

    /// Parses `for` identifier `=` start `,` end, an optional step, `in` and
    /// the body.
    #[verifier::rlimit(50)]
    fn parse_for_expr(&mut self) -> (result: Result<Expr, ParseError>)
        requires
            old(self).pos < old(self).tokens.len(),
        ensures
            final(self).same_input(old(self)),
            produces(
                result,
                final(self).pos,
                for_loop(old(self).views(), old(self).table(), old(self).cursor()),
            ),
        decreases old(self).tokens.len() - old(self).pos, 0int,
    {
        proof {
            reveal(Expr::tree);
        }
        let ghost tokens = self.views();
        let ghost table = self.table();
        proof {
            reveal(for_loop);
            reveal(loop_range);
            reveal(loop_tail);
            lemma_for_loop_progress(tokens, table, self.cursor());
        }
        let name = match self.parse_loop_header() {
            Ok(name) => name,
            Err(e) => {
                return Err(e);
            },
        };
        proof {
            lemma_loop_range_progress(tokens, table, self.cursor());
        }
        let (start, end) = match self.parse_loop_range() {
            Ok(range) => range,
            Err(e) => {
                return Err(e);
            },
        };
        let (step, body) = match self.parse_loop_tail() {
            Ok(tail) => tail,
            Err(e) => {
                return Err(e);
            },
        };
        Ok(
            Expr::For {
                var_name: name,
                start: Box::new(start),
                end: Box::new(end),
                step: step,
                body: Box::new(body),
            },
        )
    }

    /// Parses the optional initial value of a binding.
    #[verifier::rlimit(50)]
    fn parse_initializer(&mut self) -> (result: Result<Option<Expr>, ParseError>)
        ensures
            final(self).same_input(old(self)),
            match initializer(old(self).views(), old(self).table(), old(self).cursor()) {
                Ok((value, p)) => {
                    &&& result matches Ok(found)
                    &&& final(self).pos == p
                    &&& match found {
                        Some(e) => value == Some(e@),
                        None => value is None,
                    }
                },
                Err(error) => result matches Err(e) && e == error,
            },
        decreases old(self).tokens.len() - old(self).pos, 4int,
    {
        proof {
            reveal(initializer);
            reveal(expr);
        }
        let assigns = match self.current() {
            Some(Token::Op(op)) => *op == '=',
            _ => false,
        };
        if !assigns {
            return Ok(None);
        }
        match self.advance() {
            Ok(()) => {},
            Err(e) => {
                return Err(e);
            },
        }
        match self.parse_expr() {
            Ok(value) => Ok(Some(value)),
            Err(e) => Err(e),
        }
    }

    /// Parses `var` bindings `in` body.
    fn parse_var_expr(&mut self) -> (result: Result<Expr, ParseError>)
        requires
            old(self).pos < old(self).tokens.len(),
        ensures
            final(self).same_input(old(self)),
            produces(
                result,
                final(self).pos,
                var_in(old(self).views(), old(self).table(), old(self).cursor()),
            ),
        decreases old(self).tokens.len() - old(self).pos, 0int,
    {
        proof {
            reveal(Expr::tree);
            reveal(var_in);
            reveal(bindings);
            reveal(expr);
        }
        let ghost tokens = self.views();
        let ghost table = self.table();
        match self.advance() {
            Ok(()) => {},
            Err(e) => {
                return Err(e);
            },
        }
        proof {
            lemma_bindings_progress(tokens, table, self.cursor(), Seq::empty());
        }
        let variables = match self.parse_bindings() {
            Ok(variables) => variables,
            Err(e) => {
                return Err(e);
            },
        };
        let body = match self.parse_expr() {
            Ok(body) => body,
            Err(e) => {
                return Err(e);
            },
        };
        let block = Expr::VarIn { variables: variables, body: Box::new(body) };
        assert(block@->VarIn_variables =~= binding_views(variables@));
        Ok(block)
    }

    /// Parses one binding of a `var`: an identifier and its optional initial
    /// value.
    #[verifier::rlimit(50)]
    fn parse_binding(&mut self) -> (result: Result<(String, Option<Expr>), ParseError>)
        ensures
            final(self).same_input(old(self)),
            match binding(old(self).views(), old(self).table(), old(self).cursor()) {
                Ok((bound, p)) => {
                    &&& result matches Ok(found)
                    &&& final(self).pos == p
                    &&& found.0@ == bound.0
                    &&& match found.1 {
                        Some(e) => bound.1 == Some(e@),
                        None => bound.1 is None,
                    }
                },
                Err(error) => result matches Err(e) && e == error,
            },
        decreases old(self).tokens.len() - old(self).pos, 4int,
    {
        proof {
            reveal(binding);
            reveal(initializer);
        }
        let name = match self.current() {
            None => {
                return Err(ParseError::UnexpectedEof);
            },
            Some(Token::Ident(name)) => name.clone(),
            Some(_) => {
                return Err(ParseError::ExpectedBinding);
            },
        };
        match self.advance() {
            Ok(()) => {},
            Err(e) => {
                return Err(e);
            },
        }
        match self.parse_initializer() {
            Ok(value) => Ok((name, value)),
            Err(e) => Err(e),
        }
    }

    /// Parses the bindings of a `var`, up to the `in` that closes them.
    #[verifier::rlimit(50)]
    #[verifier::loop_isolation(false)]
    fn parse_bindings(&mut self) -> (result: Result<Vec<(String, Option<Expr>)>, ParseError>)
        requires
            old(self).pos <= old(self).tokens.len(),
        ensures
            final(self).same_input(old(self)),
            match bindings(old(self).views(), old(self).table(), old(self).cursor(), Seq::empty()) {
                Ok((variables, p)) => result matches Ok(found) && binding_views(found@)
                    == variables && final(self).pos == p,
                Err(error) => result matches Err(e) && e == error,
            },
        decreases old(self).tokens.len() - old(self).pos, 5int,
    {
        proof {
            reveal(bindings);
            reveal(binding);
        }
        let ghost tokens = self.views();
        let ghost table = self.table();
        let ghost goal = bindings(tokens, table, self.cursor(), Seq::empty());
        let mut variables: Vec<(String, Option<Expr>)> = Vec::new();
        assert(binding_views(variables@) =~= Seq::<(Seq<char>, Option<ExprView>)>::empty());
        loop
            invariant
                self.same_input(old(self)),
                self.views() == tokens,
                self.table() == table,
                old(self).pos <= self.pos <= self.tokens.len(),
                bindings(tokens, table, self.cursor(), binding_views(variables@)) == goal,
            decreases self.tokens.len() - self.pos,
        {
            let ghost done = binding_views(variables@);
            proof {
                lemma_binding_progress(tokens, table, self.cursor());
            }
            let bound = match self.parse_binding() {
                Ok(bound) => bound,
                Err(e) => {
                    return Err(e);
                },
            };
            let ghost view = binding_view(bound);
            variables.push(bound);
            assert(binding_views(variables@) =~= done.push(view));
            let closes = match self.current() {
                None => {
                    return Err(ParseError::UnexpectedEof);
                },
                Some(Token::Comma) => false,
                Some(Token::In) => true,
                Some(_) => {
                    return Err(ParseError::ExpectedBindingSeparator);
                },
            };
            match self.advance() {
                Ok(()) => {},
                Err(e) => {
                    return Err(e);
                },
            }
            if closes {
                return Ok(variables);
            }
        }
    }

    /// Parses a primary expression, chosen by the token at the cursor.
    #[verifier::rlimit(50)]
    fn parse_primary(&mut self) -> (result: Result<Expr, ParseError>)
        ensures
            final(self).same_input(old(self)),
            produces(
                result,
                final(self).pos,
                primary(old(self).views(), old(self).table(), old(self).cursor()),
            ),
        decreases old(self).tokens.len() - old(self).pos, 1int,
    {
        proof {
            lemma_primary(self.views(), self.table(), self.cursor());
        }
        let kind: u8 = match self.current() {
            None => {
                return Err(ParseError::UnexpectedEof);
            },
            Some(Token::Ident(_)) => 0,
            Some(Token::Number(_)) => 1,
            Some(Token::LParen) => 2,
            Some(Token::If) => 3,
            Some(Token::For) => 4,
            Some(Token::Var) => 5,
            Some(_) => {
                return Err(ParseError::UnknownExpression);
            },
        };
        if kind == 0 {
            self.parse_id_expr()
        } else if kind == 1 {
            self.parse_nb_expr()
        } else if kind == 2 {
            self.parse_paren_expr()
        } else if kind == 3 {
            self.parse_conditional_expr()
        } else if kind == 4 {
            self.parse_for_expr()
        } else {
            self.parse_var_expr()
        }
    }

    /// Parses a bare expression and wraps it into an anonymous function.
    fn parse_toplevel_expr(&mut self) -> (result: Result<Function, ParseError>)
        ensures
            final(self).same_input(old(self)),
            match expr(old(self).views(), old(self).table(), old(self).cursor()) {
                Err(error) => result matches Err(e) && e == error,
                Ok((body, p)) => {
                    &&& result matches Ok(f)
                    &&& f@ == (FunctionView {
                        prototype: anonymous_prototype(),
                        body: Some(body),
                        is_anon: true,
                    })
                    &&& final(self).pos == p
                },
            },
    {
        match self.parse_expr() {
            Ok(expr) => {
                let args: Vec<String> = Vec::new();
                assert(string_views(args@) =~= Seq::<Seq<char>>::empty());
                Ok(
                    Function {
                        prototype: Prototype {
                            name: String::from_str("anonymous"),
                            args: args,
                            is_op: false,
                            prec: 0,
                        },
                        body: Some(expr),
                        is_anon: true,
                    },
                )
            },
            Err(e) => Err(e),
        }
    }
}

} // verus!
