//! The lexer: from source text to tokens.
//!
//! The text is taken as a sequence of characters. `next_lexeme` says which
//! token begins at or after a position and where it ends; `Lexer` computes it.
//! A number literal is handed on as its text, checked for its form, and is
//! not converted to a number here.

use crate::number::{is_float_literal, is_float_literal_text};
use crate::text::{
    chars_of, copy_of, is_blank, is_ident_part, is_ident_start, is_ident_start_char,
    is_number_part, is_number_start, is_number_start_char, lemma_span_end, scan, span_end, span_is,
    string_of, CharClass,
};
use vstd::prelude::*;

verus! {

/// One lexical unit of the language.
#[derive(Debug, Clone, PartialEq)]
pub enum Token {
    Binary,
    Comma,
    Comment,
    Def,
    Else,
    EOF,
    Extern,
    For,
    Ident(String),
    If,
    In,
    LParen,
    /// A number literal, as the text that was written.
    Number(String),
    Op(char),
    RParen,
    Then,
    Unary,
    Var,
}

/// What a `Token` stands for: the same variants over character sequences.
pub ghost enum TokenView {
    Binary,
    Comma,
    Comment,
    Def,
    Else,
    EOF,
    Extern,
    For,
    Ident(Seq<char>),
    If,
    In,
    LParen,
    Number(Seq<char>),
    Op(char),
    RParen,
    Then,
    Unary,
    Var,
}

impl View for Token {
    type V = TokenView;

    open spec fn view(&self) -> TokenView {
        match self {
            Token::Binary => TokenView::Binary,
            Token::Comma => TokenView::Comma,
            Token::Comment => TokenView::Comment,
            Token::Def => TokenView::Def,
            Token::Else => TokenView::Else,
            Token::EOF => TokenView::EOF,
            Token::Extern => TokenView::Extern,
            Token::For => TokenView::For,
            Token::Ident(name) => TokenView::Ident(name@),
            Token::If => TokenView::If,
            Token::In => TokenView::In,
            Token::LParen => TokenView::LParen,
            Token::Number(text) => TokenView::Number(text@),
            Token::Op(c) => TokenView::Op(*c),
            Token::RParen => TokenView::RParen,
            Token::Then => TokenView::Then,
            Token::Unary => TokenView::Unary,
            Token::Var => TokenView::Var,
        }
    }
}

/// The views of a sequence of tokens, in order.
pub open spec fn token_views(tokens: Seq<Token>) -> Seq<TokenView> {
    Seq::new(tokens.len(), |i: int| tokens[i]@)
}

/// The token that a word spells: its keyword, or else an identifier.
pub open spec fn word_token(word: Seq<char>) -> TokenView {
    if word == seq!['d', 'e', 'f'] {
        TokenView::Def
    } else if word == seq!['e', 'x', 't', 'e', 'r', 'n'] {
        TokenView::Extern
    } else if word == seq!['i', 'f'] {
        TokenView::If
    } else if word == seq!['t', 'h', 'e', 'n'] {
        TokenView::Then
    } else if word == seq!['e', 'l', 's', 'e'] {
        TokenView::Else
    } else if word == seq!['f', 'o', 'r'] {
        TokenView::For
    } else if word == seq!['i', 'n'] {
        TokenView::In
    } else if word == seq!['u', 'n', 'a', 'r', 'y'] {
        TokenView::Unary
    } else if word == seq!['b', 'i', 'n', 'a', 'r', 'y'] {
        TokenView::Binary
    } else if word == seq!['v', 'a', 'r'] {
        TokenView::Var
    } else {
        TokenView::Ident(word)
    }
}

/// A token together with the span of source text that spells it.
pub ghost struct Lexeme {
    pub token: TokenView,
    pub start: int,
    pub end: int,
}

/// The lexeme found when reading `s` from `pos`: blank space is passed over,
/// and the first character after it decides the token.
///
/// - At the end of the text the token is `EOF`.
/// - `(`, `)` and `,` are tokens of one character.
/// - `#` begins a comment, which runs through the next line feed or to the
///   end of the text.
/// - A digit or `.` begins a number literal, which takes in every following
///   hexadecimal digit and `.`.
/// - An ASCII letter or `_` begins a word, which takes in every following
///   alphanumeric character and `_`.
/// - Any other character is an operator by itself.
pub open spec fn next_lexeme(s: Seq<char>, pos: int) -> Lexeme {
    let start = span_end(s, pos, CharClass::Whitespace);
    if start < 0 || start >= s.len() {
        Lexeme { token: TokenView::EOF, start, end: start }
    } else {
        let c = s[start];
        if c == '(' {
            Lexeme { token: TokenView::LParen, start, end: start + 1 }
        } else if c == ')' {
            Lexeme { token: TokenView::RParen, start, end: start + 1 }
        } else if c == ',' {
            Lexeme { token: TokenView::Comma, start, end: start + 1 }
        } else if c == '#' {
            let line_end = span_end(s, start + 1, CharClass::CommentBody);
            let end = if line_end < s.len() {
                line_end + 1
            } else {
                line_end
            };
            Lexeme { token: TokenView::Comment, start, end }
        } else if is_number_start(c) {
            let end = span_end(s, start + 1, CharClass::NumberPart);
            Lexeme { token: TokenView::Number(s.subrange(start, end)), start, end }
        } else if is_ident_start(c) {
            let end = span_end(s, start + 1, CharClass::IdentPart);
            Lexeme { token: word_token(s.subrange(start, end)), start, end }
        } else {
            Lexeme { token: TokenView::Op(c), start, end: start + 1 }
        }
    }
}

/// A token is well formed unless it is a number literal of a wrong form.
pub open spec fn well_formed(token: TokenView) -> bool {
    token matches TokenView::Number(text) ==> is_float_literal(text)
}

/// Whether every token of `tokens` is well formed.
pub open spec fn all_well_formed(tokens: Seq<TokenView>) -> bool {
    forall|i: int| 0 <= i < tokens.len() ==> well_formed(#[trigger] tokens[i])
}

/// A lexeme lies inside the text, at or after the position read from, and a
/// token other than `EOF` spans at least one character.
pub proof fn lemma_next_lexeme(s: Seq<char>, pos: int)
    requires
        0 <= pos <= s.len(),
    ensures
        pos <= next_lexeme(s, pos).start <= next_lexeme(s, pos).end <= s.len(),
        !(next_lexeme(s, pos).token is EOF) ==> next_lexeme(s, pos).start < next_lexeme(s, pos).end,
        next_lexeme(s, pos).token is EOF ==> next_lexeme(s, pos).end == s.len(),
{
    lemma_span_end(s, pos, CharClass::Whitespace);
    let start = span_end(s, pos, CharClass::Whitespace);
    if start < s.len() {
        lemma_span_end(s, start + 1, CharClass::CommentBody);
        lemma_span_end(s, start + 1, CharClass::NumberPart);
        lemma_span_end(s, start + 1, CharClass::IdentPart);
    }
}

/// At the end of the text the lexeme is `EOF`, however often it is read.
pub proof fn lemma_end_of_text(s: Seq<char>)
    ensures
        next_lexeme(s, s.len() as int) == (Lexeme {
            token: TokenView::EOF,
            start: s.len() as int,
            end: s.len() as int,
        }),
        token_stream(s, s.len() as int) == Seq::<TokenView>::empty(),
{
}

/// What a token carries is what its span spells: a number literal begins
/// with a digit or `.` and goes on in hexadecimal digits and `.`; an
/// identifier begins with an ASCII letter or `_`, goes on in alphanumeric
/// characters and `_`, and is no keyword; an operator is a character that
/// begins nothing else.
pub proof fn lemma_lexeme_text(s: Seq<char>, pos: int)
    requires
        0 <= pos <= s.len(),
    ensures
        match next_lexeme(s, pos).token {
            TokenView::Number(text) => {
                &&& text == s.subrange(next_lexeme(s, pos).start, next_lexeme(s, pos).end)
                &&& text.len() >= 1
                &&& is_number_start(text[0])
                &&& forall|i: int| 1 <= i < text.len() ==> is_number_part(#[trigger] text[i])
            },
            TokenView::Ident(name) => {
                &&& name == s.subrange(next_lexeme(s, pos).start, next_lexeme(s, pos).end)
                &&& name.len() >= 1
                &&& is_ident_start(name[0])
                &&& forall|i: int| 1 <= i < name.len() ==> is_ident_part(#[trigger] name[i])
                &&& word_token(name) == TokenView::Ident(name)
            },
            TokenView::Op(c) => {
                &&& c == s[next_lexeme(s, pos).start]
                &&& !is_blank(c)
                &&& c != '(' && c != ')' && c != ',' && c != '#'
                &&& !is_number_start(c)
                &&& !is_ident_start(c)
            },
            _ => true,
        },
{
    lemma_next_lexeme(s, pos);
    lemma_span_end(s, pos, CharClass::Whitespace);
    let start = next_lexeme(s, pos).start;
    if start < s.len() {
        lemma_span_end(s, start + 1, CharClass::NumberPart);
        lemma_span_end(s, start + 1, CharClass::IdentPart);
    }
}

/// All tokens of `s` from `pos` on, up to the end of the text.
pub open spec fn token_stream(s: Seq<char>, pos: int) -> Seq<TokenView>
    decreases s.len() - pos,
{
    let lexeme = next_lexeme(s, pos);
    if 0 <= pos <= s.len() && !(lexeme.token is EOF) {
        proof {
            lemma_next_lexeme(s, pos);
        }
        seq![lexeme.token] + token_stream(s, lexeme.end)
    } else {
        Seq::empty()
    }
}

/// The tokens of `s` from `pos` on that are not comments.
pub open spec fn code_tokens(s: Seq<char>, pos: int) -> Seq<TokenView>
    decreases s.len() - pos,
{
    let lexeme = next_lexeme(s, pos);
    if 0 <= pos <= s.len() && !(lexeme.token is EOF) {
        proof {
            lemma_next_lexeme(s, pos);
        }
        if lexeme.token is Comment {
            code_tokens(s, lexeme.end)
        } else {
            seq![lexeme.token] + code_tokens(s, lexeme.end)
        }
    } else {
        Seq::empty()
    }
}

/// Whether every number literal of `s` from `pos` on is well formed.
pub open spec fn lexable_from(s: Seq<char>, pos: int) -> bool
    decreases s.len() - pos,
{
    let lexeme = next_lexeme(s, pos);
    if 0 <= pos <= s.len() && !(lexeme.token is EOF) {
        proof {
            lemma_next_lexeme(s, pos);
        }
        well_formed(lexeme.token) && lexable_from(s, lexeme.end)
    } else {
        true
    }
}

/// A text is lexable exactly when every token of it is well formed.
pub proof fn lemma_lexable_tokens(s: Seq<char>, pos: int)
    requires
        0 <= pos <= s.len(),
    ensures
        lexable_from(s, pos) <==> all_well_formed(token_stream(s, pos)),
    decreases s.len() - pos,
{
    lemma_next_lexeme(s, pos);
    let lexeme = next_lexeme(s, pos);
    if !(lexeme.token is EOF) {
        lemma_lexable_tokens(s, lexeme.end);
        let tokens = token_stream(s, pos);
        let rest = token_stream(s, lexeme.end);
        if lexable_from(s, pos) {
            assert forall|i: int| 0 <= i < tokens.len() implies well_formed(
                #[trigger] tokens[i],
            ) by {}
        }
        if forall|i: int| 0 <= i < tokens.len() ==> well_formed(#[trigger] tokens[i]) {
            assert(well_formed(tokens[0]));
            assert forall|i: int| 0 <= i < rest.len() implies well_formed(#[trigger] rest[i]) by {
                assert(rest[i] == tokens[i + 1]);
            }
        }
    }
}

/// A text has at most as many tokens as characters.
pub proof fn lemma_token_stream_bounded(s: Seq<char>, pos: int)
    requires
        0 <= pos <= s.len(),
    ensures
        token_stream(s, pos).len() <= s.len() - pos,
        code_tokens(s, pos).len() <= token_stream(s, pos).len(),
    decreases s.len() - pos,
{
    lemma_next_lexeme(s, pos);
    if !(next_lexeme(s, pos).token is EOF) {
        lemma_token_stream_bounded(s, next_lexeme(s, pos).end);
    }
}

/// An error of the lexer: a message and the position it is about.
#[derive(Debug)]
pub struct LexError {
    pub error: &'static str,
    pub index: usize,
}

impl LexError {
    /// An error with the given message, at position zero.
    pub fn new(msg: &'static str) -> (e: LexError)
        ensures
            e.error == msg,
            e.index == 0,
    {
        LexError { error: msg, index: 0 }
    }

    /// An error with the given message, at the given position.
    pub fn with_index(msg: &'static str, index: usize) -> (e: LexError)
        ensures
            e.error == msg,
            e.index == index,
    {
        LexError { error: msg, index: index }
    }
}

/// What reading one token gives.
pub type LexResult = Result<Token, LexError>;

/// A cursor over source text that hands out its tokens one by one.
#[derive(Debug)]
pub struct Lexer<'a> {
    input: &'a str,
    chars: Vec<char>,
    pos: usize,
}

impl<'a> Lexer<'a> {
    #[verifier::type_invariant]
    spec fn inv(&self) -> bool {
        &&& self.chars@ == self.input@
        &&& self.pos <= self.chars.len()
    }

    /// The text being read.
    pub closed spec fn source(&self) -> Seq<char> {
        self.input@
    }

    /// The position of the cursor, counted in characters.
    pub closed spec fn position(&self) -> int {
        self.pos as int
    }

    /// The lexeme at the cursor.
    pub open spec fn lexeme(&self) -> Lexeme {
        next_lexeme(self.source(), self.position())
    }

    /// Whether the token at the cursor can be handed out: it is not a number
    /// literal of a wrong form.
    pub open spec fn lexable(&self) -> bool {
        well_formed(self.lexeme().token)
    }

    /// A lexer at the start of `input`.
    pub fn new(input: &'a str) -> (lexer: Lexer<'a>)
        ensures
            lexer.source() == input@,
            lexer.position() == 0,
    {
        Lexer { input: input, chars: chars_of(input), pos: 0 }
    }

    /// The token spelled by the word from `start` up to `end`.
    fn word(&self, start: usize, end: usize) -> (token: Token)
        requires
            start <= end <= self.chars.len(),
        ensures
            token@ == word_token(self.chars@.subrange(start as int, end as int)),
    {
        let chars = &self.chars;
        if span_is(chars, start, end, ['d', 'e', 'f'].as_slice()) {
            Token::Def
        } else if span_is(chars, start, end, ['e', 'x', 't', 'e', 'r', 'n'].as_slice()) {
            Token::Extern
        } else if span_is(chars, start, end, ['i', 'f'].as_slice()) {
            Token::If
        } else if span_is(chars, start, end, ['t', 'h', 'e', 'n'].as_slice()) {
            Token::Then
        } else if span_is(chars, start, end, ['e', 'l', 's', 'e'].as_slice()) {
            Token::Else
        } else if span_is(chars, start, end, ['f', 'o', 'r'].as_slice()) {
            Token::For
        } else if span_is(chars, start, end, ['i', 'n'].as_slice()) {
            Token::In
        } else if span_is(chars, start, end, ['u', 'n', 'a', 'r', 'y'].as_slice()) {
            Token::Unary
        } else if span_is(chars, start, end, ['b', 'i', 'n', 'a', 'r', 'y'].as_slice()) {
            Token::Binary
        } else if span_is(chars, start, end, ['v', 'a', 'r'].as_slice()) {
            Token::Var
        } else {
            Token::Ident(string_of(chars, start, end))
        }
    }

    /// Whether the token at the cursor can be handed out.
    pub fn can_lex(&self) -> (b: bool)
        ensures
            b == self.lexable(),
    {
        proof {
            use_type_invariant(self);
            lemma_next_lexeme(self.chars@, self.pos as int);
        }
        let chars = &self.chars;
        let start = scan(chars, self.pos, CharClass::Whitespace);
        if start < chars.len() && is_number_start_char(chars[start]) {
            let end = scan(chars, start + 1, CharClass::NumberPart);
            is_float_literal_text(&copy_of(chars, start, end))
        } else {
            true
        }
    }

    /// Hands out the token at the cursor and moves the cursor past it. At the
    /// end of the text the token is `EOF`, and stays so. The token must not
    /// be a number literal of a wrong form.
    pub fn lex(&mut self) -> (result: LexResult)
        requires
            old(self).lexable(),
        ensures
            result matches Ok(token) && token@ == old(self).lexeme().token,
            final(self).position() == old(self).lexeme().end,
            final(self).source() == old(self).source(),
            0 <= old(self).position() <= final(self).position() <= old(self).source().len(),
    {
        proof {
            use_type_invariant(&*self);
            lemma_next_lexeme(self.chars@, self.pos as int);
        }
        let len = self.chars.len();
        let start = scan(&self.chars, self.pos, CharClass::Whitespace);
        if start >= len {
            self.pos = start;
            return Ok(Token::EOF);
        }
        let c = self.chars[start];
        let (token, end) = if c == '(' {
            (Token::LParen, start + 1)
        } else if c == ')' {
            (Token::RParen, start + 1)
        } else if c == ',' {
            (Token::Comma, start + 1)
        } else if c == '#' {
            let line_end = scan(&self.chars, start + 1, CharClass::CommentBody);
            let end = if line_end < len {
                line_end + 1
            } else {
                line_end
            };
            (Token::Comment, end)
        } else if is_number_start_char(c) {
            let end = scan(&self.chars, start + 1, CharClass::NumberPart);
            (Token::Number(string_of(&self.chars, start, end)), end)
        } else if is_ident_start_char(c) {
            let end = scan(&self.chars, start + 1, CharClass::IdentPart);
            (self.word(start, end), end)
        } else {
            (Token::Op(c), start + 1)
        };
        self.pos = end;
        Ok(token)
    }

    /// Hands out the token at the cursor, if there is one that can be handed
    /// out, and moves the cursor past it. The answer is `None` at the end of
    /// the text, and before a number literal of a wrong form, where the
    /// cursor stays.
    pub fn next(&mut self) -> (result: Option<Token>)
        ensures
            final(self).source() == old(self).source(),
            0 <= old(self).position() <= final(self).position() <= old(self).source().len(),
            match result {
                Some(token) => {
                    &&& old(self).lexable()
                    &&& !(old(self).lexeme().token is EOF)
                    &&& token@ == old(self).lexeme().token
                    &&& final(self).position() == old(self).lexeme().end
                    &&& final(self).position() > old(self).position()
                },
                None => if old(self).lexable() {
                    &&& old(self).lexeme().token is EOF
                    &&& final(self).position() == old(self).lexeme().end
                } else {
                    final(self).position() == old(self).position()
                },
            },
    {
        proof {
            use_type_invariant(&*self);
            lemma_next_lexeme(self.chars@, self.pos as int);
        }
        if !self.can_lex() {
            return None;
        }
        match self.lex() {
            Ok(Token::EOF) => None,
            Ok(token) => Some(token),
            Err(_) => None,
        }
    }
}

/// Decides whether every number literal of `input` is well formed.
#[verifier::loop_isolation(false)]
pub fn is_lexable(input: &str) -> (b: bool)
    ensures
        b == lexable_from(input@, 0),
{
    let mut lexer = Lexer::new(input);
    loop
        invariant
            lexer.source() == input@,
            0 <= lexer.position() <= input@.len(),
            lexable_from(input@, lexer.position()) == lexable_from(input@, 0),
        decreases input@.len() - lexer.position(),
    {
        proof {
            lemma_next_lexeme(input@, lexer.position());
        }
        match lexer.next() {
            Some(_) => {},
            None => {
                return lexer.can_lex();
            },
        }
    }
}

} // verus!
