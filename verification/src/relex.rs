//! Lexing again what the lexer found.
//!
//! Write the text of every token of a source one after the other, comments
//! left out, and lex the result. With a space between each two tokens they
//! come out as they were, whatever the source. With nothing in between they
//! come out as they were exactly when no token runs on into the next one: a
//! number literal into a following hexadecimal digit or `.`, a word into a
//! following alphanumeric character or `_`. Tokens of one character never
//! run on.

use crate::lexer::{
    code_tokens, lemma_end_of_text, lemma_next_lexeme, next_lexeme, token_stream, word_token,
    Lexeme,
};
use crate::text::{
    in_class, is_blank, is_ident_part, is_ident_start, is_number_part, is_number_start,
    lemma_span_end, lemma_span_end_unique, span_end, CharClass,
};
use vstd::prelude::*;

verus! {

/// The text that spells the tokens of `s` from `pos` on, comments left out,
/// with nothing between one token and the next.
pub open spec fn code_text(s: Seq<char>, pos: int) -> Seq<char>
    decreases s.len() - pos,
{
    let lexeme = next_lexeme(s, pos);
    if 0 <= pos <= s.len() && !(lexeme.token is EOF) {
        proof {
            lemma_next_lexeme(s, pos);
        }
        if lexeme.token is Comment {
            code_text(s, lexeme.end)
        } else {
            s.subrange(lexeme.start, lexeme.end) + code_text(s, lexeme.end)
        }
    } else {
        Seq::empty()
    }
}

/// Whether a token that begins with `first` takes in `next` when `next`
/// stands directly behind it.
pub open spec fn runs_on(first: char, next: char) -> bool {
    if is_number_start(first) {
        is_number_part(next)
    } else if is_ident_start(first) {
        is_ident_part(next)
    } else {
        false
    }
}

/// Whether the tokens of `s` from `pos` on, comments left out, stay apart
/// when nothing stands between them: none runs on into the one after it.
pub open spec fn stays_apart(s: Seq<char>, pos: int) -> bool
    decreases s.len() - pos,
{
    let lexeme = next_lexeme(s, pos);
    if 0 <= pos <= s.len() && !(lexeme.token is EOF) {
        proof {
            lemma_next_lexeme(s, pos);
        }
        if lexeme.token is Comment {
            stays_apart(s, lexeme.end)
        } else {
            let rest = code_text(s, lexeme.end);
            &&& rest.len() > 0 ==> !runs_on(s[lexeme.start], rest[0])
            &&& stays_apart(s, lexeme.end)
        }
    } else {
        true
    }
}

/// A word spells one token only: different words give different tokens.
pub proof fn lemma_word_token_injective(x: Seq<char>, y: Seq<char>)
    requires
        word_token(x) == word_token(y),
    ensures
        x == y,
{
}

/// A run in the second part of a text ends where it ends in that part alone.
pub proof fn lemma_span_end_shift(a: Seq<char>, r: Seq<char>, p: int, class: CharClass)
    requires
        0 <= p <= r.len(),
    ensures
        span_end(a + r, a.len() + p, class) == a.len() + span_end(r, p, class),
    decreases r.len() - p,
{
    if p < r.len() && in_class(class, r[p]) {
        lemma_span_end_shift(a, r, p + 1, class);
    }
}

/// A lexeme in the second part of a text is the lexeme of that part alone,
/// moved by the length of the first part.
pub proof fn lemma_next_lexeme_shift(a: Seq<char>, r: Seq<char>, p: int)
    requires
        0 <= p <= r.len(),
    ensures
        next_lexeme(a + r, a.len() + p) == (Lexeme {
            token: next_lexeme(r, p).token,
            start: a.len() + next_lexeme(r, p).start,
            end: a.len() + next_lexeme(r, p).end,
        }),
{
    let w = a + r;
    let n = a.len() as int;
    lemma_span_end_shift(a, r, p, CharClass::Whitespace);
    lemma_span_end(r, p, CharClass::Whitespace);
    let start = span_end(r, p, CharClass::Whitespace);
    if start < r.len() {
        lemma_span_end_shift(a, r, start + 1, CharClass::CommentBody);
        lemma_span_end_shift(a, r, start + 1, CharClass::NumberPart);
        lemma_span_end_shift(a, r, start + 1, CharClass::IdentPart);
        lemma_span_end(r, start + 1, CharClass::NumberPart);
        lemma_span_end(r, start + 1, CharClass::IdentPart);
        let number_end = span_end(r, start + 1, CharClass::NumberPart);
        let word_end = span_end(r, start + 1, CharClass::IdentPart);
        assert(w.subrange(n + start, n + number_end) =~= r.subrange(start, number_end));
        assert(w.subrange(n + start, n + word_end) =~= r.subrange(start, word_end));
    }
}

/// The tokens of the second part of a text are the tokens of that part alone.
pub proof fn lemma_token_stream_shift(a: Seq<char>, r: Seq<char>, p: int)
    requires
        0 <= p <= r.len(),
    ensures
        token_stream(a + r, a.len() + p) == token_stream(r, p),
    decreases r.len() - p,
{
    lemma_next_lexeme_shift(a, r, p);
    lemma_next_lexeme(r, p);
    if !(next_lexeme(r, p).token is EOF) {
        lemma_token_stream_shift(a, r, next_lexeme(r, p).end);
    }
}

/// The text of a token, followed by any text `r`, begins with that token
/// again if the token does not run on into `r`, and with another token if it
/// does.
pub proof fn lemma_first_lexeme(s: Seq<char>, pos: int, r: Seq<char>)
    requires
        0 <= pos <= s.len(),
        !(next_lexeme(s, pos).token is EOF),
        !(next_lexeme(s, pos).token is Comment),
    ensures
        ({
            let lexeme = next_lexeme(s, pos);
            let text = s.subrange(lexeme.start, lexeme.end);
            let again = next_lexeme(text + r, 0);
            if r.len() > 0 && runs_on(s[lexeme.start], r[0]) {
                again.token != lexeme.token && !(again.token is EOF)
            } else {
                again == (Lexeme { token: lexeme.token, start: 0, end: text.len() as int })
            }
        }),
{
    let lexeme = next_lexeme(s, pos);
    let start = lexeme.start;
    let end = lexeme.end;
    let text = s.subrange(start, end);
    let w = text + r;
    let n = text.len() as int;
    lemma_next_lexeme(s, pos);
    lemma_span_end(s, pos, CharClass::Whitespace);
    let c = s[start];
    if c == '(' || c == ')' || c == ',' {
        // One character, whatever follows.
    } else if is_number_start(c) {
        lemma_span_end(s, start + 1, CharClass::NumberPart);
        assert forall|i: int| 1 <= i < n implies in_class(
            CharClass::NumberPart,
            #[trigger] w[i],
        ) by {}
        if r.len() > 0 && is_number_part(r[0]) {
            lemma_span_end(w, 1, CharClass::NumberPart);
        } else {
            lemma_span_end_unique(w, 1, CharClass::NumberPart, n);
            assert(w.subrange(0, n) =~= text);
        }
    } else if is_ident_start(c) {
        lemma_span_end(s, start + 1, CharClass::IdentPart);
        assert forall|i: int| 1 <= i < n implies in_class(
            CharClass::IdentPart,
            #[trigger] w[i],
        ) by {}
        if r.len() > 0 && is_ident_part(r[0]) {
            lemma_span_end(w, 1, CharClass::IdentPart);
            let longer = span_end(w, 1, CharClass::IdentPart);
            if word_token(w.subrange(0, longer)) == word_token(text) {
                lemma_word_token_injective(w.subrange(0, longer), text);
            }
        } else {
            lemma_span_end_unique(w, 1, CharClass::IdentPart, n);
            assert(w.subrange(0, n) =~= text);
        }
    }
}

/// Writing the tokens of a source one after the other, comments left out, and
/// lexing the result gives the same tokens if and only if the tokens stay
/// apart.
pub proof fn law_relex(s: Seq<char>, pos: int)
    requires
        0 <= pos <= s.len(),
    ensures
        token_stream(code_text(s, pos), 0) == code_tokens(s, pos) <==> stays_apart(s, pos),
    decreases s.len() - pos,
{
    let lexeme = next_lexeme(s, pos);
    lemma_next_lexeme(s, pos);
    if lexeme.token is EOF {
        // Nothing is left on either side.
    } else if lexeme.token is Comment {
        law_relex(s, lexeme.end);
    } else {
        law_relex(s, lexeme.end);
        let text = s.subrange(lexeme.start, lexeme.end);
        let rest = code_text(s, lexeme.end);
        let w = text + rest;
        lemma_first_lexeme(s, pos, rest);
        lemma_next_lexeme(w, 0);
        let relexed = token_stream(w, 0);
        let tokens = code_tokens(s, pos);
        assert(tokens[0] == lexeme.token);
        if !(rest.len() > 0 && runs_on(s[lexeme.start], rest[0])) {
            // The first token comes out again: the rest decides.
            lemma_token_stream_shift(text, rest, 0);
            if relexed == tokens {
                assert(token_stream(rest, 0) =~= relexed.subrange(1, relexed.len() as int));
                assert(code_tokens(s, lexeme.end) =~= tokens.subrange(1, tokens.len() as int));
            }
        }
    }
}

/// The text that spells the tokens of `s` from `pos` on, comments left out,
/// with the character `sep` between one token and the next.
pub open spec fn joined_text(s: Seq<char>, pos: int, sep: char) -> Seq<char>
    decreases s.len() - pos,
{
    let lexeme = next_lexeme(s, pos);
    if 0 <= pos <= s.len() && !(lexeme.token is EOF) {
        proof {
            lemma_next_lexeme(s, pos);
        }
        let rest = joined_text(s, lexeme.end, sep);
        if lexeme.token is Comment {
            rest
        } else if rest.len() == 0 {
            s.subrange(lexeme.start, lexeme.end)
        } else {
            s.subrange(lexeme.start, lexeme.end) + (seq![sep] + rest)
        }
    } else {
        Seq::empty()
    }
}

/// Whether `sep` keeps tokens apart: it is blank space, and neither a number
/// literal nor a word takes it in.
pub open spec fn separates(sep: char) -> bool {
    &&& is_blank(sep)
    &&& !is_number_part(sep)
    &&& !is_ident_part(sep)
}

/// Blank space at the start of a text does not change its tokens.
pub proof fn lemma_leading_blank(x: Seq<char>)
    requires
        x.len() > 0,
        is_blank(x[0]),
    ensures
        token_stream(x, 0) == token_stream(x, 1),
{
}

/// Writing the tokens of a source one after the other, comments left out and
/// a separating character between each two, and lexing the result gives the
/// same tokens, whatever the source.
pub proof fn law_relex_joined(s: Seq<char>, pos: int, sep: char)
    requires
        0 <= pos <= s.len(),
        separates(sep),
    ensures
        token_stream(joined_text(s, pos, sep), 0) == code_tokens(s, pos),
    decreases s.len() - pos,
{
    let lexeme = next_lexeme(s, pos);
    lemma_next_lexeme(s, pos);
    if lexeme.token is EOF {
        lemma_end_of_text(Seq::<char>::empty());
    } else {
        law_relex_joined(s, lexeme.end, sep);
        if !(lexeme.token is Comment) {
            let text = s.subrange(lexeme.start, lexeme.end);
            let rest = joined_text(s, lexeme.end, sep);
            if rest.len() == 0 {
                lemma_first_lexeme(s, pos, Seq::empty());
                lemma_next_lexeme(text, 0);
                lemma_end_of_text(text);
                lemma_end_of_text(rest);
            } else {
                let behind = seq![sep] + rest;
                let w = text + behind;
                lemma_first_lexeme(s, pos, behind);
                lemma_next_lexeme(w, 0);
                lemma_token_stream_shift(text, behind, 0);
                lemma_leading_blank(behind);
                lemma_token_stream_shift(seq![sep], rest, 0);
            }
        }
    }
}

/// Writing the tokens of a source one after the other, comments left out and
/// joined by single spaces, and lexing the result gives the same tokens,
/// whatever the source.
pub proof fn law_relex_spaced(s: Seq<char>)
    ensures
        token_stream(joined_text(s, 0, ' '), 0) == code_tokens(s, 0),
{
    law_relex_joined(s, 0, ' ');
}

} // verus!
