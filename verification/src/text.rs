//! Character classes of the language and scanning of character runs.

use vstd::prelude::*;

verus! {

/// Whether `c` has the Unicode `White_Space` property.
pub uninterp spec fn unicode_whitespace(c: char) -> bool;

/// Whether `c` is alphabetic or numeric in the sense of Unicode.
pub uninterp spec fn unicode_alphanumeric(c: char) -> bool;

/// Whether `c` lies in the ASCII range.
pub open spec fn is_ascii(c: char) -> bool {
    c <= '\u{7f}'
}

/// The ASCII characters with the `White_Space` property: the space and the
/// five controls from the horizontal tab to the carriage return.
pub open spec fn is_ascii_blank(c: char) -> bool {
    c == ' ' || '\t' <= c <= '\r'
}

/// The ASCII characters that are alphabetic or numeric: the letters and the
/// decimal digits.
pub open spec fn is_ascii_alphanumeric(c: char) -> bool {
    ||| 'a' <= c <= 'z'
    ||| 'A' <= c <= 'Z'
    ||| '0' <= c <= '9'
}

/// `char::is_whitespace`: the result is the Unicode `White_Space` property of
/// `c`, a fixed function of the character. In the ASCII range that property
/// holds of the space and of the controls from the horizontal tab to the
/// carriage return, and of nothing else; this much is claimed in full.
/// Beyond ASCII only the name is claimed.
#[verifier::external_body]
pub(crate) fn is_whitespace(c: char) -> (b: bool)
    ensures
        b == unicode_whitespace(c),
        is_ascii(c) ==> b == is_ascii_blank(c),
{
    c.is_whitespace()
}

/// `char::is_alphanumeric`: the result says whether `c` is alphabetic or
/// numeric in the sense of Unicode, a fixed function of the character. In
/// the ASCII range these are the letters and the decimal digits, and nothing
/// else; this much is claimed in full. Beyond ASCII only the name is
/// claimed.
#[verifier::external_body]
pub(crate) fn is_alphanumeric(c: char) -> (b: bool)
    ensures
        b == unicode_alphanumeric(c),
        is_ascii(c) ==> b == is_ascii_alphanumeric(c),
{
    c.is_alphanumeric()
}

/// `String::push`: the string grows by exactly the character `c` at its end.
#[verifier::external_body]
pub(crate) fn push_char(s: &mut String, c: char)
    ensures
        final(s)@ == old(s)@.push(c),
{
    s.push(c)
}

/// An ASCII decimal digit.
pub open spec fn is_digit(c: char) -> bool {
    '0' <= c <= '9'
}

/// A digit in radix sixteen: `0-9`, `a-f` or `A-F`.
pub open spec fn is_hex_digit(c: char) -> bool {
    ||| '0' <= c <= '9'
    ||| 'a' <= c <= 'f'
    ||| 'A' <= c <= 'F'
}

/// A character that may begin a number literal.
pub open spec fn is_number_start(c: char) -> bool {
    c == '.' || is_digit(c)
}

/// A character that continues a number literal once it has begun.
pub open spec fn is_number_part(c: char) -> bool {
    c == '.' || is_hex_digit(c)
}

/// A character that may begin an identifier or keyword.
pub open spec fn is_ident_start(c: char) -> bool {
    ||| 'a' <= c <= 'z'
    ||| 'A' <= c <= 'Z'
    ||| c == '_'
}

/// Blank space: in the ASCII range the space and the controls from the
/// horizontal tab to the carriage return, beyond it every character with the
/// Unicode `White_Space` property.
pub open spec fn is_blank(c: char) -> bool {
    if is_ascii(c) {
        is_ascii_blank(c)
    } else {
        unicode_whitespace(c)
    }
}

/// A letter or digit: in the ASCII range the letters and the decimal digits,
/// beyond it every character that is alphabetic or numeric in the sense of
/// Unicode.
pub open spec fn is_alphanumeric_char(c: char) -> bool {
    if is_ascii(c) {
        is_ascii_alphanumeric(c)
    } else {
        unicode_alphanumeric(c)
    }
}

/// A character that continues an identifier or keyword once it has begun.
pub open spec fn is_ident_part(c: char) -> bool {
    c == '_' || is_alphanumeric_char(c)
}

/// The kinds of character run that the lexer scans over.
#[derive(Clone, Copy, Debug, PartialEq, Eq)]
pub enum CharClass {
    /// Blank space between tokens.
    Whitespace,
    /// ASCII decimal digits.
    Digit,
    /// The inside of a line comment: anything but a line feed.
    CommentBody,
    /// The tail of a number literal.
    NumberPart,
    /// The tail of an identifier or keyword.
    IdentPart,
}

/// Membership of `c` in `class`.
pub open spec fn in_class(class: CharClass, c: char) -> bool {
    match class {
        CharClass::Whitespace => is_blank(c),
        CharClass::Digit => is_digit(c),
        CharClass::CommentBody => c != '\n',
        CharClass::NumberPart => is_number_part(c),
        CharClass::IdentPart => is_ident_part(c),
    }
}

/// The end of the longest run of `class` characters that starts at `from`:
/// the first index at or after `from` whose character is outside the class,
/// or the length of `s` when the run reaches the end.
pub open spec fn span_end(s: Seq<char>, from: int, class: CharClass) -> int
    decreases s.len() - from,
{
    if 0 <= from < s.len() && in_class(class, s[from]) {
        span_end(s, from + 1, class)
    } else {
        from
    }
}

/// `span_end` marks a run: it lies between `from` and the end of the text,
/// every character before it is in the class, and the character at it, if
/// there is one, is not.
pub proof fn lemma_span_end(s: Seq<char>, from: int, class: CharClass)
    requires
        0 <= from <= s.len(),
    ensures
        from <= span_end(s, from, class) <= s.len(),
        forall|i: int| from <= i < span_end(s, from, class) ==> in_class(class, #[trigger] s[i]),
        span_end(s, from, class) < s.len() ==> !in_class(class, s[span_end(s, from, class)]),
    decreases s.len() - from,
{
    if from < s.len() && in_class(class, s[from]) {
        lemma_span_end(s, from + 1, class);
    }
}

/// A run is determined by its characters: any index that closes a run of
/// `class` characters begun at `from` is `span_end`.
pub proof fn lemma_span_end_unique(s: Seq<char>, from: int, class: CharClass, end: int)
    requires
        0 <= from <= end <= s.len(),
        forall|i: int| from <= i < end ==> in_class(class, #[trigger] s[i]),
        end < s.len() ==> !in_class(class, s[end]),
    ensures
        span_end(s, from, class) == end,
    decreases end - from,
{
    if from < end {
        lemma_span_end_unique(s, from + 1, class, end);
    }
}

/// Decides whether `c` is an ASCII decimal digit.
pub fn is_digit_char(c: char) -> (b: bool)
    ensures
        b == is_digit(c),
{
    '0' <= c && c <= '9'
}

/// Decides whether `c` is a digit in radix sixteen.
pub fn is_hex_digit_char(c: char) -> (b: bool)
    ensures
        b == is_hex_digit(c),
{
    ('0' <= c && c <= '9') || ('a' <= c && c <= 'f') || ('A' <= c && c <= 'F')
}

/// Decides whether `c` may begin a number literal.
pub fn is_number_start_char(c: char) -> (b: bool)
    ensures
        b == is_number_start(c),
{
    c == '.' || is_digit_char(c)
}

/// Decides whether `c` may begin an identifier or keyword.
pub fn is_ident_start_char(c: char) -> (b: bool)
    ensures
        b == is_ident_start(c),
{
    ('a' <= c && c <= 'z') || ('A' <= c && c <= 'Z') || c == '_'
}

/// Decides membership of `c` in `class`.
pub fn class_contains(class: CharClass, c: char) -> (b: bool)
    ensures
        b == in_class(class, c),
{
    match class {
        CharClass::Whitespace => is_whitespace(c),
        CharClass::Digit => is_digit_char(c),
        CharClass::CommentBody => c != '\n',
        CharClass::NumberPart => c == '.' || is_hex_digit_char(c),
        CharClass::IdentPart => c == '_' || is_alphanumeric(c),
    }
}

/// Scans the run of `class` characters that starts at `from`.
pub fn scan(chars: &Vec<char>, from: usize, class: CharClass) -> (end: usize)
    requires
        from <= chars.len(),
    ensures
        end == span_end(chars@, from as int, class),
        from <= end <= chars.len(),
{
    let mut i: usize = from;
    while i < chars.len() && class_contains(class, chars[i])
        invariant
            from <= i <= chars.len(),
            span_end(chars@, i as int, class) == span_end(chars@, from as int, class),
        decreases chars.len() - i,
    {
        i += 1;
    }
    i
}

/// Whether the characters of `chars` from `start` up to `end` spell `word`.
pub fn span_is(chars: &Vec<char>, start: usize, end: usize, word: &[char]) -> (b: bool)
    requires
        start <= end <= chars.len(),
    ensures
        b == (chars@.subrange(start as int, end as int) == word@),
{
    if end - start != word.len() {
        return false;
    }
    let n = word.len();
    let mut i: usize = 0;
    while i < n
        invariant
            n == word.len(),
            n == end - start,
            start <= end <= chars.len(),
            0 <= i <= n,
            forall|j: int| 0 <= j < i ==> chars@[start + j] == word@[j],
        decreases n - i,
    {
        if chars[start + i] != word[i] {
            return false;
        }
        i += 1;
    }
    assert(chars@.subrange(start as int, end as int) =~= word@);
    true
}

/// The characters of a string, in order.
pub fn chars_of(s: &str) -> (v: Vec<char>)
    ensures
        v@ == s@,
{
    let mut v: Vec<char> = Vec::new();
    for c in it: s.chars()
        invariant
            it.seq() == s@,
            v@ == s@.take(it.index() as int),
    {
        v.push(c);
    }
    v
}

/// The characters of `chars` from `start` up to `end`.
pub fn copy_of(chars: &Vec<char>, start: usize, end: usize) -> (v: Vec<char>)
    requires
        start <= end <= chars.len(),
    ensures
        v@ == chars@.subrange(start as int, end as int),
{
    let mut v: Vec<char> = Vec::new();
    let mut i: usize = start;
    while i < end
        invariant
            start <= i <= end <= chars.len(),
            v@ == chars@.subrange(start as int, i as int),
        decreases end - i,
    {
        v.push(chars[i]);
        i += 1;
    }
    v
}

/// The string spelled by the characters of `chars` from `start` up to `end`.
pub fn string_of(chars: &Vec<char>, start: usize, end: usize) -> (s: String)
    requires
        start <= end <= chars.len(),
    ensures
        s@ == chars@.subrange(start as int, end as int),
{
    let mut s = String::new();
    let mut i: usize = start;
    while i < end
        invariant
            start <= i <= end <= chars.len(),
            s@ == chars@.subrange(start as int, i as int),
        decreases end - i,
    {
        push_char(&mut s, chars[i]);
        i += 1;
    }
    s
}

} // verus!
