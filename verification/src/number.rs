//! Number literals: their form, and the integer part of their decimal value.
//!
//! A literal is kept as the text that was written. Its form is
//! `digits [ '.' digits ] [ ('e' | 'E') digits ]` with at least one digit in
//! the mantissa; its value is the mantissa scaled by ten to the exponent.

use crate::text::{is_digit, lemma_span_end, scan, span_end, CharClass};
use vstd::arithmetic::power::{
    lemma_pow0, lemma_pow1, lemma_pow_adds, lemma_pow_increases, lemma_pow_positive, pow,
};
use vstd::prelude::*;

verus! {

/// The number that one decimal digit denotes.
pub open spec fn digit_value(c: char) -> nat {
    (c as int - '0' as int) as nat
}

/// The number that a run of decimal digits denotes; zero for the empty run.
pub open spec fn digits_value(d: Seq<char>) -> nat
    decreases d.len(),
{
    if d.len() == 0 {
        0
    } else {
        digits_value(d.drop_last()) * 10 + digit_value(d.last())
    }
}

/// Whether every character of `d` is a decimal digit.
pub open spec fn all_digits(d: Seq<char>) -> bool {
    forall|i: int| 0 <= i < d.len() ==> is_digit(#[trigger] d[i])
}

/// The end of the digits before the decimal point.
pub open spec fn int_end(s: Seq<char>) -> int {
    span_end(s, 0, CharClass::Digit)
}

/// Whether a decimal point follows the leading digits.
pub open spec fn has_point(s: Seq<char>) -> bool {
    int_end(s) < s.len() && s[int_end(s)] == '.'
}

/// Where the digits after the decimal point begin.
pub open spec fn frac_start(s: Seq<char>) -> int {
    if has_point(s) {
        int_end(s) + 1
    } else {
        int_end(s)
    }
}

/// Where the digits after the decimal point end.
pub open spec fn frac_end(s: Seq<char>) -> int {
    span_end(s, frac_start(s), CharClass::Digit)
}

/// Whether an exponent mark follows the mantissa.
pub open spec fn has_exponent(s: Seq<char>) -> bool {
    frac_end(s) < s.len() && (s[frac_end(s)] == 'e' || s[frac_end(s)] == 'E')
}

/// Where the exponent's digits end; the end of the mantissa if there is no
/// exponent.
pub open spec fn exp_end(s: Seq<char>) -> int {
    if has_exponent(s) {
        span_end(s, frac_end(s) + 1, CharClass::Digit)
    } else {
        frac_end(s)
    }
}

/// Whether `s` is a well-formed literal: a mantissa with at least one digit
/// and at most one decimal point, then optionally an exponent mark followed
/// by at least one digit, and nothing else.
pub open spec fn is_float_literal(s: Seq<char>) -> bool {
    &&& int_end(s) + (frac_end(s) - frac_start(s)) >= 1
    &&& has_exponent(s) ==> exp_end(s) > frac_end(s) + 1
    &&& exp_end(s) == s.len()
}

/// The digits of the mantissa, without the decimal point.
pub open spec fn mantissa(s: Seq<char>) -> Seq<char> {
    s.subrange(0, int_end(s)) + s.subrange(frac_start(s), frac_end(s))
}

/// The exponent that the literal states; zero if it states none.
pub open spec fn exponent(s: Seq<char>) -> nat {
    if has_exponent(s) {
        digits_value(s.subrange(frac_end(s) + 1, exp_end(s)))
    } else {
        0
    }
}

/// The integer part of the literal's decimal value. Scaling by the exponent
/// moves the decimal point to the right, so the integer part is spelled by
/// the first `int_end + exponent` digits of the mantissa, continued with
/// zeros where the mantissa is shorter than that.
pub open spec fn integer_part(s: Seq<char>) -> nat {
    let m = mantissa(s);
    let shift = int_end(s) + exponent(s);
    if shift <= m.len() {
        digits_value(m.take(shift))
    } else {
        (digits_value(m) * pow(10, (shift - m.len()) as nat)) as nat
    }
}

/// `v` if it fits into a `usize`, the largest `usize` otherwise.
pub open spec fn saturated(v: nat) -> usize {
    if v > usize::MAX {
        usize::MAX
    } else {
        v as usize
    }
}

/// Appending a digit multiplies the value by ten and adds the digit.
pub proof fn lemma_digits_push(d: Seq<char>, c: char)
    ensures
        digits_value(d.push(c)) == digits_value(d) * 10 + digit_value(c),
{
    assert(d.push(c).drop_last() =~= d);
}

/// A run of `n` digits denotes a number below ten to the `n`.
pub proof fn lemma_digits_bound(d: Seq<char>)
    requires
        all_digits(d),
    ensures
        digits_value(d) < pow(10, d.len()),
    decreases d.len(),
{
    if d.len() == 0 {
        lemma_pow0(10);
    } else {
        let front = d.drop_last();
        lemma_digits_bound(front);
        lemma_pow_adds(10, front.len(), 1);
        lemma_pow1(10);
    }
}

/// Adds one digit to a saturated running value.
fn push_digit(acc: usize, c: char, Ghost(v): Ghost<nat>) -> (r: usize)
    requires
        is_digit(c),
        acc == saturated(v),
    ensures
        r == saturated(v * 10 + digit_value(c)),
{
    let d: usize = (c as u32 - '0' as u32) as usize;
    match acc.checked_mul(10) {
        Some(t) => match t.checked_add(d) {
            Some(r) => r,
            None => usize::MAX,
        },
        None => usize::MAX,
    }
}

/// Continues a saturated running value with the digits of `text` from `start`
/// up to `end`.
fn accumulate(
    text: &Vec<char>,
    start: usize,
    end: usize,
    acc: usize,
    Ghost(prefix): Ghost<Seq<char>>,
) -> (r: usize)
    requires
        start <= end <= text.len(),
        forall|i: int| start <= i < end ==> is_digit(#[trigger] text@[i]),
        acc == saturated(digits_value(prefix)),
    ensures
        r == saturated(digits_value(prefix + text@.subrange(start as int, end as int))),
{
    let mut acc = acc;
    let mut i: usize = start;
    while i < end
        invariant
            start <= i <= end <= text.len(),
            forall|j: int| start <= j < end ==> is_digit(#[trigger] text@[j]),
            acc == saturated(digits_value(prefix + text@.subrange(start as int, i as int))),
        decreases end - i,
    {
        let ghost sofar = prefix + text@.subrange(start as int, i as int);
        proof {
            lemma_digits_push(sofar, text@[i as int]);
            assert(sofar.push(text@[i as int]) =~= prefix + text@.subrange(start as int, i + 1));
        }
        acc = push_digit(acc, text[i], Ghost(digits_value(sofar)));
        i += 1;
    }
    acc
}

/// The exact value of the digits of `text` from `start` up to `end`, or
/// `None` if it does not fit into a `usize`.
fn digits_checked(text: &Vec<char>, start: usize, end: usize) -> (r: Option<usize>)
    requires
        start <= end <= text.len(),
        forall|i: int| start <= i < end ==> is_digit(#[trigger] text@[i]),
    ensures
        match r {
            Some(v) => v == digits_value(text@.subrange(start as int, end as int)),
            None => digits_value(text@.subrange(start as int, end as int)) > usize::MAX,
        },
{
    let mut acc: usize = 0;
    let mut overflow = false;
    let mut i: usize = start;
    while i < end
        invariant
            start <= i <= end <= text.len(),
            forall|j: int| start <= j < end ==> is_digit(#[trigger] text@[j]),
            !overflow ==> acc == digits_value(text@.subrange(start as int, i as int)),
            overflow ==> digits_value(text@.subrange(start as int, i as int)) > usize::MAX,
        decreases end - i,
    {
        let ghost sofar = text@.subrange(start as int, i as int);
        proof {
            lemma_digits_push(sofar, text@[i as int]);
            assert(sofar.push(text@[i as int]) =~= text@.subrange(start as int, i + 1));
        }
        if !overflow {
            let d: usize = (text[i] as u32 - '0' as u32) as usize;
            match acc.checked_mul(10) {
                Some(t) => match t.checked_add(d) {
                    Some(r) => {
                        acc = r;
                    },
                    None => {
                        overflow = true;
                    },
                },
                None => {
                    overflow = true;
                },
            }
        }
        i += 1;
    }
    if overflow {
        None
    } else {
        Some(acc)
    }
}

/// Decides whether `text` is a well-formed literal.
pub fn is_float_literal_text(text: &Vec<char>) -> (b: bool)
    ensures
        b == is_float_literal(text@),
{
    let n = text.len();
    let ni = scan(text, 0, CharClass::Digit);
    let fs = if ni < n && text[ni] == '.' {
        ni + 1
    } else {
        ni
    };
    let fe = scan(text, fs, CharClass::Digit);
    if ni + (fe - fs) < 1 {
        return false;
    }
    if fe < n && (text[fe] == 'e' || text[fe] == 'E') {
        let ee = scan(text, fe + 1, CharClass::Digit);
        ee > fe + 1 && ee == n
    } else {
        fe == n
    }
}

/// Multiplies a saturated running value by ten to the `k`.
fn scale_up(acc: usize, k: usize, Ghost(v): Ghost<nat>) -> (r: usize)
    requires
        acc == saturated(v),
    ensures
        r == saturated((v * pow(10, k as nat)) as nat),
{
    let mut acc = acc;
    let mut i: usize = 0;
    proof {
        lemma_pow0(10);
    }
    while i < k && acc != 0 && acc != usize::MAX
        invariant
            0 <= i <= k,
            acc == saturated((v * pow(10, i as nat)) as nat),
            pow(10, i as nat) >= 1,
        decreases k - i,
    {
        proof {
            lemma_pow_adds(10, i as nat, 1);
            lemma_pow1(10);
            assert(v * pow(10, (i + 1) as nat) == (v * pow(10, i as nat)) * 10)
                by (nonlinear_arith)
                requires
                    pow(10, (i + 1) as nat) == pow(10, i as nat) * 10,
            ;
        }
        acc = match acc.checked_mul(10) {
            Some(t) => t,
            None => usize::MAX,
        };
        i += 1;
    }
    proof {
        lemma_pow_increases(10, i as nat, k as nat);
        lemma_pow_positive(10, k as nat);
        assert(v * pow(10, i as nat) <= v * pow(10, k as nat)) by (nonlinear_arith)
            requires
                pow(10, i as nat) <= pow(10, k as nat),
                v >= 0,
        ;
        assert(v == 0 ==> v * pow(10, k as nat) == 0) by (nonlinear_arith);
        assert(v * pow(10, i as nat) == 0 ==> v == 0) by (nonlinear_arith)
            requires
                pow(10, i as nat) >= 1,
        ;
    }
    acc
}

/// A value other than zero, multiplied by ten to more than the length of a
/// run of digits, exceeds what that run denotes.
proof fn lemma_scaled_beyond(v: nat, digits: Seq<char>, k: nat)
    requires
        all_digits(digits),
        v >= 1,
        k >= digits.len(),
    ensures
        v * pow(10, k) > digits_value(digits),
{
    lemma_digits_bound(digits);
    lemma_pow_increases(10, digits.len(), k);
    lemma_pow_positive(10, k);
    assert(v * pow(10, k) >= pow(10, k)) by (nonlinear_arith)
        requires
            v >= 1,
            pow(10, k) > 0,
    ;
}

/// The integer part of the literal's value, held at the largest `usize`
/// where it exceeds it.
#[verifier::rlimit(50)]
pub fn integer_part_of(text: &Vec<char>) -> (r: usize)
    ensures
        r == saturated(integer_part(text@)),
{
    let n = text.len();
    let ghost s = text@;
    let ni = scan(text, 0, CharClass::Digit);
    let fs = if ni < n && text[ni] == '.' {
        ni + 1
    } else {
        ni
    };
    let fe = scan(text, fs, CharClass::Digit);
    proof {
        lemma_span_end(s, 0, CharClass::Digit);
        lemma_span_end(s, fs as int, CharClass::Digit);
    }
    let ghost m = mantissa(s);
    let ghost whole = s.subrange(0, ni as int);
    let int_value = accumulate(text, 0, ni, 0, Ghost(Seq::empty()));
    if !(fe < n && (text[fe] == 'e' || text[fe] == 'E')) {
        assert(m.take(ni as int) =~= whole);
        return int_value;
    }
    let ee = scan(text, fe + 1, CharClass::Digit);
    proof {
        lemma_span_end(s, fe + 1, CharClass::Digit);
    }
    let frac: usize = fe - fs;
    match digits_checked(text, fe + 1, ee) {
        Some(e) => {
            if e <= frac {
                let r = accumulate(text, fs, fs + e, int_value, Ghost(whole));
                assert(m.take(ni + e) =~= whole + s.subrange(fs as int, fs + e));
                r
            } else {
                let all = accumulate(text, fs, fe, int_value, Ghost(whole));
                scale_up(all, e - frac, Ghost(digits_value(m)))
            }
        },
        None => {
            let all = accumulate(text, fs, fe, int_value, Ghost(whole));
            proof {
                let v = digits_value(m);
                let k = (ni + exponent(s) - m.len()) as nat;
                if v >= 1 {
                    lemma_scaled_beyond(v, s.subrange(fe + 1, ee as int), k);
                } else {
                    assert(v * pow(10, k) == 0) by (nonlinear_arith)
                        requires
                            v == 0,
                    ;
                }
            }
            if all == 0 {
                0
            } else {
                usize::MAX
            }
        },
    }
}

} // verus!
