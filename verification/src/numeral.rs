//! Number literals: the grammar of a decimal floating-point literal, and a
//! scanner that decides it.
//!
//! ```text
//! Literal  ::= Sign? ( 'inf' | 'infinity' | 'nan' | Number )
//! Number   ::= Mantissa Exponent?
//! Mantissa ::= Digit+ | Digit+ '.' Digit* | Digit* '.' Digit+
//! Exponent ::= 'e' Sign? Digit+
//! Sign     ::= '+' | '-'
//! Digit    ::= '0' ... '9'
//! ```
//!
//! Letters are taken in either case. This is the grammar on which the
//! standard parse of a double-precision number succeeds.

use vstd::prelude::*;
use vstd::slice::slice_subrange;
use crate::text::chars_of;

verus! {

/// One of the ten decimal digits.
pub open spec fn is_digit(c: char) -> bool {
    '0' <= c && c <= '9'
}

/// A plus or a minus sign.
pub open spec fn is_sign(c: char) -> bool {
    c == '+' || c == '-'
}

/// `c` is the lower-case ASCII letter `lower` or its capital.
pub open spec fn either_case(c: char, lower: char) -> bool {
    c == lower || c as int == lower as int - 32
}

/// Every character of `s` from `from` up to `to` is a digit.
pub open spec fn digits_between(s: Seq<char>, from: int, to: int) -> bool {
    forall|k: int| from <= k < to ==> is_digit(#[trigger] s[k])
}

/// Where the run of digits that starts at `i` ends.
pub open spec fn digits_end(s: Seq<char>, i: int) -> int
    decreases s.len() - i,
{
    if 0 <= i < s.len() && is_digit(s[i]) {
        digits_end(s, i + 1)
    } else {
        i
    }
}

/// `Digit+ | Digit+ '.' Digit* | Digit* '.' Digit+`
pub open spec fn is_mantissa(s: Seq<char>) -> bool {
    ||| s.len() >= 1 && digits_between(s, 0, s.len() as int)
    ||| s.len() >= 2 && exists|p: int|
        0 <= p < s.len() && #[trigger] s[p] == '.' && digits_between(s, 0, p) && digits_between(
            s,
            p + 1,
            s.len() as int,
        )
}

/// `'e' Sign? Digit+`
pub open spec fn is_exponent(s: Seq<char>) -> bool {
    &&& s.len() >= 2
    &&& either_case(s[0], 'e')
    &&& {
        ||| digits_between(s, 1, s.len() as int)
        ||| s.len() >= 3 && is_sign(s[1]) && digits_between(s, 2, s.len() as int)
    }
}

/// `Mantissa Exponent?`
pub open spec fn is_number(s: Seq<char>) -> bool {
    exists|m: int|
        0 <= m <= s.len() && is_mantissa(#[trigger] s.take(m)) && (m == s.len() || is_exponent(
            s.skip(m),
        ))
}

/// `'inf' | 'infinity' | 'nan'`, in either case.
pub open spec fn is_special(s: Seq<char>) -> bool {
    ||| s.len() == 3 && either_case(s[0], 'i') && either_case(s[1], 'n') && either_case(s[2], 'f')
    ||| s.len() == 3 && either_case(s[0], 'n') && either_case(s[1], 'a') && either_case(s[2], 'n')
    ||| s.len() == 8 && either_case(s[0], 'i') && either_case(s[1], 'n') && either_case(s[2], 'f')
        && either_case(s[3], 'i') && either_case(s[4], 'n') && either_case(s[5], 'i')
        && either_case(s[6], 't') && either_case(s[7], 'y')
}

/// What is left of `s` once one leading sign, if there is one, is taken off.
pub open spec fn unsigned_part(s: Seq<char>) -> Seq<char> {
    if s.len() > 0 && is_sign(s[0]) {
        s.skip(1)
    } else {
        s
    }
}

/// `Sign? ( 'inf' | 'infinity' | 'nan' | Number )`
pub open spec fn is_float_literal(s: Seq<char>) -> bool {
    is_special(unsigned_part(s)) || is_number(unsigned_part(s))
}

/// A run of digits ends at or after its start, inside the text, holds digits
/// only, and a digit does not follow it.
pub proof fn lemma_digits_end(s: Seq<char>, i: int)
    requires
        0 <= i <= s.len(),
    ensures
        i <= digits_end(s, i) <= s.len(),
        digits_between(s, i, digits_end(s, i)),
        digits_end(s, i) < s.len() ==> !is_digit(s[digits_end(s, i)]),
    decreases s.len() - i,
{
    if i < s.len() && is_digit(s[i]) {
        lemma_digits_end(s, i + 1);
    }
}

/// A run of digits is fixed by its two properties: digits only, and no digit
/// after it.
pub proof fn lemma_digits_end_is(s: Seq<char>, i: int, j: int)
    requires
        0 <= i <= j <= s.len(),
        digits_between(s, i, j),
        j < s.len() ==> !is_digit(s[j]),
    ensures
        digits_end(s, i) == j,
    decreases j - i,
{
    if i < j {
        assert(is_digit(s[i]));
        lemma_digits_end_is(s, i + 1, j);
    }
}

/// Where the mantissa that starts at `i` would end: digits, then at most one
/// point, then digits.
pub open spec fn mantissa_end(s: Seq<char>, i: int) -> int {
    let a = digits_end(s, i);
    if 0 <= a < s.len() && s[a] == '.' {
        digits_end(s, a + 1)
    } else {
        a
    }
}

/// How many digits the stretch from `i` to `mantissa_end(s, i)` holds.
pub open spec fn mantissa_digits(s: Seq<char>, i: int) -> int {
    let a = digits_end(s, i);
    if 0 <= a < s.len() && s[a] == '.' {
        mantissa_end(s, i) - i - 1
    } else {
        a - i
    }
}

/// The scanner's view of `Number`: the longest mantissa from the start has a
/// digit, and either ends the text or is followed by an exponent that does.
pub open spec fn scans_as_number(s: Seq<char>) -> bool {
    let m = mantissa_end(s, 0);
    &&& mantissa_digits(s, 0) >= 1
    &&& m < s.len() ==> {
        let d = if m + 1 < s.len() && is_sign(s[m + 1]) {
            m + 2
        } else {
            m + 1
        };
        &&& either_case(s[m], 'e')
        &&& d < s.len()
        &&& digits_end(s, d) == s.len()
    }
}

/// The grammar and the scanner agree on what a number is.
pub proof fn lemma_number_scan(s: Seq<char>)
    ensures
        is_number(s) == scans_as_number(s),
{
    let a = digits_end(s, 0);
    let m = mantissa_end(s, 0);
    lemma_digits_end(s, 0);
    if a < s.len() {
        lemma_digits_end(s, a + 1);
    }
    if scans_as_number(s) {
        let head = s.take(m);
        if a < s.len() && s[a] == '.' {
            assert(head[a] == '.');
            assert(digits_between(head, 0, a));
            assert(digits_between(head, a + 1, head.len() as int));
        } else {
            assert(digits_between(head, 0, head.len() as int));
        }
        assert(is_mantissa(head));
        if m < s.len() {
            let tail = s.skip(m);
            let d = if m + 1 < s.len() && is_sign(s[m + 1]) {
                m + 2
            } else {
                m + 1
            };
            lemma_digits_end(s, d);
            assert(tail[0] == s[m]);
            if d == m + 2 {
                assert(tail[1] == s[m + 1]);
                assert(digits_between(tail, 2, tail.len() as int)) by {
                    assert forall|k: int| 2 <= k < tail.len() implies is_digit(
                        #[trigger] tail[k],
                    ) by {
                        assert(tail[k] == s[m + k]);
                    }
                }
            } else {
                assert(digits_between(tail, 1, tail.len() as int)) by {
                    assert forall|k: int| 1 <= k < tail.len() implies is_digit(
                        #[trigger] tail[k],
                    ) by {
                        assert(tail[k] == s[m + k]);
                    }
                }
            }
            assert(is_exponent(tail));
        }
        assert(is_number(s));
    }
    if is_number(s) {
        let w = choose|w: int|
            0 <= w <= s.len() && is_mantissa(#[trigger] s.take(w)) && (w == s.len() || is_exponent(
                s.skip(w),
            ));
        let head = s.take(w);
        // what follows the mantissa is no digit and no point
        if w < s.len() {
            assert(s.skip(w)[0] == s[w]);
            assert(!is_digit(s[w]) && s[w] != '.');
        }
        if head.len() >= 1 && digits_between(head, 0, head.len() as int) {
            assert(digits_between(s, 0, w)) by {
                assert forall|k: int| 0 <= k < w implies is_digit(#[trigger] s[k]) by {
                    assert(head[k] == s[k]);
                }
            }
            lemma_digits_end_is(s, 0, w);
            assert(m == w);
        } else {
            let p = choose|p: int|
                0 <= p < head.len() && #[trigger] head[p] == '.' && digits_between(head, 0, p)
                    && digits_between(head, p + 1, head.len() as int);
            assert(s[p] == head[p]);
            assert(digits_between(s, 0, p)) by {
                assert forall|k: int| 0 <= k < p implies is_digit(#[trigger] s[k]) by {
                    assert(head[k] == s[k]);
                }
            }
            lemma_digits_end_is(s, 0, p);
            assert(digits_between(s, p + 1, w)) by {
                assert forall|k: int| p + 1 <= k < w implies is_digit(#[trigger] s[k]) by {
                    assert(head[k] == s[k]);
                }
            }
            lemma_digits_end_is(s, p + 1, w);
            assert(m == w);
        }
        if m < s.len() {
            let tail = s.skip(m);
            assert(tail[0] == s[m]);
            assert(tail[1] == s[m + 1]);
            let d = if m + 1 < s.len() && is_sign(s[m + 1]) {
                m + 2
            } else {
                m + 1
            };
            assert(digits_between(s, d, s.len() as int)) by {
                assert forall|k: int| d <= k < s.len() implies is_digit(#[trigger] s[k]) by {
                    assert(tail[k - m] == s[k]);
                }
            }
            lemma_digits_end_is(s, d, s.len() as int);
        }
        assert(scans_as_number(s));
    }
}

fn digit(c: char) -> (r: bool)
    ensures
        r == is_digit(c),
{
    c >= '0' && c <= '9'
}

fn sign(c: char) -> (r: bool)
    ensures
        r == is_sign(c),
{
    c == '+' || c == '-'
}

/// The end of the run of digits that starts at `i`.
pub(crate) fn scan_digits(text: &[char], i: usize) -> (end: usize)
    requires
        i <= text@.len(),
    ensures
        end == digits_end(text@, i as int),
        i <= end <= text@.len(),
{
    let mut j: usize = i;
    while j < text.len() && digit(text[j])
        invariant
            i <= j <= text@.len(),
            digits_end(text@, j as int) == digits_end(text@, i as int),
        decreases text@.len() - j,
    {
        j = j + 1;
    }
    j
}

/// The end of the mantissa that starts at `i`.
pub(crate) fn scan_mantissa(text: &[char], i: usize) -> (end: usize)
    requires
        i <= text@.len(),
    ensures
        end == mantissa_end(text@, i as int),
        i <= end <= text@.len(),
{
    let a = scan_digits(text, i);
    if a < text.len() && text[a] == '.' {
        scan_digits(text, a + 1)
    } else {
        a
    }
}

fn special(t: &[char]) -> (r: bool)
    ensures
        r == is_special(t@),
{
    if t.len() == 3 {
        ((t[0] == 'i' || t[0] == 'I') && (t[1] == 'n' || t[1] == 'N') && (t[2] == 'f' || t[2]
            == 'F')) || ((t[0] == 'n' || t[0] == 'N') && (t[1] == 'a' || t[1] == 'A') && (t[2]
            == 'n' || t[2] == 'N'))
    } else if t.len() == 8 {
        (t[0] == 'i' || t[0] == 'I') && (t[1] == 'n' || t[1] == 'N') && (t[2] == 'f' || t[2]
            == 'F') && (t[3] == 'i' || t[3] == 'I') && (t[4] == 'n' || t[4] == 'N') && (t[5]
            == 'i' || t[5] == 'I') && (t[6] == 't' || t[6] == 'T') && (t[7] == 'y' || t[7]
            == 'Y')
    } else {
        false
    }
}

fn number(t: &[char]) -> (r: bool)
    ensures
        r == is_number(t@),
{
    proof {
        lemma_number_scan(t@);
    }
    let a = scan_digits(t, 0);
    let dotted = a < t.len() && t[a] == '.';
    let m = if dotted {
        scan_digits(t, a + 1)
    } else {
        a
    };
    let digits = if dotted {
        m - 1
    } else {
        a
    };
    if digits == 0 {
        return false;
    }
    if m == t.len() {
        return true;
    }
    if !(t[m] == 'e' || t[m] == 'E') {
        return false;
    }
    let d = if m + 1 < t.len() && sign(t[m + 1]) {
        m + 2
    } else {
        m + 1
    };
    if d >= t.len() {
        return false;
    }
    let e = scan_digits(t, d);
    e == t.len()
}

/// Whether the characters spell a floating-point literal.
pub fn is_literal(text: &[char]) -> (r: bool)
    ensures
        r == is_float_literal(text@),
{
    let start: usize = if text.len() > 0 && sign(text[0]) {
        1
    } else {
        0
    };
    let body = slice_subrange(text, start, text.len());
    assert(body@ =~= unsigned_part(text@));
    special(body) || number(body)
}

/// Whether the string spells a floating-point literal: whether the standard
/// parse of a double-precision number would accept it.
pub fn is_numeric(s: &str) -> (r: bool)
    ensures
        r == is_float_literal(s@),
{
    let chars = chars_of(s);
    is_literal(chars.as_slice())
}

} // verus!
