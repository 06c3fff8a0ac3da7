//! Turning postfix into infix, in two steps around the formatter.
//!
//! The formatter is not part of this library. `convert_rpn` splits the input
//! into words and says what the formatter is to be asked;
//! `complete_conversion` reads the formatter's reply. The history plays no
//! part.

use vstd::prelude::*;
use vstd::slice::slice_subrange;
use vstd::utf8::{decode_utf8, encode_utf8_decode_utf8, valid_utf8};
use crate::calculation::{can_send, trim_quotes, trimmed, CReversePolishExpression};
use crate::errors::{error_text, get_error_message};
use crate::rpn::{payload_of, word_views, ReversePolish};
use crate::text::{chars_of, is_space, string_of, utf8_text};

verus! {

/// Where the run of whitespace that starts at `i` ends.
pub open spec fn spaces_end(s: Seq<char>, i: int) -> int
    decreases s.len() - i,
{
    if 0 <= i < s.len() && is_space(s[i]) {
        spaces_end(s, i + 1)
    } else {
        i
    }
}

/// Where the run of characters other than whitespace that starts at `i` ends.
pub open spec fn solid_end(s: Seq<char>, i: int) -> int
    decreases s.len() - i,
{
    if 0 <= i < s.len() && !is_space(s[i]) {
        solid_end(s, i + 1)
    } else {
        i
    }
}

/// A run of whitespace ends at or after its start, and inside the text.
pub proof fn lemma_spaces_end(s: Seq<char>, i: int)
    requires
        0 <= i <= s.len(),
    ensures
        i <= spaces_end(s, i) <= s.len(),
        spaces_end(s, i) < s.len() ==> !is_space(s[spaces_end(s, i)]),
    decreases s.len() - i,
{
    if i < s.len() && is_space(s[i]) {
        lemma_spaces_end(s, i + 1);
    }
}

/// A run of other characters ends at or after its start, and inside the
/// text.
pub proof fn lemma_solid_end(s: Seq<char>, i: int)
    requires
        0 <= i <= s.len(),
    ensures
        i <= solid_end(s, i) <= s.len(),
        i < s.len() && !is_space(s[i]) ==> i < solid_end(s, i),
    decreases s.len() - i,
{
    if i < s.len() && !is_space(s[i]) {
        lemma_solid_end(s, i + 1);
    }
}

/// The words of the text from position `i` on: the longest runs of
/// characters that are no whitespace.
pub open spec fn words_from(s: Seq<char>, i: int) -> Seq<Seq<char>>
    decreases s.len() - i,
    via words_from_decreases
{
    let start = spaces_end(s, i);
    if 0 <= i <= start < s.len() {
        seq![s.subrange(start, solid_end(s, start))] + words_from(s, solid_end(s, start))
    } else {
        Seq::empty()
    }
}

#[via_fn]
proof fn words_from_decreases(s: Seq<char>, i: int) {
    let start = spaces_end(s, i);
    if 0 <= i <= start < s.len() {
        lemma_spaces_end(s, i);
        lemma_solid_end(s, start);
    }
}

/// The words of a text: what whitespace separates.
pub open spec fn split_words(s: Seq<char>) -> Seq<Seq<char>> {
    words_from(s, 0)
}

fn skip_spaces(chars: &[char], i: usize) -> (end: usize)
    requires
        i <= chars@.len(),
    ensures
        end == spaces_end(chars@, i as int),
        i <= end <= chars@.len(),
{
    let mut j: usize = i;
    while j < chars.len() && chars[j].is_whitespace()
        invariant
            i <= j <= chars@.len(),
            spaces_end(chars@, j as int) == spaces_end(chars@, i as int),
        decreases chars@.len() - j,
    {
        j = j + 1;
    }
    j
}

fn skip_solid(chars: &[char], i: usize) -> (end: usize)
    requires
        i <= chars@.len(),
    ensures
        end == solid_end(chars@, i as int),
        i <= end <= chars@.len(),
{
    let mut j: usize = i;
    while j < chars.len() && !chars[j].is_whitespace()
        invariant
            i <= j <= chars@.len(),
            solid_end(chars@, j as int) == solid_end(chars@, i as int),
        decreases chars@.len() - j,
    {
        j = j + 1;
    }
    j
}

/// Splits a text at its whitespace.
pub fn split_whitespace(text: &str) -> (words: Vec<String>)
    ensures
        word_views(words@) == split_words(text@),
{
    let chars = chars_of(text);
    let s = chars.as_slice();
    let mut words: Vec<String> = Vec::new();
    let mut i: usize = 0;
    assert(word_views(words@) =~= Seq::<Seq<char>>::empty());
    loop
        invariant_except_break
            i <= s@.len(),
            s@ == text@,
            word_views(words@) + words_from(s@, i as int) == split_words(s@),
        ensures
            word_views(words@) == split_words(text@),
        decreases s@.len() - i,
    {
        let start = skip_spaces(s, i);
        if start >= s.len() {
            assert(word_views(words@) + Seq::<Seq<char>>::empty() =~= word_views(words@));
            break ;
        }
        proof {
            lemma_spaces_end(s@, i as int);
            lemma_solid_end(s@, start as int);
        }
        let end = skip_solid(s, start);
        let word = string_of(s, start, end);
        let ghost before = word_views(words@);
        words.push(word);
        assert(word_views(words@) =~= before + seq![word@]);
        assert(before + (seq![word@] + words_from(s@, end as int)) =~= (before + seq![word@])
            + words_from(s@, end as int));
        i = end;
    }
    words
}

/// Where the bytes before the first zero byte end: at that byte, or at the
/// end of the buffer where it holds none.
pub open spec fn text_end(buffer: Seq<u8>, i: int) -> int
    decreases buffer.len() - i,
{
    if 0 <= i < buffer.len() && buffer[i] != 0u8 {
        text_end(buffer, i + 1)
    } else {
        i
    }
}

/// The bytes of the text that a buffer holds: those before its first zero
/// byte.
pub open spec fn framed(buffer: Seq<u8>) -> Seq<u8> {
    buffer.subrange(0, text_end(buffer, 0))
}

/// What the formatter hands back: a buffer that holds the infix text, closed
/// by a zero byte, and an error code.
pub struct CConversionResult {
    pub result_expression: Vec<u8>,
    pub error_code: i32,
}

/// The formatter's reply as plain values.
pub struct FormatView {
    pub buffer: Seq<u8>,
    pub code: int,
}

impl View for CConversionResult {
    type V = FormatView;

    open spec fn view(&self) -> FormatView {
        FormatView { buffer: self.result_expression@, code: self.error_code as int }
    }
}

/// What came of a conversion. `message` reads `Success` or says what went
/// wrong.
pub struct ConversionResult {
    pub success: bool,
    pub rpn_expression: String,
    pub infix_expression: String,
    pub message: String,
}

/// A conversion's outcome as plain values.
pub struct ConversionView {
    pub success: bool,
    pub rpn_expression: Seq<char>,
    pub infix_expression: Seq<char>,
    pub message: Seq<char>,
}

impl View for ConversionResult {
    type V = ConversionView;

    open spec fn view(&self) -> ConversionView {
        ConversionView {
            success: self.success,
            rpn_expression: self.rpn_expression@,
            infix_expression: self.infix_expression@,
            message: self.message@,
        }
    }
}

/// A postfix expression that waits for the formatter's reply.
pub struct PendingConversion {
    pub rpn_expression: String,
    pub request: CReversePolishExpression,
}

/// Where a conversion stands after its first step.
pub enum Conversion {
    /// The formatter is to be asked.
    Pending(PendingConversion),
    /// The expression could not be sent; the outcome is final.
    Finished(ConversionResult),
}

/// The outcome of a conversion that has a word which cannot be sent.
pub open spec fn unsent(rpn_expression: Seq<char>) -> ConversionView {
    ConversionView {
        success: false,
        rpn_expression,
        infix_expression: Seq::empty(),
        message: "Failed to convert expression to CString"@,
    }
}

/// The outcome of a conversion that the formatter has replied to. A buffer
/// whose text is not UTF-8 is a failure of its own. Any other reply is a
/// success where the code is 0 and a failure where it is not, with the
/// buffer's text and the message of the code either way.
pub open spec fn converted(rpn_expression: Seq<char>, reply: FormatView) -> ConversionView {
    if valid_utf8(framed(reply.buffer)) {
        ConversionView {
            success: reply.code == 0,
            rpn_expression,
            infix_expression: decode_utf8(framed(reply.buffer)),
            message: error_text(reply.code),
        }
    } else {
        ConversionView {
            success: false,
            rpn_expression,
            infix_expression: Seq::empty(),
            message: "Invalid UTF-8 in result"@,
        }
    }
}

/// The outcome of a whole conversion of `input`, when the formatter, if it is
/// asked, replies `reply`.
pub open spec fn conversion_of(input: Seq<char>, reply: FormatView) -> ConversionView {
    if can_send(split_words(trimmed(input))) {
        converted(trimmed(input), reply)
    } else {
        unsent(trimmed(input))
    }
}

/// The first step of a conversion. One pair of surrounding quotes is taken
/// off the input, and the rest is split at its whitespace: the words are
/// taken as they are. Where every word can be sent, the result says what the
/// formatter is to be asked. Where a word holds a zero byte, the conversion
/// has failed.
pub fn convert_rpn(input: String) -> (step: Conversion)
    ensures
        match step {
            Conversion::Pending(pending) => {
                &&& can_send(split_words(trimmed(input@)))
                &&& pending.rpn_expression@ == trimmed(input@)
                &&& pending.request@ == payload_of(split_words(trimmed(input@)))
                &&& pending.request.length == pending.request.crpn_expression@.len()
            },
            Conversion::Finished(outcome) => {
                &&& !can_send(split_words(trimmed(input@)))
                &&& outcome@ == unsent(trimmed(input@))
            },
        },
{
    let rpn_expression = trim_quotes(input.as_str());
    let rpn = ReversePolish { rp_expression: split_whitespace(rpn_expression.as_str()) };
    match rpn.to_c_expr() {
        Ok(words) => {
            let length = words.len();
            Conversion::Pending(
                PendingConversion {
                    rpn_expression,
                    request: CReversePolishExpression { crpn_expression: words, length },
                },
            )
        },
        Err(e) => Conversion::Finished(
            ConversionResult {
                success: false,
                rpn_expression,
                infix_expression: String::new(),
                message: e,
            },
        ),
    }
}

fn scan_text(buffer: &[u8]) -> (end: usize)
    ensures
        end == text_end(buffer@, 0),
        end <= buffer@.len(),
{
    let mut j: usize = 0;
    while j < buffer.len() && buffer[j] != 0u8
        invariant
            j <= buffer@.len(),
            text_end(buffer@, j as int) == text_end(buffer@, 0),
        decreases buffer@.len() - j,
    {
        j = j + 1;
    }
    j
}

/// The second step of a conversion: the formatter has replied.
pub fn complete_conversion(pending: PendingConversion, reply: CConversionResult) -> (outcome:
    ConversionResult)
    ensures
        outcome@ == converted(pending.rpn_expression@, reply@),
{
    let buffer = reply.result_expression.as_slice();
    let end = scan_text(buffer);
    match utf8_text(slice_subrange(buffer, 0, end)) {
        Some(infix_expression) => {
            proof {
                encode_utf8_decode_utf8(infix_expression@);
            }
            ConversionResult {
                success: reply.error_code == 0,
                rpn_expression: pending.rpn_expression,
                infix_expression,
                message: get_error_message(reply.error_code).to_owned(),
            }
        },
        None => ConversionResult {
            success: false,
            rpn_expression: pending.rpn_expression,
            infix_expression: String::new(),
            message: "Invalid UTF-8 in result".to_owned(),
        },
    }
}

} // verus!
