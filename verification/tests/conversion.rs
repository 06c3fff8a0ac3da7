//! The two steps of a conversion, with the formatter's replies written out by
//! hand.

use calculator_backend::{
    complete_conversion, convert_rpn, get_error_message, split_whitespace, CConversionResult,
    Conversion, ConversionResult, PendingConversion,
};

fn pending(input: &str) -> PendingConversion {
    match convert_rpn(input.to_string()) {
        Conversion::Pending(pending) => pending,
        Conversion::Finished(_) => panic!("{:?} was not sent", input),
    }
}

fn refused(input: &str) -> ConversionResult {
    match convert_rpn(input.to_string()) {
        Conversion::Pending(_) => panic!("{:?} was sent", input),
        Conversion::Finished(outcome) => outcome,
    }
}

/// A buffer of a thousand bytes that starts with `text`.
fn buffer(text: &[u8]) -> Vec<u8> {
    let mut bytes = vec![0u8; 1000];
    bytes[..text.len()].copy_from_slice(text);
    bytes
}

fn convert(input: &str, result_expression: Vec<u8>, error_code: i32) -> ConversionResult {
    complete_conversion(pending(input), CConversionResult { result_expression, error_code })
}

#[test]
fn split_whitespace_finds_the_words() {
    assert_eq!(split_whitespace("1 2 +"), vec!["1", "2", "+"]);
    assert_eq!(split_whitespace("  1\t\t2\n+  "), vec!["1", "2", "+"]);
    assert_eq!(split_whitespace("one"), vec!["one"]);
    assert_eq!(split_whitespace("a\u{a0}b\u{3000}c"), vec!["a", "b", "c"]);
    assert_eq!(split_whitespace("-1 -2 +"), vec!["-1", "-2", "+"]);
}

#[test]
fn split_whitespace_of_blank_text_is_empty() {
    assert!(split_whitespace("").is_empty());
    assert!(split_whitespace(" \t\r\n").is_empty());
}

#[test]
fn split_whitespace_agrees_with_the_standard_split() {
    for text in ["", " ", "a", " a", "a ", "a b", "a  b", "\ta\nb\r\nc d  e\u{2003}f ", "1 2 + 3 4 + *", "é √ 越"] {
        let expected: Vec<String> = text.split_whitespace().map(String::from).collect();
        assert_eq!(split_whitespace(text), expected, "{:?}", text);
    }
}

#[test]
fn the_first_step_says_what_to_ask_the_formatter() {
    let waiting = pending("1 2 +");
    assert_eq!(waiting.rpn_expression, "1 2 +");
    assert_eq!(waiting.request.length, 3);
    assert_eq!(
        waiting.request.crpn_expression,
        vec![vec![b'1', 0], vec![b'2', 0], vec![b'+', 0]]
    );
}

#[test]
fn the_words_are_taken_as_they_are() {
    let waiting = pending("SIN 1e années $ (");
    assert_eq!(waiting.request.length, 5);
    assert_eq!(waiting.request.crpn_expression[0], vec![b'S', b'I', b'N', 0]);
    assert_eq!(waiting.request.crpn_expression[3], vec![b'$', 0]);
}

#[test]
fn the_quotes_come_off_first() {
    let waiting = pending("\"1 2 +\"");
    assert_eq!(waiting.rpn_expression, "1 2 +");
    assert_eq!(waiting.request.length, 3);
    let waiting = pending("\"1 2 +");
    assert_eq!(waiting.rpn_expression, "\"1 2 +");
    assert_eq!(waiting.request.crpn_expression[0], vec![b'"', b'1', 0]);
}

#[test]
fn an_empty_input_is_sent_as_no_words() {
    let waiting = pending("   ");
    assert_eq!(waiting.rpn_expression, "   ");
    assert_eq!(waiting.request.length, 0);
}

#[test]
fn a_word_with_a_zero_byte_is_not_sent() {
    let outcome = refused("1 2\0 +");
    assert!(!outcome.success);
    assert_eq!(outcome.rpn_expression, "1 2\0 +");
    assert_eq!(outcome.infix_expression, "");
    assert_eq!(outcome.message, "Failed to convert expression to CString");
}

#[test]
fn a_success_carries_the_text() {
    let outcome = convert("1 2 +", buffer(b"1 + 2"), 0);
    assert!(outcome.success);
    assert_eq!(outcome.rpn_expression, "1 2 +");
    assert_eq!(outcome.infix_expression, "1 + 2");
    assert_eq!(outcome.message, "Success");
}

#[test]
fn the_text_ends_at_the_first_zero_byte() {
    let outcome = convert("1 2 +", b"1 + 2\0junk\0more".to_vec(), 0);
    assert_eq!(outcome.infix_expression, "1 + 2");
    let outcome = convert("1 2 +", b"\0junk".to_vec(), 0);
    assert!(outcome.success);
    assert_eq!(outcome.infix_expression, "");
}

#[test]
fn a_buffer_without_a_zero_byte_is_all_text() {
    let outcome = convert("1 2 +", b"1 + 2".to_vec(), 0);
    assert!(outcome.success);
    assert_eq!(outcome.infix_expression, "1 + 2");
    let outcome = convert("1 2 +", Vec::new(), 0);
    assert!(outcome.success);
    assert_eq!(outcome.infix_expression, "");
}

#[test]
fn text_beyond_ascii_is_decoded() {
    let outcome = convert("2 √", buffer("√ 2 · é 越".as_bytes()), 0);
    assert!(outcome.success);
    assert_eq!(outcome.infix_expression, "√ 2 · é 越");
}

#[test]
fn a_failure_carries_the_message_of_its_code() {
    for code in [1, 2, 3, 5, 7, 13, 14, -1] {
        let outcome = convert("1 2 + +", buffer(b"1 + 2"), code);
        assert!(!outcome.success, "{}", code);
        assert_eq!(outcome.rpn_expression, "1 2 + +");
        assert_eq!(outcome.infix_expression, "1 + 2");
        assert_eq!(outcome.message, get_error_message(code));
    }
    let outcome = convert("+ 3", buffer(b""), 3);
    assert_eq!(outcome.message, "Stack underflow - invalid expression");
    assert_eq!(outcome.infix_expression, "");
}

#[test]
fn text_that_is_not_utf8_is_a_failure_of_its_own() {
    for bytes in [vec![0xffu8, 0], vec![b'1', 0xc3, 0], vec![0xe8, 0xb6], vec![0xed, 0xa0, 0x80, 0], vec![0xc0, 0x80, 0]] {
        for code in [0, 3] {
            let outcome = convert("1 2 +", bytes.clone(), code);
            assert!(!outcome.success);
            assert_eq!(outcome.rpn_expression, "1 2 +");
            assert_eq!(outcome.infix_expression, "");
            assert_eq!(outcome.message, "Invalid UTF-8 in result");
        }
    }
}

#[test]
fn bytes_after_the_zero_byte_do_not_matter() {
    let outcome = convert("1 2 +", vec![b'1', 0, 0xff, 0xfe], 0);
    assert!(outcome.success);
    assert_eq!(outcome.infix_expression, "1");
}
