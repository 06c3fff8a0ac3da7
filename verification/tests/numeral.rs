//! Number literals, held against the standard parse.

use calculator_backend::{is_numeric, Number};

const SAMPLES: [&str; 60] = [
    "", "0", "1", "123", "-1", "+1", "1.", ".1", "1.5", "-1.5", "+.5", "-.5", ".", "-", "+", "-.",
    "+.", "1e5", "1E5", "1e+5", "1e-5", "1e", "1e+", "1e-", "e5", ".e5", "1.e5", ".5e5", "1.5e10",
    "1.5e-10", "1e5.5", "1ee5", "1e5e5", "1..5", "1.5.5", "--1", "+-1", "1-", "1+", " 1", "1 ",
    "1 2", "inf", "-inf", "+inf", "INF", "Infinity", "-infinity", "infinit", "nan", "NaN", "-nan",
    "nano", "0x10", "1_000", "1,5", "١", "1e99999", "00012", "1.0000000000000000000000001",
];

#[test]
fn is_numeric_agrees_with_the_standard_parse() {
    for sample in SAMPLES {
        assert_eq!(is_numeric(sample), sample.parse::<f64>().is_ok(), "{:?}", sample);
    }
}

#[test]
fn is_numeric_on_plain_cases() {
    assert!(is_numeric("123"));
    assert!(is_numeric("1.23"));
    assert!(is_numeric("-1.23"));
    assert!(!is_numeric(""));
    assert!(!is_numeric("."));
    assert!(!is_numeric("1.2.3"));
    assert!(!is_numeric("abc"));
}

#[test]
fn every_rendered_double_is_a_number() {
    for value in [0.0, -0.0, 1.0, -1.5, 0.1 + 0.2, 1.0e300, 1.0e-300, f64::MAX, f64::MIN_POSITIVE, f64::INFINITY, f64::NEG_INFINITY, f64::NAN] {
        let text = value.to_string();
        let number = Number::new(text.clone());
        assert!(number.is_some(), "{}", text);
        assert_eq!(number.unwrap().text(), text);
    }
}

#[test]
fn number_rejects_what_is_no_literal() {
    assert!(Number::new("".to_string()).is_none());
    assert!(Number::new("ten".to_string()).is_none());
    assert!(Number::new("1 ".to_string()).is_none());
    assert!(Number::new("2e".to_string()).is_none());
}

#[test]
fn zero_is_written_0() {
    assert_eq!(Number::zero().text(), "0");
    assert_eq!(Number::zero().text(), 0.0f64.to_string());
    assert_eq!(Number::zero(), Number::new("0".to_string()).unwrap());
}

#[test]
fn a_clone_has_the_same_text() {
    let number = Number::new("-12.5e3".to_string()).unwrap();
    assert_eq!(number.clone().text(), "-12.5e3");
    assert_eq!(number.clone(), number);
}
