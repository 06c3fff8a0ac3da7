//! The session history.

use calculator_backend::{History, Number};

fn number(text: &str) -> Option<Number> {
    Number::new(text.to_string())
}

#[test]
fn a_new_history_is_empty() {
    let history = History::new();
    assert!(history.get_history().is_empty());
    assert!(history.get_last_result().is_none());
    assert!(history.entries.is_empty());
    assert!(history.last_result.is_none());
}

#[test]
fn add_entry_appends() {
    let mut history = History::new();
    history.add_entry("1 + 2".to_string(), number("3"), None);
    history.add_entry("1 / 0".to_string(), None, Some("Division by zero".to_string()));
    let entries = history.get_history();
    assert_eq!(entries.len(), 2);
    assert_eq!(entries[0].input, "1 + 2");
    assert_eq!(entries[0].result, number("3"));
    assert_eq!(entries[0].error_message, None);
    assert_eq!(entries[1].input, "1 / 0");
    assert_eq!(entries[1].result, None);
    assert_eq!(entries[1].error_message.as_deref(), Some("Division by zero"));
}

#[test]
fn a_value_becomes_the_last_result() {
    let mut history = History::new();
    history.add_entry("1 + 2".to_string(), number("3"), None);
    assert_eq!(history.get_last_result(), number("3"));
    history.add_entry("2 * 4".to_string(), number("8"), None);
    assert_eq!(history.get_last_result(), number("8"));
}

#[test]
fn a_failure_keeps_the_last_result() {
    let mut history = History::new();
    history.add_entry("1 / 0".to_string(), None, Some("Division by zero".to_string()));
    assert_eq!(history.get_last_result(), None);
    history.add_entry("1 + 2".to_string(), number("3"), None);
    history.add_entry("1 / 0".to_string(), None, Some("Division by zero".to_string()));
    history.add_entry("x".to_string(), None, Some("Undefined variable in expression".to_string()));
    assert_eq!(history.get_last_result(), number("3"));
    assert_eq!(history.get_history().len(), 4);
}

#[test]
fn add_entry_takes_what_it_is_given() {
    let mut history = History::new();
    history.add_entry("".to_string(), None, None);
    history.add_entry("both".to_string(), number("1"), Some("and".to_string()));
    let entries = history.get_history();
    assert_eq!(entries.len(), 2);
    assert!(entries[0].result.is_none() && entries[0].error_message.is_none());
    assert!(entries[1].result.is_some() && entries[1].error_message.is_some());
    assert_eq!(history.get_last_result(), number("1"));
}

#[test]
fn earlier_entries_stay_as_they_were() {
    let mut history = History::new();
    for i in 0..20 {
        history.add_entry(format!("{} + 0", i), number(&i.to_string()), None);
        let entries = history.get_history();
        assert_eq!(entries.len(), i + 1);
        for (k, entry) in entries.iter().enumerate() {
            assert_eq!(entry.input, format!("{} + 0", k));
            assert_eq!(entry.result, number(&k.to_string()));
        }
    }
}

#[test]
fn clearing_the_entries_keeps_the_last_result() {
    let mut history = History::new();
    history.add_entry("1 + 2".to_string(), number("3"), None);
    history.entries.clear();
    assert!(history.get_history().is_empty());
    assert_eq!(history.get_last_result(), number("3"));
}
