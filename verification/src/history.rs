//! The session history: an append-only log of what was asked and what came of
//! it, with the last value that a calculation produced.

use vstd::prelude::*;
use crate::value::{text_of, Number};

verus! {

/// One calculation: what was typed, and either its value or what went wrong.
#[derive(Debug, Clone)]
pub struct HistoryEntry {
    pub input: String,
    pub result: Option<Number>,
    pub error_message: Option<String>,
}

/// A history entry as plain text.
pub struct EntryView {
    pub input: Seq<char>,
    pub result: Option<Seq<char>>,
    pub error_message: Option<Seq<char>>,
}

impl EntryView {
    /// Exactly one of value and error message is there.
    pub open spec fn is_complete(self) -> bool {
        self.result is Some != self.error_message is Some
    }
}

impl View for HistoryEntry {
    type V = EntryView;

    open spec fn view(&self) -> EntryView {
        EntryView {
            input: self.input@,
            result: text_of(self.result),
            error_message: match self.error_message {
                Some(m) => Some(m@),
                None => None,
            },
        }
    }
}

/// The log of a session.
#[derive(Debug)]
pub struct History {
    pub entries: Vec<HistoryEntry>,
    pub last_result: Option<Number>,
}

/// A history as plain text.
pub struct HistoryView {
    pub entries: Seq<EntryView>,
    pub last_result: Option<Seq<char>>,
}

impl HistoryView {
    /// The history with one more entry at its end. A value becomes the last
    /// result; an entry without one leaves the last result as it was.
    pub open spec fn record(self, entry: EntryView) -> HistoryView {
        HistoryView {
            entries: self.entries.push(entry),
            last_result: if entry.result is Some {
                entry.result
            } else {
                self.last_result
            },
        }
    }

    /// What `ans` stands for: the last result, or `0` before the first one.
    pub open spec fn ans(self) -> Seq<char> {
        match self.last_result {
            Some(text) => text,
            None => "0"@,
        }
    }

    /// Every entry holds exactly one of value and error message.
    pub open spec fn all_complete(self) -> bool {
        forall|i: int| 0 <= i < self.entries.len() ==> (#[trigger] self.entries[i]).is_complete()
    }
}

impl View for History {
    type V = HistoryView;

    open spec fn view(&self) -> HistoryView {
        HistoryView {
            entries: self.entries@.map_values(|e: HistoryEntry| e@),
            last_result: text_of(self.last_result),
        }
    }
}

impl History {
    /// An empty log with no last result.
    pub fn new() -> (history: History)
        ensures
            history@.entries == Seq::<EntryView>::empty(),
            history@.last_result is None,
    {
        let history = History { entries: Vec::new(), last_result: None };
        assert(history@.entries =~= Seq::<EntryView>::empty());
        history
    }

    /// Appends an entry. Where `result` holds a value, that value becomes the
    /// last result.
    pub fn add_entry(
        &mut self,
        input: String,
        result: Option<Number>,
        error_message: Option<String>,
    )
        ensures
            final(self)@ == old(self)@.record(
                (HistoryEntry { input, result, error_message })@,
            ),
    {
        if let Some(value) = &result {
            self.last_result = Some(value.clone());
        }
        let entry = HistoryEntry { input, result, error_message };
        self.entries.push(entry);
        assert(self@.entries =~= old(self)@.entries.push(entry@));
    }

    /// The entries, oldest first.
    pub fn get_history(&self) -> (entries: &Vec<HistoryEntry>)
        ensures
            entries@ == self.entries@,
    {
        &self.entries
    }

    /// The value of the last calculation that produced one.
    pub fn get_last_result(&self) -> (result: Option<Number>)
        ensures
            text_of(result) == self@.last_result,
    {
        match &self.last_result {
            Some(value) => Some(value.clone()),
            None => None,
        }
    }
}

} // verus!
