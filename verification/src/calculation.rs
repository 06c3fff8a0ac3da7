//! Calculating an expression, in two steps around the evaluator.
//!
//! The evaluator is not part of this library. `calculate_expression` reads
//! the expression and says what the evaluator is to be asked;
//! `complete_calculation` takes the evaluator's reply and settles the
//! outcome. Between them, exactly one entry goes into the history for each
//! expression, whatever becomes of it.

use vstd::prelude::*;
use vstd::string::StringExecFns;
use crate::errors::{error_text, get_error_message, lemma_success_text};
use crate::history::{EntryView, History, HistoryView};
use crate::lexer::tokens_of;
use crate::rpn::{
    holds_zero, infix_to_rpn, payload_of, payload_view, rpn_of, spaced,
};
use crate::text::{chars_of, lowercase, string_of};
use crate::value::Number;

verus! {

/// The text without the one pair of double quotes that surrounds it, if a
/// pair does: a text that both starts and ends with a quote loses the two.
/// Any other text stays as it is.
pub open spec fn trimmed(s: Seq<char>) -> Seq<char> {
    if s.len() >= 2 && s.first() == '"' && s.last() == '"' {
        s.subrange(1, s.len() - 1)
    } else {
        s
    }
}

/// Takes one pair of surrounding double quotes off a text.
pub fn trim_quotes(input: &str) -> (text: String)
    ensures
        text@ == trimmed(input@),
{
    let chars = chars_of(input);
    let n = chars.len();
    if n >= 2 && chars[0] == '"' && chars[n - 1] == '"' {
        string_of(chars.as_slice(), 1, n - 1)
    } else {
        input.to_owned()
    }
}

/// An expression in postfix order as the evaluator takes it: one byte string
/// for each word, closed by a zero byte, and their number.
pub struct CReversePolishExpression {
    pub crpn_expression: Vec<Vec<u8>>,
    pub length: usize,
}

impl View for CReversePolishExpression {
    type V = Seq<Seq<u8>>;

    open spec fn view(&self) -> Seq<Seq<u8>> {
        payload_view(self.crpn_expression@)
    }
}

/// What the evaluator hands back: a value and an error code.
pub struct CCalculationResult {
    pub result_value: Number,
    pub error_code: i32,
}

/// The evaluator's reply as plain values.
pub struct ReplyView {
    pub value: Seq<char>,
    pub code: int,
}

impl View for CCalculationResult {
    type V = ReplyView;

    open spec fn view(&self) -> ReplyView {
        ReplyView { value: self.result_value@, code: self.error_code as int }
    }
}

/// What came of an expression. `result` is zero where `success` is false;
/// `message` reads `Success` or says what went wrong.
pub struct CalculationResult {
    pub success: bool,
    pub expression: String,
    pub rpn_expression: String,
    pub result: Number,
    pub message: String,
}

/// A calculation's outcome as plain values.
pub struct CalculationView {
    pub success: bool,
    pub expression: Seq<char>,
    pub rpn_expression: Seq<char>,
    pub result: Seq<char>,
    pub message: Seq<char>,
}

impl View for CalculationResult {
    type V = CalculationView;

    open spec fn view(&self) -> CalculationView {
        CalculationView {
            success: self.success,
            expression: self.expression@,
            rpn_expression: self.rpn_expression@,
            result: self.result@,
            message: self.message@,
        }
    }
}

impl CalculationResult {
    /// Whether the calculation produced a value.
    pub fn success(&self) -> (r: bool)
        ensures
            r == self@.success,
    {
        self.success
    }

    /// The value, or zero where there is none.
    pub fn result(&self) -> (r: Number)
        ensures
            r@ == self@.result,
    {
        self.result.clone()
    }
}

/// An expression that waits for the evaluator's reply.
pub struct PendingCalculation {
    pub expression: String,
    pub rpn_expression: String,
    pub request: CReversePolishExpression,
}

/// A waiting expression as plain values.
pub struct PendingView {
    pub expression: Seq<char>,
    pub rpn_expression: Seq<char>,
    pub request: Seq<Seq<u8>>,
}

impl View for PendingCalculation {
    type V = PendingView;

    open spec fn view(&self) -> PendingView {
        PendingView {
            expression: self.expression@,
            rpn_expression: self.rpn_expression@,
            request: self.request@,
        }
    }
}

/// Where an expression stands after its first step.
pub enum Calculation {
    /// The evaluator is to be asked; nothing is recorded yet.
    Pending(PendingCalculation),
    /// The expression could not be sent; the outcome is final and recorded.
    Finished(CalculationResult),
}

/// The words of an expression in postfix order, where `ans` stands for the
/// text `ans`.
pub open spec fn words_of(input: Seq<char>, ans: Seq<char>) -> Seq<Seq<char>> {
    rpn_of(tokens_of(trimmed(input), ans))
}

/// Whether every word can be sent: none holds a zero byte.
pub open spec fn can_send(words: Seq<Seq<char>>) -> bool {
    forall|k: int| 0 <= k < words.len() ==> !holds_zero(#[trigger] words[k])
}

/// The outcome of an expression that the evaluator has replied to: success
/// where the code is 0, with the evaluator's value; failure for any other
/// code, with zero for a value; and the message of the code either way.
pub open spec fn evaluated(
    expression: Seq<char>,
    rpn_expression: Seq<char>,
    reply: ReplyView,
) -> CalculationView {
    CalculationView {
        success: reply.code == 0,
        expression,
        rpn_expression,
        result: if reply.code == 0 {
            reply.value
        } else {
            "0"@
        },
        message: error_text(reply.code),
    }
}

/// The history entry of an expression that the evaluator has replied to: the
/// value where the code is 0, the message of the code where it is not.
pub open spec fn evaluated_entry(expression: Seq<char>, reply: ReplyView) -> EntryView {
    EntryView {
        input: expression,
        result: if reply.code == 0 {
            Some(reply.value)
        } else {
            None
        },
        error_message: if reply.code == 0 {
            None
        } else {
            Some(error_text(reply.code))
        },
    }
}

/// The outcome of an expression that has a word which cannot be sent.
pub open spec fn unsendable(expression: Seq<char>, rpn_expression: Seq<char>) -> CalculationView {
    CalculationView {
        success: false,
        expression,
        rpn_expression,
        result: "0"@,
        message: "Failed to convert expression to CString"@,
    }
}

/// The history entry of an expression that has a word which cannot be sent.
pub open spec fn unsendable_entry(expression: Seq<char>) -> EntryView {
    EntryView {
        input: expression,
        result: None,
        error_message: Some("Failed to convert to RPN: "@ + "Failed to convert expression to CString"@),
    }
}

/// The outcome of a whole calculation: of `input`, read while `ans` stands
/// for the text `ans`, when the evaluator, if it is asked, replies `reply`.
pub open spec fn outcome_of(input: Seq<char>, ans: Seq<char>, reply: ReplyView) -> CalculationView {
    let words = words_of(input, ans);
    if can_send(words) {
        evaluated(trimmed(input), spaced(words), reply)
    } else {
        unsendable(trimmed(input), spaced(words))
    }
}

/// The history entry that a whole calculation leaves.
pub open spec fn entry_of(input: Seq<char>, ans: Seq<char>, reply: ReplyView) -> EntryView {
    if can_send(words_of(input, ans)) {
        evaluated_entry(trimmed(input), reply)
    } else {
        unsendable_entry(trimmed(input))
    }
}

/// The history after a whole calculation.
pub open spec fn after_call(history: HistoryView, input: Seq<char>, reply: ReplyView) -> HistoryView {
    history.record(entry_of(input, history.ans(), reply))
}

/// One calculation of a session: what was typed, and what the evaluator
/// replies if it is asked.
pub struct Call {
    pub input: Seq<char>,
    pub reply: ReplyView,
}

/// The history after a run of calculations, first to last.
pub open spec fn after_calls(history: HistoryView, calls: Seq<Call>) -> HistoryView
    decreases calls.len(),
{
    if calls.len() == 0 {
        history
    } else {
        after_call(after_calls(history, calls.drop_last()), calls.last().input, calls.last().reply)
    }
}

fn fail(expression: String, rpn_expression: String, message: String) -> (outcome: CalculationResult)
    ensures
        outcome@ == (CalculationView {
            success: false,
            expression: expression@,
            rpn_expression: rpn_expression@,
            result: "0"@,
            message: message@,
        }),
{
    CalculationResult { success: false, expression, rpn_expression, result: Number::zero(), message }
}

/// The first step of a calculation. One pair of surrounding quotes is taken
/// off the input, and the rest is put into postfix order, with `ans` read
/// from `history`.
///
/// Where every word can be sent, the result says what the evaluator is to be
/// asked, and the history is untouched: `complete_calculation` records the
/// outcome. Where a word holds a zero byte, the evaluator is not to be asked:
/// the failure is recorded and returned.
pub fn calculate_expression(input: &str, history: &mut History) -> (step: Calculation)
    ensures
        match step {
            Calculation::Pending(pending) => {
                &&& can_send(words_of(input@, old(history)@.ans()))
                &&& pending.expression@ == trimmed(input@)
                &&& pending.rpn_expression@ == spaced(words_of(input@, old(history)@.ans()))
                &&& pending.request@ == payload_of(words_of(input@, old(history)@.ans()))
                &&& pending.request.length == pending.request.crpn_expression@.len()
                &&& final(history)@ == old(history)@
            },
            Calculation::Finished(outcome) => {
                &&& !can_send(words_of(input@, old(history)@.ans()))
                &&& outcome@ == unsendable(
                    trimmed(input@),
                    spaced(words_of(input@, old(history)@.ans())),
                )
                &&& final(history)@ == old(history)@.record(unsendable_entry(trimmed(input@)))
            },
        },
{
    let expression = trim_quotes(input);
    match infix_to_rpn(expression.as_str(), history) {
        Ok(rpn) => {
            let rpn_expression = rpn.to_string();
            match rpn.to_c_expr() {
                Ok(words) => {
                    let length = words.len();
                    Calculation::Pending(
                        PendingCalculation {
                            expression,
                            rpn_expression,
                            request: CReversePolishExpression { crpn_expression: words, length },
                        },
                    )
                },
                Err(e) => {
                    let noted = String::from_str("Failed to convert to RPN: ").concat(e.as_str());
                    history.add_entry(expression.clone(), None, Some(noted));
                    Calculation::Finished(fail(expression, rpn_expression, e))
                },
            }
        },
        Err(e) => {
            let message = String::from_str("Failed to parse expression: ").concat(e.as_str());
            history.add_entry(expression.clone(), None, Some(message.clone()));
            Calculation::Finished(fail(expression, String::new(), message))
        },
    }
}

/// The second step of a calculation: the evaluator has replied. The outcome
/// is a success where the reply's code is 0 and a failure with the code's
/// message where it is not, and it is recorded either way.
pub fn complete_calculation(
    pending: PendingCalculation,
    reply: CCalculationResult,
    history: &mut History,
) -> (outcome: CalculationResult)
    ensures
        outcome@ == evaluated(pending.expression@, pending.rpn_expression@, reply@),
        final(history)@ == old(history)@.record(evaluated_entry(pending.expression@, reply@)),
{
    let success = reply.error_code == 0;
    let message = String::from_str(get_error_message(reply.error_code));
    if success {
        history.add_entry(pending.expression.clone(), Some(reply.result_value.clone()), None);
    } else {
        history.add_entry(pending.expression.clone(), None, Some(message.clone()));
    }
    CalculationResult {
        success,
        expression: pending.expression,
        rpn_expression: pending.rpn_expression,
        result: if success {
            reply.result_value
        } else {
            Number::zero()
        },
        message,
    }
}

/// The two steps together make a whole calculation: where the first step
/// asks for the evaluator, the second step's outcome and entry are those of
/// the whole; where it does not, its own are.
pub proof fn lemma_two_steps(history: HistoryView, input: Seq<char>, reply: ReplyView)
    ensures
        can_send(words_of(input, history.ans())) ==> {
            &&& outcome_of(input, history.ans(), reply) == evaluated(
                trimmed(input),
                spaced(words_of(input, history.ans())),
                reply,
            )
            &&& after_call(history, input, reply) == history.record(
                evaluated_entry(trimmed(input), reply),
            )
        },
        !can_send(words_of(input, history.ans())) ==> {
            &&& outcome_of(input, history.ans(), reply) == unsendable(
                trimmed(input),
                spaced(words_of(input, history.ans())),
            )
            &&& after_call(history, input, reply) == history.record(
                unsendable_entry(trimmed(input)),
            )
        },
{
}

/// The message of an outcome reads `Success` exactly where the calculation
/// succeeded, and a calculation that failed has zero for its value.
pub proof fn lemma_outcome_is_uniform(input: Seq<char>, ans: Seq<char>, reply: ReplyView)
    ensures
        outcome_of(input, ans, reply).success <==> outcome_of(input, ans, reply).message
            == "Success"@,
        !outcome_of(input, ans, reply).success ==> outcome_of(input, ans, reply).result == "0"@,
{
    lemma_success_text(reply.code);
    reveal_strlit("Success");
    reveal_strlit("Failed to convert expression to CString");
    assert("Success"@.len() != "Failed to convert expression to CString"@.len());
}

/// Two inputs that differ in the case of their letters only come to the
/// same words, and so to the same outcome but for the expression it quotes,
/// and to the same last result.
pub proof fn lemma_case_does_not_matter(
    history: HistoryView,
    a: Seq<char>,
    b: Seq<char>,
    reply: ReplyView,
)
    requires
        lowercase(trimmed(a)) == lowercase(trimmed(b)),
    ensures
        words_of(a, history.ans()) == words_of(b, history.ans()),
        outcome_of(a, history.ans(), reply).success == outcome_of(b, history.ans(), reply).success,
        outcome_of(a, history.ans(), reply).result == outcome_of(b, history.ans(), reply).result,
        outcome_of(a, history.ans(), reply).message == outcome_of(b, history.ans(), reply).message,
        outcome_of(a, history.ans(), reply).rpn_expression == outcome_of(
            b,
            history.ans(),
            reply,
        ).rpn_expression,
        after_call(history, a, reply).last_result == after_call(history, b, reply).last_result,
{
}

/// A calculation that fails leaves the last result as it was.
pub proof fn lemma_failure_keeps_last_result(
    history: HistoryView,
    input: Seq<char>,
    reply: ReplyView,
)
    requires
        !outcome_of(input, history.ans(), reply).success,
    ensures
        after_call(history, input, reply).last_result == history.last_result,
{
}

/// A calculation that succeeds makes its value the last result, which is
/// what `ans` stands for from then on.
pub proof fn lemma_success_sets_last_result(
    history: HistoryView,
    input: Seq<char>,
    reply: ReplyView,
)
    requires
        outcome_of(input, history.ans(), reply).success,
    ensures
        after_call(history, input, reply).last_result == Some(
            outcome_of(input, history.ans(), reply).result,
        ),
        after_call(history, input, reply).ans() == outcome_of(input, history.ans(), reply).result,
{
}

/// Every calculation adds exactly one entry to the end of the history, with
/// exactly one of value and error message, and leaves the earlier entries as
/// they were.
pub proof fn lemma_call_appends_one(history: HistoryView, input: Seq<char>, reply: ReplyView)
    ensures
        after_call(history, input, reply).entries.len() == history.entries.len() + 1,
        after_call(history, input, reply).entries.drop_last() == history.entries,
        after_call(history, input, reply).entries.last().is_complete(),
        after_call(history, input, reply).entries.last().result is Some == outcome_of(
            input,
            history.ans(),
            reply,
        ).success,
{
    let after = after_call(history, input, reply);
    assert(after.entries.drop_last() =~= history.entries);
}

/// After any run of calculations the history has one entry more for each of
/// them, the entries it had before are as they were, and every entry that
/// was added holds exactly one of value and error message.
pub proof fn lemma_calls_fill_history(history: HistoryView, calls: Seq<Call>)
    ensures
        after_calls(history, calls).entries.len() == history.entries.len() + calls.len(),
        after_calls(history, calls).entries.take(history.entries.len() as int) == history.entries,
        forall|i: int|
            history.entries.len() <= i < history.entries.len() + calls.len() ==> (
            #[trigger] after_calls(history, calls).entries[i]).is_complete(),
    decreases calls.len(),
{
    if calls.len() == 0 {
        assert(history.entries.take(history.entries.len() as int) =~= history.entries);
    } else {
        let before = after_calls(history, calls.drop_last());
        lemma_calls_fill_history(history, calls.drop_last());
        lemma_call_appends_one(before, calls.last().input, calls.last().reply);
        let after = after_calls(history, calls);
        assert(after.entries =~= before.entries.push(after.entries.last()));
        assert(after.entries.take(history.entries.len() as int) =~= before.entries.take(
            history.entries.len() as int,
        ));
    }
}

/// A session that starts with an empty history holds, after any run of
/// calculations, as many entries as there were calculations, each with
/// exactly one of value and error message.
pub proof fn lemma_session_history(calls: Seq<Call>)
    ensures
        after_calls(
            HistoryView { entries: Seq::empty(), last_result: None },
            calls,
        ).entries.len() == calls.len(),
        after_calls(HistoryView { entries: Seq::empty(), last_result: None }, calls).all_complete(),
{
    lemma_calls_fill_history(HistoryView { entries: Seq::empty(), last_result: None }, calls);
}

} // verus!
