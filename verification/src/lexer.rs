//! The lexer: from the characters of an expression to its tokens.
//!
//! The input is folded to lower case and then scanned once from left to
//! right. Each scan step looks at the character it stands on, consumes one or
//! more characters, and produces at most one token and at most one warning.
//! Nothing makes the lexer fail: what it cannot read it leaves out.

use vstd::prelude::*;
use vstd::slice::slice_subrange;
use crate::history::History;
use crate::numeral::{
    digits_end, is_digit, is_float_literal, is_literal, lemma_digits_end, mantissa_end,
    scan_digits, scan_mantissa,
};
use crate::text::{
    chars_of, is_letter, is_letter_or_number, is_space, lowercase, same_text, string_of,
};
use crate::value::lemma_zero_is_literal;
use crate::token::{
    token_views, warning_views, Token, TokenType, TokenView, Warning, WarningKind, WarningView,
};

verus! {

/// The operators that are written as words.
pub open spec fn is_operator_name(word: Seq<char>) -> bool {
    ||| word == "sin"@
    ||| word == "cos"@
    ||| word == "tan"@
    ||| word == "arcsin"@
    ||| word == "arccos"@
    ||| word == "arctan"@
    ||| word == "sqrt"@
    ||| word == "log"@
    ||| word == "ln"@
}

/// The kind of token that a word becomes: `ans` stands for a number, the
/// operator names are operators, every other word is a variable.
pub open spec fn word_kind(word: Seq<char>) -> TokenType {
    if word == "ans"@ {
        TokenType::Operand
    } else if is_operator_name(word) {
        TokenType::Operator
    } else {
        TokenType::Variable
    }
}

/// The operators of one character, the minus sign apart.
pub open spec fn is_operator_sign(c: char) -> bool {
    c == '+' || c == '*' || c == '/' || c == '^' || c == '!'
}

/// Where the word that holds position `i` ends: the run of letters and
/// numbers from `i` on.
pub open spec fn word_end(s: Seq<char>, i: int) -> int
    decreases s.len() - i,
{
    if 0 <= i < s.len() && is_letter_or_number(s[i]) {
        word_end(s, i + 1)
    } else {
        i
    }
}

/// Where the numeral that starts at `i` ends: a mantissa and, if an `e`
/// follows it, that `e`, at most one sign, and the digits after it.
pub open spec fn numeral_end(s: Seq<char>, i: int) -> int {
    let m = mantissa_end(s, i);
    if 0 <= m < s.len() && s[m] == 'e' {
        if m + 1 < s.len() && (s[m + 1] == '-' || s[m + 1] == '+') {
            digits_end(s, m + 2)
        } else {
            digits_end(s, m + 1)
        }
    } else {
        m
    }
}

/// What a warning says, before it has a position.
pub struct Finding {
    pub kind: WarningKind,
    pub text: Seq<char>,
}

/// What one scan step does: where the next step starts, the token it
/// produces, and what it finds odd.
pub struct Step {
    pub next: int,
    pub token: Option<TokenView>,
    pub finding: Option<Finding>,
}

/// A step that consumes one character and produces a token of that character.
pub open spec fn single(s: Seq<char>, i: int, kind: TokenType) -> Step {
    Step {
        next: i + 1,
        token: Some(TokenView { value: s.subrange(i, i + 1), kind }),
        finding: None,
    }
}

/// The step at a minus sign in sign position. The sign, the digits after it
/// and at most one point among them are consumed. If they spell a number,
/// that number is the token. If not, the token is a minus operator, and
/// whatever was consumed beyond the sign is lost and reported.
pub open spec fn signed_step(s: Seq<char>, i: int) -> Step {
    let end = mantissa_end(s, i + 1);
    let text = s.subrange(i, end);
    if is_float_literal(text) {
        Step {
            next: end,
            token: Some(TokenView { value: text, kind: TokenType::Operand }),
            finding: None,
        }
    } else {
        Step {
            next: end,
            token: Some(TokenView { value: s.subrange(i, i + 1), kind: TokenType::Operator }),
            finding: if end > i + 1 {
                Some(Finding { kind: WarningKind::InvalidSignedNumber, text })
            } else {
                None
            },
        }
    }
}

/// The step at a digit or a point. The numeral is consumed; it is a token if
/// it spells a number, and is dropped and reported if not.
pub open spec fn numeral_step(s: Seq<char>, i: int) -> Step {
    let end = numeral_end(s, i);
    let text = s.subrange(i, end);
    if is_float_literal(text) {
        Step {
            next: end,
            token: Some(TokenView { value: text, kind: TokenType::Operand }),
            finding: None,
        }
    } else {
        Step {
            next: end,
            token: None,
            finding: Some(Finding { kind: WarningKind::InvalidNumeral, text }),
        }
    }
}

/// The step at a letter. The word is consumed. `ans` becomes the number that
/// `ans` holds; any other word is a token of its kind.
pub open spec fn word_step(s: Seq<char>, i: int, ans: Seq<char>) -> Step {
    let end = word_end(s, i + 1);
    let word = s.subrange(i, end);
    Step {
        next: end,
        token: Some(
            TokenView {
                value: if word == "ans"@ {
                    ans
                } else {
                    word
                },
                kind: word_kind(word),
            },
        ),
        finding: None,
    }
}

/// The scan step at position `i`. `unary` says whether a minus sign here
/// would stand in sign position. The cases are tried in this order.
pub open spec fn step(s: Seq<char>, i: int, unary: bool, ans: Seq<char>) -> Step {
    let c = s[i];
    if is_space(c) {
        Step { next: i + 1, token: None, finding: None }
    } else if c == '(' || c == ')' {
        single(s, i, TokenType::Bracket)
    } else if is_operator_sign(c) {
        single(s, i, TokenType::Operator)
    } else if c == '√' {
        Step {
            next: i + 1,
            token: Some(TokenView { value: "sqrt"@, kind: TokenType::Operator }),
            finding: None,
        }
    } else if c == '-' {
        if unary {
            signed_step(s, i)
        } else {
            single(s, i, TokenType::Operator)
        }
    } else if is_digit(c) || c == '.' {
        numeral_step(s, i)
    } else if is_letter(c) {
        word_step(s, i, ans)
    } else {
        Step {
            next: i + 1,
            token: None,
            finding: Some(
                Finding { kind: WarningKind::UnknownCharacter, text: s.subrange(i, i + 1) },
            ),
        }
    }
}

/// Whether a minus sign that comes next stands in sign position: at the
/// start, after an operator, and after an opening bracket. A step without a
/// token changes nothing.
pub open spec fn unary_after(unary: bool, token: Option<TokenView>) -> bool {
    match token {
        Some(t) => t.kind == TokenType::Operator || (t.kind == TokenType::Bracket && t.value
            == seq!['(']),
        None => unary,
    }
}

/// A word ends at or after its start, and inside the text.
pub proof fn lemma_word_end(s: Seq<char>, i: int)
    requires
        0 <= i <= s.len(),
    ensures
        i <= word_end(s, i) <= s.len(),
    decreases s.len() - i,
{
    if i < s.len() && is_letter_or_number(s[i]) {
        lemma_word_end(s, i + 1);
    }
}

/// A mantissa ends at or after its start, and inside the text.
pub proof fn lemma_mantissa_end(s: Seq<char>, i: int)
    requires
        0 <= i <= s.len(),
    ensures
        i <= mantissa_end(s, i) <= s.len(),
{
    lemma_digits_end(s, i);
    let a = digits_end(s, i);
    if a < s.len() {
        lemma_digits_end(s, a + 1);
    }
}

/// A numeral that starts at a digit or a point is not empty and ends inside
/// the text.
pub proof fn lemma_numeral_end(s: Seq<char>, i: int)
    requires
        0 <= i < s.len(),
        is_digit(s[i]) || s[i] == '.',
    ensures
        i < numeral_end(s, i) <= s.len(),
{
    lemma_digits_end(s, i);
    lemma_digits_end(s, i + 1);
    let a = digits_end(s, i);
    if a < s.len() {
        lemma_digits_end(s, a + 1);
    }
    let m = mantissa_end(s, i);
    if m < s.len() {
        lemma_digits_end(s, m + 1);
        if m + 1 < s.len() {
            lemma_digits_end(s, m + 2);
        }
    }
}

/// Every step consumes at least one character and stays inside the text.
pub proof fn lemma_step_advances(s: Seq<char>, i: int, unary: bool, ans: Seq<char>)
    requires
        0 <= i < s.len(),
    ensures
        i < step(s, i, unary, ans).next <= s.len(),
{
    lemma_mantissa_end(s, i + 1);
    lemma_word_end(s, i + 1);
    if is_digit(s[i]) || s[i] == '.' {
        lemma_numeral_end(s, i);
    }
}

/// The tokens of the text from position `i` on.
pub open spec fn lex_from(s: Seq<char>, i: int, unary: bool, ans: Seq<char>) -> Seq<TokenView>
    decreases s.len() - i,
    via lex_from_decreases
{
    if 0 <= i < s.len() {
        let st = step(s, i, unary, ans);
        let rest = lex_from(s, st.next, unary_after(unary, st.token), ans);
        match st.token {
            Some(t) => seq![t] + rest,
            None => rest,
        }
    } else {
        Seq::empty()
    }
}

#[via_fn]
proof fn lex_from_decreases(s: Seq<char>, i: int, unary: bool, ans: Seq<char>) {
    if 0 <= i < s.len() {
        lemma_step_advances(s, i, unary, ans);
    }
}

/// The warnings of the text from position `i` on, when `done` steps came
/// before.
pub open spec fn warnings_from(
    s: Seq<char>,
    i: int,
    unary: bool,
    ans: Seq<char>,
    done: nat,
) -> Seq<WarningView>
    decreases s.len() - i,
    via warnings_from_decreases
{
    if 0 <= i < s.len() {
        let st = step(s, i, unary, ans);
        let rest = warnings_from(s, st.next, unary_after(unary, st.token), ans, done + 1);
        match st.finding {
            Some(f) => seq![WarningView { kind: f.kind, text: f.text, position: done + 1 }] + rest,
            None => rest,
        }
    } else {
        Seq::empty()
    }
}

#[via_fn]
proof fn warnings_from_decreases(s: Seq<char>, i: int, unary: bool, ans: Seq<char>, done: nat) {
    if 0 <= i < s.len() {
        lemma_step_advances(s, i, unary, ans);
    }
}

/// The tokens of a text that is in lower case already.
pub open spec fn lex(s: Seq<char>, ans: Seq<char>) -> Seq<TokenView> {
    lex_from(s, 0, true, ans)
}

/// The warnings of a text that is in lower case already.
pub open spec fn lex_warnings(s: Seq<char>, ans: Seq<char>) -> Seq<WarningView> {
    warnings_from(s, 0, true, ans, 0)
}

/// The tokens of an expression, where `ans` stands for the text `ans`.
pub open spec fn tokens_of(input: Seq<char>, ans: Seq<char>) -> Seq<TokenView> {
    lex(lowercase(input), ans)
}

/// The warnings that an expression gives rise to.
pub open spec fn warnings_of(input: Seq<char>, ans: Seq<char>) -> Seq<WarningView> {
    lex_warnings(lowercase(input), ans)
}

/// What a token of the lexer looks like. An operand spells a number or is
/// what `ans` stands for; an operator is one of the six signs or one of the
/// nine names; a bracket is one of the two; a variable is a word that starts
/// with a letter and is neither `ans` nor an operator. There is no token of
/// the kind `Function`.
pub open spec fn is_lexer_token(t: TokenView, ans: Seq<char>) -> bool {
    match t.kind {
        TokenType::Operand => is_float_literal(t.value) || t.value == ans,
        TokenType::Operator => is_operator_name(t.value) || (t.value.len() == 1 && (
        is_operator_sign(t.value[0]) || t.value[0] == '-')),
        TokenType::Bracket => t.value == seq!['('] || t.value == seq![')'],
        TokenType::Variable => t.value.len() >= 1 && is_letter(t.value[0]) && t.value != "ans"@
            && !is_operator_name(t.value),
        TokenType::Function => false,
    }
}

/// The token of a scan step looks like a token of the lexer.
pub proof fn lemma_step_token(s: Seq<char>, i: int, unary: bool, ans: Seq<char>)
    requires
        0 <= i < s.len(),
    ensures
        step(s, i, unary, ans).token matches Some(t) ==> is_lexer_token(t, ans),
{
    lemma_step_advances(s, i, unary, ans);
    lemma_word_end(s, i + 1);
    let one = s.subrange(i, i + 1);
    assert(one.len() == 1 && one[0] == s[i]);
    assert(one =~= seq![s[i]]);
    if is_letter(s[i]) {
        let word = s.subrange(i, word_end(s, i + 1));
        assert(word[0] == s[i]);
    }
}

/// Every token of the lexer looks like one.
pub proof fn lemma_lexer_tokens(s: Seq<char>, i: int, unary: bool, ans: Seq<char>)
    requires
        0 <= i <= s.len(),
    ensures
        forall|k: int|
            0 <= k < lex_from(s, i, unary, ans).len() ==> is_lexer_token(
                #[trigger] lex_from(s, i, unary, ans)[k],
                ans,
            ),
    decreases s.len() - i,
{
    if i < s.len() {
        let st = step(s, i, unary, ans);
        lemma_step_advances(s, i, unary, ans);
        lemma_step_token(s, i, unary, ans);
        lemma_lexer_tokens(s, st.next, unary_after(unary, st.token), ans);
        let rest = lex_from(s, st.next, unary_after(unary, st.token), ans);
        let all = lex_from(s, i, unary, ans);
        assert forall|k: int| 0 <= k < all.len() implies is_lexer_token(#[trigger] all[k], ans) by {
            match st.token {
                Some(t) => {
                    if k > 0 {
                        assert(all[k] == rest[k - 1]);
                    }
                },
                None => {},
            }
        }
    }
}

/// Every operand among the tokens spells a number, and no token is of the
/// kind `Function`.
pub open spec fn operands_are_numbers(tokens: Seq<TokenView>) -> bool {
    forall|k: int|
        0 <= k < tokens.len() ==> {
            &&& (#[trigger] tokens[k]).kind == TokenType::Operand ==> is_float_literal(
                tokens[k].value,
            )
            &&& tokens[k].kind != TokenType::Function
        }
}

/// Where `ans` stands for a number, every operand among the tokens of an
/// expression spells a number.
pub proof fn lemma_operands_are_numbers(input: Seq<char>, ans: Seq<char>)
    requires
        is_float_literal(ans),
    ensures
        operands_are_numbers(tokens_of(input, ans)),
{
    lemma_lexer_tokens(lowercase(input), 0, true, ans);
}

/// The kind of token that a word becomes.
pub fn classify_identifier(ident: &str) -> (kind: TokenType)
    ensures
        kind == word_kind(ident@),
{
    if same_text(ident, "ans") {
        TokenType::Operand
    } else if same_text(ident, "sin") || same_text(ident, "cos") || same_text(ident, "tan")
        || same_text(ident, "arcsin") || same_text(ident, "arccos") || same_text(ident, "arctan")
        || same_text(ident, "sqrt") || same_text(ident, "log") || same_text(ident, "ln") {
        TokenType::Operator
    } else {
        TokenType::Variable
    }
}

/// What one scan step found.
struct Scanned {
    next: usize,
    token: Option<Token>,
    finding: Option<(WarningKind, String)>,
}

impl View for Scanned {
    type V = Step;

    closed spec fn view(&self) -> Step {
        Step {
            next: self.next as int,
            token: match self.token {
                Some(t) => Some(t@),
                None => None,
            },
            finding: match self.finding {
                Some(f) => Some(Finding { kind: f.0, text: f.1@ }),
                None => None,
            },
        }
    }
}

fn scan_word_end(chars: &[char], i: usize) -> (end: usize)
    requires
        i <= chars@.len(),
    ensures
        end == word_end(chars@, i as int),
        i <= end <= chars@.len(),
{
    let mut j: usize = i;
    while j < chars.len() && chars[j].is_alphanumeric()
        invariant
            i <= j <= chars@.len(),
            word_end(chars@, j as int) == word_end(chars@, i as int),
        decreases chars@.len() - j,
    {
        j = j + 1;
    }
    j
}

fn scan_numeral_end(chars: &[char], i: usize) -> (end: usize)
    requires
        i < chars@.len(),
        is_digit(chars@[i as int]) || chars@[i as int] == '.',
    ensures
        end == numeral_end(chars@, i as int),
        i < end <= chars@.len(),
{
    proof {
        lemma_numeral_end(chars@, i as int);
    }
    let m = scan_mantissa(chars, i);
    if m < chars.len() && chars[m] == 'e' {
        if m + 1 < chars.len() && (chars[m + 1] == '-' || chars[m + 1] == '+') {
            scan_digits(chars, m + 2)
        } else {
            scan_digits(chars, m + 1)
        }
    } else {
        m
    }
}

fn scan_single(chars: &[char], i: usize, kind: TokenType) -> (r: Scanned)
    requires
        i < chars@.len(),
    ensures
        r@ == single(chars@, i as int, kind),
{
    let _len = chars.len();
    Scanned {
        next: i + 1,
        token: Some(Token { token_value: string_of(chars, i, i + 1), token_type: kind }),
        finding: None,
    }
}

fn scan_signed(chars: &[char], i: usize) -> (r: Scanned)
    requires
        i < chars@.len(),
    ensures
        r@ == signed_step(chars@, i as int),
{
    proof {
        lemma_mantissa_end(chars@, i + 1);
    }
    let _len = chars.len();
    let end = scan_mantissa(chars, i + 1);
    if is_literal(slice_subrange(chars, i, end)) {
        Scanned {
            next: end,
            token: Some(
                Token { token_value: string_of(chars, i, end), token_type: TokenType::Operand },
            ),
            finding: None,
        }
    } else {
        Scanned {
            next: end,
            token: Some(
                Token { token_value: string_of(chars, i, i + 1), token_type: TokenType::Operator },
            ),
            finding: if end > i + 1 {
                Some((WarningKind::InvalidSignedNumber, string_of(chars, i, end)))
            } else {
                None
            },
        }
    }
}

fn scan_numeral(chars: &[char], i: usize) -> (r: Scanned)
    requires
        i < chars@.len(),
        is_digit(chars@[i as int]) || chars@[i as int] == '.',
    ensures
        r@ == numeral_step(chars@, i as int),
{
    let end = scan_numeral_end(chars, i);
    if is_literal(slice_subrange(chars, i, end)) {
        Scanned {
            next: end,
            token: Some(
                Token { token_value: string_of(chars, i, end), token_type: TokenType::Operand },
            ),
            finding: None,
        }
    } else {
        Scanned {
            next: end,
            token: None,
            finding: Some((WarningKind::InvalidNumeral, string_of(chars, i, end))),
        }
    }
}

fn scan_word(chars: &[char], i: usize, ans: &str) -> (r: Scanned)
    requires
        i < chars@.len(),
    ensures
        r@ == word_step(chars@, i as int, ans@),
{
    proof {
        lemma_word_end(chars@, i + 1);
    }
    let _len = chars.len();
    let end = scan_word_end(chars, i + 1);
    let word = string_of(chars, i, end);
    let kind = classify_identifier(word.as_str());
    let value = if same_text(word.as_str(), "ans") {
        ans.to_owned()
    } else {
        word
    };
    Scanned { next: end, token: Some(Token { token_value: value, token_type: kind }), finding: None }
}

/// One scan step at position `i`.
fn scan_step(chars: &[char], i: usize, unary: bool, ans: &str) -> (r: Scanned)
    requires
        i < chars@.len(),
    ensures
        r@ == step(chars@, i as int, unary, ans@),
        i < r.next <= chars@.len(),
{
    proof {
        lemma_step_advances(chars@, i as int, unary, ans@);
    }
    let c = chars[i];
    if c.is_whitespace() {
        Scanned { next: i + 1, token: None, finding: None }
    } else if c == '(' || c == ')' {
        scan_single(chars, i, TokenType::Bracket)
    } else if c == '+' || c == '*' || c == '/' || c == '^' || c == '!' {
        scan_single(chars, i, TokenType::Operator)
    } else if c == '√' {
        Scanned {
            next: i + 1,
            token: Some(Token { token_value: "sqrt".to_owned(), token_type: TokenType::Operator }),
            finding: None,
        }
    } else if c == '-' {
        if unary {
            scan_signed(chars, i)
        } else {
            scan_single(chars, i, TokenType::Operator)
        }
    } else if (c >= '0' && c <= '9') || c == '.' {
        scan_numeral(chars, i)
    } else if c.is_alphabetic() {
        scan_word(chars, i, ans)
    } else {
        Scanned {
            next: i + 1,
            token: None,
            finding: Some((WarningKind::UnknownCharacter, string_of(chars, i, i + 1))),
        }
    }
}

/// Whether a minus sign after this token would stand in sign position.
fn sign_position_after(unary: bool, token: &Option<Token>) -> (r: bool)
    ensures
        r == unary_after(
            unary,
            match *token {
                Some(t) => Some(t@),
                None => None,
            },
        ),
{
    match token {
        Some(t) => {
            proof {
                reveal_strlit("(");
                assert("("@ =~= seq!['(']);
            }
            t.token_type == TokenType::Operator || (t.token_type == TokenType::Bracket
                && same_text(t.token_value.as_str(), "("))
        },
        None => unary,
    }
}

/// The tokens of an expression together with the lexer's warnings.
pub struct Lexed {
    pub tokens: Vec<Token>,
    pub warnings: Vec<Warning>,
}

/// Scans `input`, folded to lower case, into tokens, and reports what was
/// left out. `ans` is replaced by the last result of `history`, or by `0`
/// where there is none yet.
pub fn tokenize_with_warnings(input: &str, history: &History) -> (r: Lexed)
    ensures
        token_views(r.tokens@) == tokens_of(input@, history@.ans()),
        warning_views(r.warnings@) == warnings_of(input@, history@.ans()),
        operands_are_numbers(token_views(r.tokens@)),
{
    let ans: String = match &history.last_result {
        Some(value) => value.text().to_owned(),
        None => "0".to_owned(),
    };
    proof {
        lemma_zero_is_literal();
        lemma_operands_are_numbers(input@, ans@);
    }
    let lowered = input.to_lowercase();
    let chars = chars_of(lowered.as_str());
    let text = chars.as_slice();
    let mut tokens: Vec<Token> = Vec::new();
    let mut warnings: Vec<Warning> = Vec::new();
    let mut i: usize = 0;
    let mut steps: usize = 0;
    let mut unary = true;
    assert(token_views(tokens@) =~= Seq::<TokenView>::empty());
    assert(warning_views(warnings@) =~= Seq::<WarningView>::empty());
    while i < text.len()
        invariant
            i <= text@.len(),
            steps <= i,
            text@ == lowercase(input@),
            ans@ == history@.ans(),
            token_views(tokens@) + lex_from(text@, i as int, unary, ans@) == lex(text@, ans@),
            warning_views(warnings@) + warnings_from(text@, i as int, unary, ans@, steps as nat)
                == lex_warnings(text@, ans@),
        decreases text@.len() - i,
    {
        let ghost before_tokens = token_views(tokens@);
        let ghost before_warnings = warning_views(warnings@);
        let ghost st = step(text@, i as int, unary, ans@);
        let scanned = scan_step(text, i, unary, ans.as_str());
        let next_unary = sign_position_after(unary, &scanned.token);
        steps = steps + 1;
        match scanned.finding {
            Some(found) => {
                let warning = Warning { kind: found.0, text: found.1, position: steps };
                warnings.push(warning);
                assert(warning_views(warnings@) =~= before_warnings + seq![warning@]);
                assert(before_warnings + (seq![warning@] + warnings_from(
                    text@,
                    st.next,
                    next_unary,
                    ans@,
                    steps as nat,
                )) =~= (before_warnings + seq![warning@]) + warnings_from(
                    text@,
                    st.next,
                    next_unary,
                    ans@,
                    steps as nat,
                ));
            },
            None => {},
        }
        match scanned.token {
            Some(token) => {
                tokens.push(token);
                assert(token_views(tokens@) =~= before_tokens + seq![token@]);
                assert(before_tokens + (seq![token@] + lex_from(text@, st.next, next_unary, ans@))
                    =~= (before_tokens + seq![token@]) + lex_from(
                    text@,
                    st.next,
                    next_unary,
                    ans@,
                ));
            },
            None => {},
        }
        i = scanned.next;
        unary = next_unary;
    }
    assert(token_views(tokens@) + Seq::<TokenView>::empty() =~= token_views(tokens@));
    assert(warning_views(warnings@) + Seq::<WarningView>::empty() =~= warning_views(warnings@));
    Lexed { tokens, warnings }
}

/// Scans `input`, folded to lower case, into tokens. `ans` is replaced by the
/// last result of `history`, or by `0` where there is none yet.
pub fn tokenize(input: &str, history: &History) -> (tokens: Vec<Token>)
    ensures
        token_views(tokens@) == tokens_of(input@, history@.ans()),
        operands_are_numbers(token_views(tokens@)),
{
    tokenize_with_warnings(input, history).tokens
}

} // verus!
