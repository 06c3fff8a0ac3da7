//! Postfix order: the operator-precedence conversion from a token sequence,
//! and the expression that comes out of it.

use vstd::prelude::*;
use vstd::string::{StrSliceExecFns, StringExecFns};
use vstd::utf8::encode_utf8;
use crate::history::History;
use crate::lexer::{tokenize, tokens_of};
use crate::text::same_text;
use crate::token::{token_views, Token, TokenType, TokenView};

verus! {

/// How tightly an operator binds. What is no operator binds with 0.
pub open spec fn precedence(op: Seq<char>) -> int {
    if op == "+"@ || op == "-"@ {
        1
    } else if op == "*"@ || op == "/"@ {
        2
    } else if op == "^"@ {
        3
    } else if op == "!"@ || op == "√"@ || op == "sqrt"@ || op == "log"@ || op == "ln"@ {
        4
    } else if op == "sin"@ || op == "cos"@ || op == "tan"@ || op == "arctan"@ || op == "arcsin"@
        || op == "arccos"@ {
        5
    } else {
        0
    }
}

/// The operators that group from the right.
pub open spec fn right_associative(op: Seq<char>) -> bool {
    op == "^"@ || op == "!"@
}

/// The operators that are written before their one operand and are to come
/// right after it in postfix order.
pub open spec fn prefix_unary(op: Seq<char>) -> bool {
    op == "sqrt"@
}

/// How tightly an operator binds.
pub fn get_precedence(op: &str) -> (level: i32)
    ensures
        level == precedence(op@),
{
    if same_text(op, "+") || same_text(op, "-") {
        1
    } else if same_text(op, "*") || same_text(op, "/") {
        2
    } else if same_text(op, "^") {
        3
    } else if same_text(op, "!") || same_text(op, "√") || same_text(op, "sqrt") || same_text(
        op,
        "log",
    ) || same_text(op, "ln") {
        4
    } else if same_text(op, "sin") || same_text(op, "cos") || same_text(op, "tan") || same_text(
        op,
        "arctan",
    ) || same_text(op, "arcsin") || same_text(op, "arccos") {
        5
    } else {
        0
    }
}

/// Whether an operator groups from the right.
pub fn is_right_associative(op: &str) -> (r: bool)
    ensures
        r == right_associative(op@),
{
    same_text(op, "^") || same_text(op, "!")
}

/// Whether an operator is written before its one operand.
pub fn is_prefix_unary(op: &str) -> (r: bool)
    ensures
        r == prefix_unary(op@),
{
    same_text(op, "sqrt")
}

/// The state of the conversion: what has been put out, and the operators and
/// opening brackets that wait. The top of the stack is its last element.
pub struct Yard {
    pub output: Seq<Seq<char>>,
    pub stack: Seq<Seq<char>>,
}

impl Yard {
    /// Nothing put out and nothing waiting.
    pub open spec fn start() -> Yard {
        Yard { output: Seq::empty(), stack: Seq::empty() }
    }

    /// The top of the stack moves to the output.
    pub open spec fn pop_to_output(self) -> Yard {
        Yard { output: self.output.push(self.stack.last()), stack: self.stack.drop_last() }
    }

    /// `word` is put on the stack.
    pub open spec fn hold(self, word: Seq<char>) -> Yard {
        Yard { output: self.output, stack: self.stack.push(word) }
    }

    /// An operand goes to the output. A prefix operator that waits on top of
    /// the stack follows it at once.
    pub open spec fn operand(self, value: Seq<char>) -> Yard {
        let put = Yard { output: self.output.push(value), stack: self.stack };
        if put.stack.len() > 0 && prefix_unary(put.stack.last()) {
            put.pop_to_output()
        } else {
            put
        }
    }

    /// Whether the waiting word `top` goes to the output before `op` is put on
    /// the stack: it is no opening bracket, and it binds tighter than `op`, or
    /// as tightly where `op` groups from the left.
    pub open spec fn gives_way(top: Seq<char>, op: Seq<char>) -> bool {
        top != "("@ && !(precedence(op) > precedence(top) || (precedence(op) == precedence(top)
            && right_associative(op)))
    }

    /// Everything on top of the stack that gives way to `op` goes to the
    /// output.
    pub open spec fn make_way(self, op: Seq<char>) -> Yard
        decreases self.stack.len(),
    {
        if self.stack.len() > 0 && Self::gives_way(self.stack.last(), op) {
            self.pop_to_output().make_way(op)
        } else {
            self
        }
    }

    /// An operator is put on the stack: a prefix operator at once, any other
    /// after what gives way to it has gone to the output.
    pub open spec fn operator(self, op: Seq<char>) -> Yard {
        if prefix_unary(op) {
            self.hold(op)
        } else {
            self.make_way(op).hold(op)
        }
    }

    /// A closing bracket: the stack goes to the output down to the nearest
    /// opening bracket, which is dropped. Where none waits, the whole stack
    /// goes to the output.
    pub open spec fn close(self) -> Yard
        decreases self.stack.len(),
    {
        if self.stack.len() == 0 {
            self
        } else if self.stack.last() == "("@ {
            Yard { output: self.output, stack: self.stack.drop_last() }
        } else {
            self.pop_to_output().close()
        }
    }

    /// One token is taken in.
    pub open spec fn feed(self, token: TokenView) -> Yard {
        match token.kind {
            TokenType::Operand | TokenType::Variable => self.operand(token.value),
            TokenType::Operator => self.operator(token.value),
            TokenType::Bracket => if token.value == "("@ {
                self.hold(token.value)
            } else {
                self.close()
            },
            TokenType::Function => self,
        }
    }

    /// The tokens are taken in, first to last.
    pub open spec fn feed_all(tokens: Seq<TokenView>) -> Yard
        decreases tokens.len(),
    {
        if tokens.len() == 0 {
            Yard::start()
        } else {
            Yard::feed_all(tokens.drop_last()).feed(tokens.last())
        }
    }

    /// At the end of the input the stack goes to the output, top first.
    pub open spec fn drain(self) -> Seq<Seq<char>>
        decreases self.stack.len(),
    {
        if self.stack.len() == 0 {
            self.output
        } else {
            self.pop_to_output().drain()
        }
    }
}

/// The postfix order of a token sequence.
pub open spec fn rpn_of(tokens: Seq<TokenView>) -> Seq<Seq<char>> {
    Yard::feed_all(tokens).drain()
}

/// How often `word` stands among `words`.
pub open spec fn count(words: Seq<Seq<char>>, word: Seq<char>) -> nat
    decreases words.len(),
{
    if words.len() == 0 {
        0
    } else {
        count(words.drop_last(), word) + if words.last() == word {
            1nat
        } else {
            0nat
        }
    }
}

/// Whether a token is an operand or operator that reads `word`.
pub open spec fn reads(token: TokenView, word: Seq<char>) -> bool {
    token.value == word && (token.kind == TokenType::Operand || token.kind == TokenType::Variable
        || token.kind == TokenType::Operator)
}

/// How many operands and operators among `tokens` read `word`.
pub open spec fn count_tokens(tokens: Seq<TokenView>, word: Seq<char>) -> nat
    decreases tokens.len(),
{
    if tokens.len() == 0 {
        0
    } else {
        count_tokens(tokens.drop_last(), word) + if reads(tokens.last(), word) {
            1nat
        } else {
            0nat
        }
    }
}

impl Yard {
    /// How often `word` stands in the output and on the stack together.
    pub open spec fn holds(self, word: Seq<char>) -> nat {
        count(self.output, word) + count(self.stack, word)
    }
}

/// One more word at the end counts once more where it is the word counted.
pub proof fn lemma_count_push(words: Seq<Seq<char>>, last: Seq<char>, word: Seq<char>)
    ensures
        count(words.push(last), word) == count(words, word) + if last == word {
            1nat
        } else {
            0nat
        },
{
    assert(words.push(last).drop_last() =~= words);
}

/// Moving the top of the stack to the output loses no word and adds none.
pub proof fn lemma_pop_keeps(yard: Yard, word: Seq<char>)
    requires
        yard.stack.len() > 0,
    ensures
        yard.pop_to_output().holds(word) == yard.holds(word),
{
    lemma_count_push(yard.output, yard.stack.last(), word);
}

/// Making way for an operator loses no word and adds none.
pub proof fn lemma_make_way_keeps(yard: Yard, op: Seq<char>, word: Seq<char>)
    ensures
        yard.make_way(op).holds(word) == yard.holds(word),
    decreases yard.stack.len(),
{
    if yard.stack.len() > 0 && Yard::gives_way(yard.stack.last(), op) {
        lemma_pop_keeps(yard, word);
        lemma_make_way_keeps(yard.pop_to_output(), op, word);
    }
}

/// A closing bracket loses no word but an opening bracket, and adds none.
pub proof fn lemma_close_keeps(yard: Yard, word: Seq<char>)
    requires
        word != "("@,
    ensures
        yard.close().holds(word) == yard.holds(word),
    decreases yard.stack.len(),
{
    if yard.stack.len() > 0 && yard.stack.last() != "("@ {
        lemma_pop_keeps(yard, word);
        lemma_close_keeps(yard.pop_to_output(), word);
    }
}

/// A token adds its word where it is an operand or an operator, and nothing
/// else changes but for opening brackets.
pub proof fn lemma_feed_counts(yard: Yard, token: TokenView, word: Seq<char>)
    requires
        word != "("@,
    ensures
        yard.feed(token).holds(word) == yard.holds(word) + if reads(token, word) {
            1nat
        } else {
            0nat
        },
{
    match token.kind {
        TokenType::Operand | TokenType::Variable => {
            let put = Yard { output: yard.output.push(token.value), stack: yard.stack };
            lemma_count_push(yard.output, token.value, word);
            if put.stack.len() > 0 && prefix_unary(put.stack.last()) {
                lemma_pop_keeps(put, word);
            }
        },
        TokenType::Operator => {
            if prefix_unary(token.value) {
                lemma_count_push(yard.stack, token.value, word);
            } else {
                lemma_make_way_keeps(yard, token.value, word);
                lemma_count_push(yard.make_way(token.value).stack, token.value, word);
            }
        },
        TokenType::Bracket => {
            if token.value == "("@ {
                lemma_count_push(yard.stack, token.value, word);
            } else {
                lemma_close_keeps(yard, word);
            }
        },
        TokenType::Function => {},
    }
}

/// After all tokens, the output and the stack hold each word as often as
/// operands and operators read it.
pub proof fn lemma_feed_all_counts(tokens: Seq<TokenView>, word: Seq<char>)
    requires
        word != "("@,
    ensures
        Yard::feed_all(tokens).holds(word) == count_tokens(tokens, word),
    decreases tokens.len(),
{
    if tokens.len() > 0 {
        lemma_feed_all_counts(tokens.drop_last(), word);
        lemma_feed_counts(Yard::feed_all(tokens.drop_last()), tokens.last(), word);
    }
}

/// At the end everything that waits comes out.
pub proof fn lemma_drain_counts(yard: Yard, word: Seq<char>)
    ensures
        count(yard.drain(), word) == yard.holds(word),
    decreases yard.stack.len(),
{
    if yard.stack.len() > 0 {
        lemma_pop_keeps(yard, word);
        lemma_drain_counts(yard.pop_to_output(), word);
    }
}

/// The conversion keeps every operand and operator: any word but the
/// opening bracket stands in the postfix order exactly as often as an
/// operand or operator of the input reads it. So nothing is made up, and
/// nothing but brackets is lost.
pub proof fn lemma_words_are_kept(tokens: Seq<TokenView>, word: Seq<char>)
    requires
        word != "("@,
    ensures
        count(rpn_of(tokens), word) == count_tokens(tokens, word),
{
    lemma_feed_all_counts(tokens, word);
    lemma_drain_counts(Yard::feed_all(tokens), word);
}

/// Whether a token is an operand: a number or a variable.
pub open spec fn is_operand(token: TokenView) -> bool {
    token.kind == TokenType::Operand || token.kind == TokenType::Variable
}

/// The operands among `tokens`, in their order.
pub open spec fn operands(tokens: Seq<TokenView>) -> Seq<Seq<char>>
    decreases tokens.len(),
{
    if tokens.len() == 0 {
        Seq::empty()
    } else if is_operand(tokens.last()) {
        operands(tokens.drop_last()).push(tokens.last().value)
    } else {
        operands(tokens.drop_last())
    }
}

/// The words among `words` that `pick` holds of, in their order.
pub open spec fn picked(words: Seq<Seq<char>>, pick: spec_fn(Seq<char>) -> bool) -> Seq<
    Seq<char>,
>
    decreases words.len(),
{
    if words.len() == 0 {
        Seq::empty()
    } else if pick(words.last()) {
        picked(words.drop_last(), pick).push(words.last())
    } else {
        picked(words.drop_last(), pick)
    }
}

/// `pick` holds of no word of `words`.
pub open spec fn none_picked(words: Seq<Seq<char>>, pick: spec_fn(Seq<char>) -> bool) -> bool {
    forall|k: int| 0 <= k < words.len() ==> !pick(#[trigger] words[k])
}

/// `pick` tells the operands among `tokens` from what can wait on the
/// stack: it holds of every operand, and of no operator and no opening
/// bracket.
pub open spec fn tells_operands(tokens: Seq<TokenView>, pick: spec_fn(Seq<char>) -> bool) -> bool {
    forall|k: int|
        0 <= k < tokens.len() ==> {
            let t = #[trigger] tokens[k];
            &&& is_operand(t) ==> pick(t.value)
            &&& t.kind == TokenType::Operator ==> !pick(t.value)
            &&& t.kind == TokenType::Bracket && t.value == "("@ ==> !pick(t.value)
        }
}

/// One more word at the end is picked or not, and the rest as before.
pub proof fn lemma_picked_push(
    words: Seq<Seq<char>>,
    last: Seq<char>,
    pick: spec_fn(Seq<char>) -> bool,
)
    ensures
        picked(words.push(last), pick) == if pick(last) {
            picked(words, pick).push(last)
        } else {
            picked(words, pick)
        },
{
    assert(words.push(last).drop_last() =~= words);
}

/// Where no operand waits on the stack, none comes out of it: moving the
/// top to the output leaves the picked words as they were.
pub proof fn lemma_pop_picks_nothing(yard: Yard, pick: spec_fn(Seq<char>) -> bool)
    requires
        yard.stack.len() > 0,
        none_picked(yard.stack, pick),
    ensures
        picked(yard.pop_to_output().output, pick) == picked(yard.output, pick),
        none_picked(yard.pop_to_output().stack, pick),
{
    lemma_picked_push(yard.output, yard.stack.last(), pick);
    assert(!pick(yard.stack[yard.stack.len() - 1]));
    assert forall|k: int| 0 <= k < yard.stack.drop_last().len() implies !pick(
        #[trigger] yard.stack.drop_last()[k],
    ) by {
        assert(yard.stack.drop_last()[k] == yard.stack[k]);
    }
}

/// Making way for an operator picks nothing.
pub proof fn lemma_make_way_picks_nothing(
    yard: Yard,
    op: Seq<char>,
    pick: spec_fn(Seq<char>) -> bool,
)
    requires
        none_picked(yard.stack, pick),
    ensures
        picked(yard.make_way(op).output, pick) == picked(yard.output, pick),
        none_picked(yard.make_way(op).stack, pick),
    decreases yard.stack.len(),
{
    if yard.stack.len() > 0 && Yard::gives_way(yard.stack.last(), op) {
        lemma_pop_picks_nothing(yard, pick);
        lemma_make_way_picks_nothing(yard.pop_to_output(), op, pick);
    }
}

/// A closing bracket picks nothing.
pub proof fn lemma_close_picks_nothing(yard: Yard, pick: spec_fn(Seq<char>) -> bool)
    requires
        none_picked(yard.stack, pick),
    ensures
        picked(yard.close().output, pick) == picked(yard.output, pick),
        none_picked(yard.close().stack, pick),
    decreases yard.stack.len(),
{
    if yard.stack.len() > 0 {
        lemma_pop_picks_nothing(yard, pick);
        if yard.stack.last() != "("@ {
            lemma_close_picks_nothing(yard.pop_to_output(), pick);
        }
    }
}

/// Emptying the stack at the end picks nothing.
pub proof fn lemma_drain_picks_nothing(yard: Yard, pick: spec_fn(Seq<char>) -> bool)
    requires
        none_picked(yard.stack, pick),
    ensures
        picked(yard.drain(), pick) == picked(yard.output, pick),
    decreases yard.stack.len(),
{
    if yard.stack.len() > 0 {
        lemma_pop_picks_nothing(yard, pick);
        lemma_drain_picks_nothing(yard.pop_to_output(), pick);
    }
}

/// While the tokens are taken in, the operands among the output are the
/// operands taken in so far, in their order, and no operand waits on the
/// stack.
pub proof fn lemma_feed_all_keeps_order(tokens: Seq<TokenView>, pick: spec_fn(Seq<char>) -> bool)
    requires
        tells_operands(tokens, pick),
    ensures
        picked(Yard::feed_all(tokens).output, pick) == operands(tokens),
        none_picked(Yard::feed_all(tokens).stack, pick),
    decreases tokens.len(),
{
    if tokens.len() > 0 {
        let before = tokens.drop_last();
        let token = tokens.last();
        assert(token == tokens[tokens.len() - 1]);
        assert forall|k: int| 0 <= k < before.len() implies {
            let t = #[trigger] before[k];
            &&& is_operand(t) ==> pick(t.value)
            &&& t.kind == TokenType::Operator ==> !pick(t.value)
            &&& t.kind == TokenType::Bracket && t.value == "("@ ==> !pick(t.value)
        } by {
            assert(before[k] == tokens[k]);
        }
        lemma_feed_all_keeps_order(before, pick);
        let yard = Yard::feed_all(before);
        match token.kind {
            TokenType::Operand | TokenType::Variable => {
                let put = Yard { output: yard.output.push(token.value), stack: yard.stack };
                lemma_picked_push(yard.output, token.value, pick);
                if put.stack.len() > 0 && prefix_unary(put.stack.last()) {
                    lemma_pop_picks_nothing(put, pick);
                }
            },
            TokenType::Operator => {
                if prefix_unary(token.value) {
                    assert(none_picked(yard.hold(token.value).stack, pick));
                } else {
                    lemma_make_way_picks_nothing(yard, token.value, pick);
                    assert(none_picked(yard.make_way(token.value).hold(token.value).stack, pick));
                }
            },
            TokenType::Bracket => {
                if token.value == "("@ {
                    assert(none_picked(yard.hold(token.value).stack, pick));
                } else {
                    lemma_close_picks_nothing(yard, pick);
                }
            },
            TokenType::Function => {},
        }
    }
}

/// The conversion keeps the operands in their order: whatever tells the
/// operands of the input from its operators and opening brackets finds, in
/// the postfix order, the same operands in the same order.
pub proof fn lemma_operands_keep_their_order(
    tokens: Seq<TokenView>,
    pick: spec_fn(Seq<char>) -> bool,
)
    requires
        tells_operands(tokens, pick),
    ensures
        picked(rpn_of(tokens), pick) == operands(tokens),
{
    lemma_feed_all_keeps_order(tokens, pick);
    lemma_drain_picks_nothing(Yard::feed_all(tokens), pick);
}

/// The words of a vector as plain text.
pub open spec fn word_views(words: Seq<String>) -> Seq<Seq<char>> {
    words.map_values(|w: String| w@)
}

/// The words with one space between each two.
pub open spec fn spaced(words: Seq<Seq<char>>) -> Seq<char>
    decreases words.len(),
{
    if words.len() == 0 {
        Seq::empty()
    } else if words.len() == 1 {
        words[0]
    } else {
        spaced(words.drop_last()) + seq![' '] + words.last()
    }
}

/// A word as the evaluator takes it: its bytes, closed by a zero byte.
pub open spec fn terminated(word: Seq<char>) -> Seq<u8> {
    encode_utf8(word).push(0u8)
}

/// Whether a word holds a zero byte, which cannot be told from the end of
/// the word.
pub open spec fn holds_zero(word: Seq<char>) -> bool {
    encode_utf8(word).contains(0u8)
}

/// The words of an expression, each as the evaluator takes it.
pub open spec fn payload_of(words: Seq<Seq<char>>) -> Seq<Seq<u8>> {
    words.map_values(|w: Seq<char>| terminated(w))
}

/// The byte strings of a vector as plain sequences.
pub open spec fn payload_view(payload: Seq<Vec<u8>>) -> Seq<Seq<u8>> {
    payload.map_values(|b: Vec<u8>| b@)
}

/// An expression in postfix order, one word for each operand and operator.
pub struct ReversePolish {
    pub rp_expression: Vec<String>,
}

impl View for ReversePolish {
    type V = Seq<Seq<char>>;

    open spec fn view(&self) -> Seq<Seq<char>> {
        word_views(self.rp_expression@)
    }
}

fn has_zero(bytes: &Vec<u8>) -> (r: bool)
    ensures
        r == bytes@.contains(0u8),
{
    let mut i: usize = 0;
    while i < bytes.len()
        invariant
            i <= bytes@.len(),
            forall|k: int| 0 <= k < i ==> bytes@[k] != 0u8,
        decreases bytes@.len() - i,
    {
        if bytes[i] == 0u8 {
            return true;
        }
        i = i + 1;
    }
    false
}

impl ReversePolish {
    /// The words with one space between each two.
    pub fn to_string(&self) -> (text: String)
        ensures
            text@ == spaced(self@),
    {
        let mut out = String::new();
        let mut i: usize = 0;
        while i < self.rp_expression.len()
            invariant
                i <= self.rp_expression@.len(),
                out@ == spaced(self@.take(i as int)),
            decreases self.rp_expression@.len() - i,
        {
            let ghost before = self@.take(i as int);
            if i > 0 {
                out.append(" ");
            }
            out.append(self.rp_expression[i].as_str());
            proof {
                reveal_strlit(" ");
                let now = self@.take(i + 1);
                assert(now.drop_last() =~= before);
                assert(now.last() == self.rp_expression@[i as int]@);
                assert(" "@ =~= seq![' ']);
                assert(out@ =~= spaced(now));
            }
            i = i + 1;
        }
        assert(self@.take(i as int) =~= self@);
        out
    }

    /// The words as the evaluator takes them, each closed by a zero byte.
    /// A word that holds a zero byte itself cannot be sent: then nothing is.
    pub fn to_c_expr(&self) -> (r: Result<Vec<Vec<u8>>, String>)
        ensures
            match r {
                Ok(payload) => {
                    &&& forall|k: int| 0 <= k < self@.len() ==> !holds_zero(#[trigger] self@[k])
                    &&& payload_view(payload@) == payload_of(self@)
                },
                Err(message) => {
                    &&& exists|k: int| 0 <= k < self@.len() && holds_zero(#[trigger] self@[k])
                    &&& message@ == "Failed to convert expression to CString"@
                },
            },
    {
        let mut payload: Vec<Vec<u8>> = Vec::new();
        let mut i: usize = 0;
        while i < self.rp_expression.len()
            invariant
                i <= self.rp_expression@.len(),
                forall|k: int| 0 <= k < i ==> !holds_zero(#[trigger] self@[k]),
                payload_view(payload@) == payload_of(self@.take(i as int)),
            decreases self.rp_expression@.len() - i,
        {
            let mut bytes = self.rp_expression[i].as_str().as_bytes_vec();
            if has_zero(&bytes) {
                assert(holds_zero(self@[i as int]));
                return Err("Failed to convert expression to CString".to_owned());
            }
            bytes.push(0u8);
            let ghost before = payload_view(payload@);
            payload.push(bytes);
            assert(payload_view(payload@) =~= before.push(bytes@));
            assert(payload_of(self@.take(i + 1)) =~= payload_of(self@.take(i as int)).push(
                terminated(self@[i as int]),
            ));
            i = i + 1;
        }
        assert(self@.take(i as int) =~= self@);
        Ok(payload)
    }
}

/// What the conversion holds while it runs.
struct Converter {
    output: Vec<String>,
    stack: Vec<String>,
}

impl View for Converter {
    type V = Yard;

    closed spec fn view(&self) -> Yard {
        Yard { output: word_views(self.output@), stack: word_views(self.stack@) }
    }
}

impl Converter {
    fn pop_to_output(&mut self)
        requires
            old(self)@.stack.len() > 0,
        ensures
            final(self)@ == old(self)@.pop_to_output(),
    {
        let top = self.stack.pop().unwrap();
        self.output.push(top);
        assert(self@.output =~= old(self)@.output.push(old(self)@.stack.last()));
        assert(self@.stack =~= old(self)@.stack.drop_last());
    }

    fn hold(&mut self, word: String)
        ensures
            final(self)@ == old(self)@.hold(word@),
    {
        self.stack.push(word);
        assert(self@.stack =~= old(self)@.stack.push(word@));
    }

    fn top_is_prefix_unary(&self) -> (r: bool)
        ensures
            r == (self@.stack.len() > 0 && prefix_unary(self@.stack.last())),
    {
        let n = self.stack.len();
        n > 0 && is_prefix_unary(self.stack[n - 1].as_str())
    }

    fn operand(&mut self, value: String)
        ensures
            final(self)@ == old(self)@.operand(value@),
    {
        self.output.push(value);
        assert(self@.output =~= old(self)@.output.push(value@));
        if self.top_is_prefix_unary() {
            self.pop_to_output();
        }
    }

    fn top_gives_way(&self, op: &str) -> (r: bool)
        ensures
            r == (self@.stack.len() > 0 && Yard::gives_way(self@.stack.last(), op@)),
    {
        let n = self.stack.len();
        if n == 0 {
            return false;
        }
        let top = self.stack[n - 1].as_str();
        if same_text(top, "(") {
            return false;
        }
        let now = get_precedence(op);
        let waiting = get_precedence(top);
        !(now > waiting || (now == waiting && is_right_associative(op)))
    }

    fn make_way(&mut self, op: &str)
        ensures
            final(self)@ == old(self)@.make_way(op@),
    {
        while self.top_gives_way(op)
            invariant
                self@.make_way(op@) == old(self)@.make_way(op@),
            decreases self@.stack.len(),
        {
            self.pop_to_output();
        }
    }

    fn operator(&mut self, op: String)
        ensures
            final(self)@ == old(self)@.operator(op@),
    {
        if !is_prefix_unary(op.as_str()) {
            self.make_way(op.as_str());
        }
        self.hold(op);
    }

    fn close(&mut self)
        ensures
            final(self)@ == old(self)@.close(),
    {
        loop
            invariant_except_break
                self@.close() == old(self)@.close(),
            ensures
                self@ == old(self)@.close(),
            decreases self@.stack.len(),
        {
            let ghost before = self@;
            match self.stack.pop() {
                None => {
                    assert(self@.stack =~= before.stack);
                    break ;
                },
                Some(top) => {
                    assert(self@.stack =~= before.stack.drop_last());
                    assert(top@ == before.stack.last());
                    if same_text(top.as_str(), "(") {
                        break ;
                    }
                    self.output.push(top);
                    assert(self@.output =~= before.output.push(top@));
                },
            }
        }
    }

    fn feed(&mut self, token: Token)
        ensures
            final(self)@ == old(self)@.feed(token@),
    {
        match token.token_type {
            TokenType::Operand | TokenType::Variable => self.operand(token.token_value),
            TokenType::Operator => self.operator(token.token_value),
            TokenType::Bracket => {
                if same_text(token.token_value.as_str(), "(") {
                    self.hold(token.token_value);
                } else {
                    self.close();
                }
            },
            TokenType::Function => {},
        }
    }

    fn drain(self) -> (words: Vec<String>)
        ensures
            word_views(words@) == self@.drain(),
    {
        let mut rest = self;
        while rest.stack.len() > 0
            invariant
                rest@.drain() == self@.drain(),
            decreases rest@.stack.len(),
        {
            rest.pop_to_output();
        }
        rest.output
    }
}

/// Puts a token sequence into postfix order.
pub fn shunting_yard(tokens: Vec<Token>) -> (rpn: ReversePolish)
    ensures
        rpn@ == rpn_of(token_views(tokens@)),
{
    let mut converter = Converter { output: Vec::new(), stack: Vec::new() };
    assert(converter@.output =~= Seq::<Seq<char>>::empty());
    assert(converter@.stack =~= Seq::<Seq<char>>::empty());
    let ghost all = token_views(tokens@);
    for token in it: tokens
        invariant
            token_views(it.seq()) == all,
            converter@ == Yard::feed_all(all.take(it.index() as int)),
    {
        proof {
            let now = all.take(it.index() + 1);
            assert(now.drop_last() =~= all.take(it.index() as int));
            assert(now.last() == token@);
        }
        converter.feed(token);
    }
    assert(all.take(all.len() as int) =~= all);
    ReversePolish { rp_expression: converter.drain() }
}

/// Converts an expression from infix to postfix order. The conversion itself
/// cannot fail: brackets that do not match are let through, an opening one
/// as a word of the output, a closing one by emptying the stack.
pub fn infix_to_rpn(input: &str, history: &History) -> (r: Result<ReversePolish, String>)
    ensures
        r matches Ok(rpn) && rpn@ == rpn_of(tokens_of(input@, history@.ans())),
{
    Ok(shunting_yard(tokenize(input, history)))
}

} // verus!
