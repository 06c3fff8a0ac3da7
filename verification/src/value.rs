//! Numbers as the library holds them: by their decimal text.

use vstd::prelude::*;
use crate::numeral::{is_float_literal, is_literal, is_mantissa, is_number, unsigned_part};
use crate::text::chars_of;

verus! {

/// A double-precision value, held as the decimal text that stands for it.
/// The text always spells a floating-point literal.
#[derive(Debug, PartialEq, Eq)]
pub struct Number {
    text: String,
}

impl View for Number {
    type V = Seq<char>;

    closed spec fn view(&self) -> Seq<char> {
        self.text@
    }
}

/// The text of a number that may be absent.
pub open spec fn text_of(number: Option<Number>) -> Option<Seq<char>> {
    match number {
        Some(n) => Some(n@),
        None => None,
    }
}

/// The text `0` is a literal.
pub proof fn lemma_zero_is_literal()
    ensures
        is_float_literal("0"@),
{
    reveal_strlit("0");
    let s = "0"@;
    assert(unsigned_part(s) == s);
    assert(s.take(1) =~= s);
    assert(is_mantissa(s.take(1)));
    assert(is_number(s));
}

impl Clone for Number {
    fn clone(&self) -> (copy: Number)
        ensures
            copy@ == self@,
    {
        proof {
            use_type_invariant(self);
        }
        Number { text: self.text.clone() }
    }
}

impl Number {
    #[verifier::type_invariant]
    spec fn spells_a_literal(self) -> bool {
        is_float_literal(self.text@)
    }

    /// The number that `text` spells, if it spells one.
    pub fn new(text: String) -> (number: Option<Number>)
        ensures
            number is Some == is_float_literal(text@),
            number matches Some(n) ==> n@ == text@,
    {
        let chars = chars_of(text.as_str());
        if is_literal(chars.as_slice()) {
            Some(Number { text })
        } else {
            None
        }
    }

    /// Zero, written `0`.
    pub fn zero() -> (number: Number)
        ensures
            number@ == "0"@,
    {
        proof {
            lemma_zero_is_literal();
        }
        Number { text: "0".to_owned() }
    }

    /// The decimal text, which spells a literal.
    pub fn text(&self) -> (text: &str)
        ensures
            text@ == self@,
            is_float_literal(self@),
    {
        proof {
            use_type_invariant(self);
        }
        self.text.as_str()
    }
}

} // verus!
