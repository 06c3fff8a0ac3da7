//! Tokens: what the lexer makes of an expression.

use vstd::prelude::*;

verus! {

/// The kinds of token.
#[derive(Debug, Clone, Copy, PartialEq, Eq, Structural)]
pub enum TokenType {
    /// `+ - * / ^ !`, and the operators that are written as words.
    Operator,
    /// A number.
    Operand,
    /// A word that is not an operator.
    Variable,
    /// `(` or `)`.
    Bracket,
    /// Reserved: the lexer makes no such token.
    Function,
}

/// A piece of an expression, with its kind.
#[derive(Debug, Clone)]
pub struct Token {
    pub token_value: String,
    pub token_type: TokenType,
}

/// A token as plain text.
pub struct TokenView {
    pub value: Seq<char>,
    pub kind: TokenType,
}

impl View for Token {
    type V = TokenView;

    open spec fn view(&self) -> TokenView {
        TokenView { value: self.token_value@, kind: self.token_type }
    }
}

/// The tokens of a vector as plain text.
pub open spec fn token_views(tokens: Seq<Token>) -> Seq<TokenView> {
    tokens.map_values(|t: Token| t@)
}

/// What the lexer can find odd in its input.
#[derive(Debug, Clone, Copy, PartialEq, Eq, Structural)]
pub enum WarningKind {
    /// A minus sign in sign position, then a point and no digit.
    InvalidSignedNumber,
    /// Digits, points and an exponent that spell no number.
    InvalidNumeral,
    /// A character with no meaning in an expression.
    UnknownCharacter,
}

/// One finding of the lexer. `position` counts the scan steps, from one.
#[derive(Debug, Clone)]
pub struct Warning {
    pub kind: WarningKind,
    pub text: String,
    pub position: usize,
}

/// A warning as plain text.
pub struct WarningView {
    pub kind: WarningKind,
    pub text: Seq<char>,
    pub position: nat,
}

impl View for Warning {
    type V = WarningView;

    open spec fn view(&self) -> WarningView {
        WarningView { kind: self.kind, text: self.text@, position: self.position as nat }
    }
}

/// The warnings of a vector as plain text.
pub open spec fn warning_views(warnings: Seq<Warning>) -> Seq<WarningView> {
    warnings.map_values(|w: Warning| w@)
}

} // verus!
