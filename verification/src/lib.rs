//! The core of an expression calculator: a lexer for human-typed arithmetic,
//! an operator-precedence converter to postfix order, the session history, and
//! the decisions made around an evaluation engine that lives elsewhere.

pub mod calculation;
pub mod conversion;
pub mod errors;
pub mod history;
pub mod lexer;
pub mod numeral;
pub mod rpn;
pub mod text;
pub mod token;
pub mod value;

pub use calculation::{
    calculate_expression, complete_calculation, trim_quotes, CCalculationResult,
    CReversePolishExpression, Calculation, CalculationResult, PendingCalculation,
};
pub use conversion::{
    complete_conversion, convert_rpn, split_whitespace, CConversionResult, Conversion,
    ConversionResult, PendingConversion,
};
pub use errors::{get_error_message, get_error_str};
pub use history::{History, HistoryEntry};
pub use lexer::{classify_identifier, tokenize, tokenize_with_warnings, Lexed};
pub use numeral::is_numeric;
pub use rpn::{
    get_precedence, infix_to_rpn, is_prefix_unary, is_right_associative, shunting_yard,
    ReversePolish,
};
pub use token::{Token, TokenType, Warning, WarningKind};
pub use value::Number;
