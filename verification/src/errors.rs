//! The evaluator's error vocabulary.

use vstd::prelude::*;

verus! {

pub const SUCCESS: i32 = 0;
pub const DIVISION_BY_ZERO: i32 = 1;
pub const INVALID_OPERATOR: i32 = 2;
pub const STACK_UNDERFLOW: i32 = 3;
pub const MEMORY_ERROR: i32 = 4;
pub const UNDEFINED_VARIABLE: i32 = 5;
pub const STACK_MAXIMUM: i32 = 6;
pub const EXPR_LENGTH_MAXIMUM: i32 = 7;
pub const FACTORIAL_ERROR: i32 = 8;
pub const SQUARE_ROOT_ERROR: i32 = 9;
pub const LOG_ERROR: i32 = 10;
pub const LN_ERROR: i32 = 11;
pub const TAN_INVALID_OPERATOR: i32 = 12;
pub const INVALID_TRIG_OPERATOR: i32 = 13;

/// The message that belongs to an error code of the evaluator. Every code
/// outside the fixed table reads "Unknown error".
pub open spec fn error_text(code: int) -> Seq<char> {
    if code == 0 {
        "Success"@
    } else if code == 1 {
        "Division by zero"@
    } else if code == 2 {
        "Invalid operator"@
    } else if code == 3 {
        "Stack underflow - invalid expression"@
    } else if code == 4 {
        "Memory error"@
    } else if code == 5 {
        "Undefined variable in expression"@
    } else if code == 6 {
        "Stack maximum exceeded"@
    } else if code == 7 {
        "Expression length maximum exceeded"@
    } else if code == 8 {
        "Factorial error"@
    } else if code == 9 {
        "Square root error"@
    } else if code == 10 {
        "Log error"@
    } else if code == 11 {
        "Natural logarithm error"@
    } else if code == 12 {
        "Invalid operator for tangent"@
    } else if code == 13 {
        "Invalid trigonometric operator"@
    } else {
        "Unknown error"@
    }
}

/// Only code 0 reads "Success".
pub proof fn lemma_success_text(code: int)
    ensures
        error_text(code) == "Success"@ <==> code == 0,
{
    reveal_strlit("Success");
    reveal_strlit("Division by zero");
    reveal_strlit("Invalid operator");
    reveal_strlit("Stack underflow - invalid expression");
    reveal_strlit("Memory error");
    reveal_strlit("Undefined variable in expression");
    reveal_strlit("Stack maximum exceeded");
    reveal_strlit("Expression length maximum exceeded");
    reveal_strlit("Factorial error");
    reveal_strlit("Square root error");
    reveal_strlit("Log error");
    reveal_strlit("Natural logarithm error");
    reveal_strlit("Invalid operator for tangent");
    reveal_strlit("Invalid trigonometric operator");
    reveal_strlit("Unknown error");
    assert("Success"@.len() == 7);
    assert(code != 0 ==> error_text(code).len() != 7);
}

/// Looks an error code up in the fixed table.
pub fn get_error_message(error_code: i32) -> (message: &'static str)
    ensures
        message@ == error_text(error_code as int),
{
    match error_code {
        0 => "Success",
        1 => "Division by zero",
        2 => "Invalid operator",
        3 => "Stack underflow - invalid expression",
        4 => "Memory error",
        5 => "Undefined variable in expression",
        6 => "Stack maximum exceeded",
        7 => "Expression length maximum exceeded",
        8 => "Factorial error",
        9 => "Square root error",
        10 => "Log error",
        11 => "Natural logarithm error",
        12 => "Invalid operator for tangent",
        13 => "Invalid trigonometric operator",
        _ => "Unknown error",
    }
}

/// The same lookup under its shorter name.
pub fn get_error_str(error_code: i32) -> (message: &'static str)
    ensures
        message@ == error_text(error_code as int),
{
    get_error_message(error_code)
}

} // verus!
