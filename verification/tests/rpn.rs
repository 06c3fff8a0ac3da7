//! Precedence, associativity and the conversion to postfix order.

use calculator_backend::{
    get_precedence, infix_to_rpn, is_prefix_unary, is_right_associative, shunting_yard, tokenize,
    History, Number, ReversePolish, Token, TokenType,
};

fn rpn(input: &str) -> String {
    infix_to_rpn(input, &History::new()).unwrap().to_string()
}

fn token(value: &str, kind: TokenType) -> Token {
    Token { token_value: value.to_string(), token_type: kind }
}

#[test]
fn precedence_table() {
    assert_eq!(get_precedence("+"), 1);
    assert_eq!(get_precedence("-"), 1);
    assert_eq!(get_precedence("*"), 2);
    assert_eq!(get_precedence("/"), 2);
    assert_eq!(get_precedence("^"), 3);
    for op in ["!", "√", "sqrt", "log", "ln"] {
        assert_eq!(get_precedence(op), 4, "{}", op);
    }
    for op in ["sin", "cos", "tan", "arctan", "arcsin", "arccos"] {
        assert_eq!(get_precedence(op), 5, "{}", op);
    }
}

#[test]
fn what_is_no_operator_has_precedence_zero() {
    for op in ["", "(", ")", "x", "1", "++", "SIN", "sinh", " +", "%"] {
        assert_eq!(get_precedence(op), 0, "{:?}", op);
    }
}

#[test]
fn power_and_factorial_group_from_the_right() {
    assert!(is_right_associative("^"));
    assert!(is_right_associative("!"));
    for op in ["+", "-", "*", "/", "sqrt", "sin", "", "^^"] {
        assert!(!is_right_associative(op), "{:?}", op);
    }
}

#[test]
fn sqrt_is_the_prefix_operator() {
    assert!(is_prefix_unary("sqrt"));
    for op in ["√", "sin", "log", "!", "", "SQRT"] {
        assert!(!is_prefix_unary(op), "{:?}", op);
    }
}

#[test]
fn operands_keep_their_order() {
    assert_eq!(rpn("1"), "1");
    assert_eq!(rpn("1 + 2"), "1 2 +");
    assert_eq!(rpn("1 2 3"), "1 2 3");
}

#[test]
fn tighter_operators_come_first() {
    assert_eq!(rpn("1 + 2 * 3"), "1 2 3 * +");
    assert_eq!(rpn("1 * 2 + 3"), "1 2 * 3 +");
    assert_eq!(rpn("1 + 2 * 3 ^ 4 / 5 - 6"), "1 2 3 4 ^ * 5 / + 6 -");
}

#[test]
fn equal_operators_group_from_the_left() {
    assert_eq!(rpn("1 - 2 - 3"), "1 2 - 3 -");
    assert_eq!(rpn("8 / 4 / 2"), "8 4 / 2 /");
    assert_eq!(rpn("1 - 2 + 3"), "1 2 - 3 +");
    assert_eq!(rpn("3 * 4 / 2"), "3 4 * 2 /");
}

#[test]
fn powers_group_from_the_right() {
    assert_eq!(rpn("2 ^ 3 ^ 2"), "2 3 2 ^ ^");
    assert_eq!(rpn("2 ^ 3 ^ 2 ^ 1"), "2 3 2 1 ^ ^ ^");
}

#[test]
fn brackets_group() {
    assert_eq!(rpn("(1 + 2) * 3"), "1 2 + 3 *");
    assert_eq!(rpn("(1 + 2) * (3 + 4)"), "1 2 + 3 4 + *");
    assert_eq!(rpn("(((((1 + 2) * 3) + 4) * 5) / 6)"), "1 2 + 3 * 4 + 5 * 6 /");
    assert_eq!(rpn("((1))"), "1");
}

#[test]
fn sqrt_follows_its_operand() {
    assert_eq!(rpn("sqrt 16"), "16 sqrt");
    assert_eq!(rpn("√ 16 + 4"), "16 sqrt 4 +");
    assert_eq!(rpn("2 * √ 9"), "2 9 sqrt *");
    assert_eq!(rpn("sqrt x"), "x sqrt");
    assert_eq!(rpn("sqrt(5)"), "5 sqrt");
    assert_eq!(rpn("sqrt sqrt 16"), "16 sqrt sqrt");
}

#[test]
fn sqrt_without_an_operand_waits_like_any_operator() {
    assert_eq!(rpn("√"), "sqrt");
    assert_eq!(rpn("√ + 5"), "sqrt 5 +");
}

#[test]
fn factorial_follows_its_operand() {
    assert_eq!(rpn("5 !"), "5 !");
    assert_eq!(rpn("5! + 2"), "5 ! 2 +");
    assert_eq!(rpn("5 ! +"), "5 ! +");
    assert_eq!(rpn("2 * 3!"), "2 3 ! *");
}

#[test]
fn named_operators_go_after_their_bracket() {
    assert_eq!(rpn("sin(pi / 2)"), "pi 2 / sin");
    assert_eq!(rpn("sin(0) + 5"), "0 sin 5 +");
    assert_eq!(rpn("sin(pi / 2) + cos(0) * tan(0)"), "pi 2 / sin 0 cos 0 tan * +");
    assert_eq!(rpn("log(10) * ln(2)"), "10 log 2 ln *");
}

#[test]
fn signed_numbers_are_operands() {
    assert_eq!(rpn("-1 + 2"), "-1 2 +");
    assert_eq!(rpn("-3 * -4"), "-3 -4 *");
    assert_eq!(rpn("(-1 + 2) * -3"), "-1 2 + -3 *");
    assert_eq!(rpn("-1 - -2 - -3"), "-1 -2 - -3 -");
    assert_eq!(rpn("(1 + 2) - 3"), "1 2 + 3 -");
    assert_eq!(rpn("(1 + 2)-3"), "1 2 + 3 -");
}

#[test]
fn an_opening_bracket_without_its_match_comes_out_as_a_word() {
    assert_eq!(rpn("(1 + 2"), "1 2 + (");
    assert_eq!(rpn("((1"), "1 ( (");
}

#[test]
fn a_closing_bracket_without_its_match_empties_the_stack() {
    assert_eq!(rpn("1 + 2)"), "1 2 +");
    assert_eq!(rpn("1 + 2) * 3"), "1 2 + 3 *");
    assert_eq!(rpn(")"), "");
    assert_eq!(rpn("1 * 2 + 3) ^ 4"), "1 2 * 3 + 4 ^");
}

#[test]
fn empty_input_gives_an_empty_expression() {
    let converted = infix_to_rpn("", &History::new()).unwrap();
    assert!(converted.rp_expression.is_empty());
    assert_eq!(converted.to_string(), "");
}

#[test]
fn infix_to_rpn_never_fails() {
    for input in ["", "(", ")", "+", "1 +", "$$$", "1 2 3", "sin", "√√", "-.", "((((", "))))"] {
        assert!(infix_to_rpn(input, &History::new()).is_ok(), "{:?}", input);
    }
}

#[test]
fn ans_is_read_when_the_expression_is_converted() {
    let mut history = History::new();
    assert_eq!(infix_to_rpn("ans + 5", &history).unwrap().to_string(), "0 5 +");
    history.add_entry("5 + 5".to_string(), Number::new("10".to_string()), None);
    assert_eq!(infix_to_rpn("ans + 5", &history).unwrap().to_string(), "10 5 +");
}

#[test]
fn case_does_not_matter() {
    assert_eq!(rpn("SIN(PI/2) + LOG(10)"), rpn("sin(pi/2) + log(10)"));
    assert_eq!(rpn("SIN(PI/2) + LOG(10)"), "pi 2 / sin 10 log +");
}

#[test]
fn infix_to_rpn_is_the_lexer_and_then_the_yard() {
    for input in ["1 + 2 * 3", "(-1 + 2) * -3", "√ 36 + 5! / 2", "2 ^ 3 ^ 2", "1 + 2)"] {
        let history = History::new();
        let direct = infix_to_rpn(input, &history).unwrap();
        let by_hand = shunting_yard(tokenize(input, &history));
        assert_eq!(direct.rp_expression, by_hand.rp_expression);
    }
}

#[test]
fn shunting_yard_on_tokens_written_by_hand() {
    let tokens = vec![
        token("2", TokenType::Operand),
        token("^", TokenType::Operator),
        token("3", TokenType::Operand),
        token("^", TokenType::Operator),
        token("2", TokenType::Operand),
    ];
    assert_eq!(shunting_yard(tokens).rp_expression, vec!["2", "3", "2", "^", "^"]);
}

#[test]
fn shunting_yard_leaves_function_tokens_out() {
    let tokens = vec![
        token("f", TokenType::Function),
        token("1", TokenType::Operand),
        token("+", TokenType::Operator),
        token("g", TokenType::Function),
        token("x", TokenType::Variable),
    ];
    assert_eq!(shunting_yard(tokens).rp_expression, vec!["1", "x", "+"]);
}

#[test]
fn shunting_yard_takes_any_other_bracket_for_a_closing_one() {
    let tokens = vec![
        token("(", TokenType::Bracket),
        token("1", TokenType::Operand),
        token("+", TokenType::Operator),
        token("2", TokenType::Operand),
        token("]", TokenType::Bracket),
        token("*", TokenType::Operator),
        token("3", TokenType::Operand),
    ];
    assert_eq!(shunting_yard(tokens).rp_expression, vec!["1", "2", "+", "3", "*"]);
}

#[test]
fn unknown_operators_bind_loosest() {
    let tokens = vec![
        token("1", TokenType::Operand),
        token("+", TokenType::Operator),
        token("2", TokenType::Operand),
        token("%", TokenType::Operator),
        token("3", TokenType::Operand),
    ];
    assert_eq!(shunting_yard(tokens).rp_expression, vec!["1", "2", "+", "3", "%"]);
}

#[test]
fn to_string_puts_one_space_between_words() {
    let words = |w: &[&str]| ReversePolish { rp_expression: w.iter().map(|s| s.to_string()).collect() };
    assert_eq!(words(&[]).to_string(), "");
    assert_eq!(words(&["1"]).to_string(), "1");
    assert_eq!(words(&["1", "2", "+"]).to_string(), "1 2 +");
    assert_eq!(words(&["", ""]).to_string(), " ");
}

#[test]
fn to_c_expr_closes_each_word_with_a_zero_byte() {
    let rpn = ReversePolish {
        rp_expression: vec!["12".to_string(), "é".to_string(), "+".to_string(), "".to_string()],
    };
    let payload = rpn.to_c_expr().unwrap();
    assert_eq!(
        payload,
        vec![vec![b'1', b'2', 0], vec![0xc3, 0xa9, 0], vec![b'+', 0], vec![0]]
    );
}

#[test]
fn to_c_expr_of_nothing_is_nothing() {
    let rpn = ReversePolish { rp_expression: vec![] };
    assert_eq!(rpn.to_c_expr().unwrap(), Vec::<Vec<u8>>::new());
}

#[test]
fn to_c_expr_refuses_a_zero_byte() {
    for words in [vec!["1", "a\0b"], vec!["\0"], vec!["1", "2", "+\0"]] {
        let rpn = ReversePolish { rp_expression: words.iter().map(|s| s.to_string()).collect() };
        assert_eq!(rpn.to_c_expr().unwrap_err(), "Failed to convert expression to CString");
    }
}

#[test]
fn operands_come_out_in_their_order() {
    let inputs = [
        "1 + 2 * 3 ^ 4 / 5 - 6",
        "(7 + 8) * (9 - 10) / sqrt 11",
        "sin(12) + cos(13) * tan(14)",
        "a * (b + c) ^ d - e!",
        "15 + 16) * 17",
        "((18 + 19",
    ];
    for input in inputs {
        let history = History::new();
        let went_in: Vec<String> = tokenize(input, &history)
            .into_iter()
            .filter(|t| matches!(t.token_type, TokenType::Operand | TokenType::Variable))
            .map(|t| t.token_value)
            .collect();
        let operators = ["+", "-", "*", "/", "^", "!", "sqrt", "sin", "cos", "tan", "("];
        let came_out: Vec<String> = infix_to_rpn(input, &history)
            .unwrap()
            .rp_expression
            .into_iter()
            .filter(|w| !operators.contains(&w.as_str()))
            .collect();
        assert_eq!(came_out, went_in, "{}", input);
    }
}

#[test]
fn every_operand_and_operator_comes_out_once() {
    let inputs = ["1 + 2 * 3 ^ 4 / 5 - 6", "(1 + 1) * (1 + 1)", "√ 4 + sqrt(4) ! - -4", "1 + 2) * 3"];
    for input in inputs {
        let history = History::new();
        let mut went_in: Vec<String> = tokenize(input, &history)
            .into_iter()
            .filter(|t| t.token_type != TokenType::Bracket)
            .map(|t| t.token_value)
            .collect();
        let mut came_out = infix_to_rpn(input, &history).unwrap().rp_expression;
        went_in.sort();
        came_out.sort();
        assert_eq!(came_out, went_in, "{}", input);
    }
}
