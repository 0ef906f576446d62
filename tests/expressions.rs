use shunting_yard::error::ExprError;
use shunting_yard::fused::sy_evaulate;
use shunting_yard::rpn::evaluate_rpn;
use shunting_yard::shunting::infix_to_rpn;
use shunting_yard::tokenizer::{tokenize, Tokenizer, Tokens};

#[test]
fn parse_rpn_with_digits() {
    assert_eq!(evaluate_rpn("1 2 +".to_string()), Ok(3));
}

#[test]
fn parse_rpn_with_numbers() {
    assert_eq!(evaluate_rpn("11 22 +".to_string()), Ok(33));
}

#[test]
fn parse_faulty_rpn() {
    assert_eq!(evaluate_rpn("11 + 22".to_string()), Err(ExprError::StackUnderflow));
}

#[test]
fn test_infix_to_postfix() {
    assert_eq!(infix_to_rpn("1 + 2 * 3 - 4".to_string()), Ok("1 2 3 * + 4 -".to_string()));
}

#[test]
fn test_sy_evaluator() {
    assert_eq!(sy_evaulate("1 + 2 * 3 - 4".to_string()), Ok(3));
}

#[test]
fn test_tokenizer() {
    let tokens: Vec<Tokens> = vec![
        Tokens::Number(1),
        Tokens::Plus,
        Tokens::Number(2),
        Tokens::Asterisk,
        Tokens::Number(3),
        Tokens::Minus,
        Tokens::Number(4),
    ];

    let resulting_tokens = Tokenizer::new("1 + 2 * 3 - 4".to_string()).unwrap().tokens;

    assert_eq!(tokens.len(), resulting_tokens.len());
    for (token1, token2) in tokens.iter().zip(resulting_tokens.iter()) {
        if token1 != token2 {
            assert!(false);
        }
    }
}

#[test]
fn power_is_right_associative() {
    assert_eq!(sy_evaulate("2 ^ 3 ^ 2".to_string()), Ok(512));
    assert_eq!(infix_to_rpn("2 ^ 3 ^ 2".to_string()), Ok("2 3 2 ^ ^".to_string()));
}

#[test]
fn caret_is_xor_in_postfix() {
    assert_eq!(evaluate_rpn("6 3 ^".to_string()), Ok(5));
}

#[test]
fn subtraction_and_division_keep_operand_order() {
    assert_eq!(evaluate_rpn("10 4 -".to_string()), Ok(6));
    assert_eq!(evaluate_rpn("20 5 /".to_string()), Ok(4));
    assert_eq!(sy_evaulate("20 / 5 - 1".to_string()), Ok(3));
}

#[test]
fn parentheses_group_first() {
    assert_eq!(infix_to_rpn("(1 + 2) * 3".to_string()), Ok("1 2 + 3 *".to_string()));
    assert_eq!(sy_evaulate("(1 + 2) * 3".to_string()), Ok(9));
}

#[test]
fn multi_digit_operands_in_infix() {
    assert_eq!(infix_to_rpn("12 + 345".to_string()), Ok("12 345 +".to_string()));
    assert_eq!(sy_evaulate("12 + 345".to_string()), Ok(357));
}

#[test]
fn converted_text_evaluates_like_fused() {
    let e = "7 * (8 - 3) / 5 + 100";
    let rpn = infix_to_rpn(e.to_string()).unwrap();
    assert_eq!(evaluate_rpn(rpn), sy_evaulate(e.to_string()));
    assert_eq!(sy_evaulate(e.to_string()), Ok(107));
}

#[test]
fn unmatched_left_paren_is_unbalanced() {
    assert_eq!(infix_to_rpn("(1 + 2".to_string()), Err(ExprError::UnbalancedParentheses));
    assert_eq!(sy_evaulate("(1 + 2".to_string()), Err(ExprError::UnbalancedParentheses));
}

#[test]
fn unmatched_right_paren_underflows() {
    assert_eq!(infix_to_rpn("1 + 2)".to_string()), Err(ExprError::StackUnderflow));
    assert_eq!(sy_evaulate("1 + 2)".to_string()), Err(ExprError::StackUnderflow));
}

#[test]
fn unexpected_character_is_reported() {
    assert_eq!(tokenize("1 + x"), Err(ExprError::UnexpectedCharacter('x')));
    assert_eq!(evaluate_rpn("1\t2 +".to_string()), Err(ExprError::UnexpectedCharacter('\t')));
}

#[test]
fn numbers_beyond_u32_overflow() {
    assert_eq!(tokenize("4294967295"), Ok(vec![Tokens::Number(4294967295)]));
    assert_eq!(tokenize("4294967296 + 1"), Err(ExprError::NumericOverflow));
}

#[test]
fn arithmetic_out_of_range_fails() {
    assert_eq!(evaluate_rpn("4294967295 1 +".to_string()), Err(ExprError::ArithmeticOverflow));
    assert_eq!(evaluate_rpn("1 2 -".to_string()), Err(ExprError::ArithmeticOverflow));
    assert_eq!(sy_evaulate("2 ^ 32".to_string()), Err(ExprError::ArithmeticOverflow));
    assert_eq!(sy_evaulate("2 ^ 31".to_string()), Ok(2147483648));
    assert_eq!(sy_evaulate("1 ^ 4000000000".to_string()), Ok(1));
    assert_eq!(sy_evaulate("0 ^ 0".to_string()), Ok(1));
}

#[test]
fn division_by_zero_fails() {
    assert_eq!(evaluate_rpn("1 0 /".to_string()), Err(ExprError::DivisionByZero));
    assert_eq!(sy_evaulate("1 / 0".to_string()), Err(ExprError::DivisionByZero));
}

#[test]
fn final_stack_must_hold_one_value() {
    assert_eq!(evaluate_rpn("".to_string()), Err(ExprError::StackUnderflow));
    assert_eq!(evaluate_rpn("1 2".to_string()), Err(ExprError::LeftoverOperands));
    assert_eq!(sy_evaulate("1 2".to_string()), Err(ExprError::LeftoverOperands));
}

#[test]
fn parenthesis_in_postfix_is_unsupported() {
    assert_eq!(evaluate_rpn("1 2 (".to_string()), Err(ExprError::UnsupportedOperator));
}

#[test]
fn tokenizer_keeps_input_and_lists_tokens() {
    let t = Tokenizer::new("(3^4)".to_string()).unwrap();
    assert_eq!(t.raw_input, "(3^4)");
    assert_eq!(
        t.iter().to_vec(),
        vec![Tokens::ParenLeft, Tokens::Number(3), Tokens::Caret, Tokens::Number(4), Tokens::ParenRight]
    );
    let d = Tokenizer::default();
    assert!(d.tokens.is_empty());
    assert!(d.raw_input.is_empty());
}

#[test]
fn converted_text_evaluates_by_precedence_and_left_grouping() {
    let rpn = infix_to_rpn("8 - 3 - 2 * 2 / 4".to_string()).unwrap();
    assert_eq!(rpn, "8 3 - 2 2 * 4 / -");
    assert_eq!(evaluate_rpn(rpn), Ok(4));
    let rpn = infix_to_rpn("100 / (2 + 3) * 4".to_string()).unwrap();
    assert_eq!(evaluate_rpn(rpn), Ok(80));
}

#[test]
fn crate_root_reexports_entry_points() {
    assert_eq!(shunting_yard::sy_evaulate("(2 + 3) ^ 2".to_string()), Ok(25));
    assert_eq!(shunting_yard::evaluate_rpn("2 3 + 2 ^".to_string()), Ok(7));
}
