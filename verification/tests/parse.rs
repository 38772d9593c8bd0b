//! Structural tests of the parser: exact trees, determinism, and failures.

use calculator::parser::{
    parse_expression, AstNode, BinaryOperatorKind, ShuntOperator, ShuntingState,
    UnaryOperatorKind,
};
use calculator::token::{Operator, Token};

fn con(v: u64) -> Token {
    Token::Constant(v)
}

fn sym(o: Operator) -> Token {
    Token::Operator(o)
}

fn leaf(v: u64) -> AstNode {
    AstNode::Constant { value: v }
}

fn binary(kind: BinaryOperatorKind, left: AstNode, right: AstNode) -> AstNode {
    AstNode::BinaryOperator { kind, left: Box::new(left), right: Box::new(right) }
}

fn unary(kind: UnaryOperatorKind, value: AstNode) -> AstNode {
    AstNode::UnaryOperator { kind, value: Box::new(value) }
}

#[test]
fn parses_single_constant() {
    let tokens = vec![con(42)];
    assert_eq!(parse_expression(&tokens), Some(leaf(42)));
}

#[test]
fn precedence_groups_tighter_operator_first() {
    // 1 + 2 * 3 parses as 1 + (2 * 3)
    let tokens = vec![con(1), sym(Operator::Plus), con(2), sym(Operator::Times), con(3)];
    let expected = binary(
        BinaryOperatorKind::Plus,
        leaf(1),
        binary(BinaryOperatorKind::Times, leaf(2), leaf(3)),
    );
    assert_eq!(parse_expression(&tokens), Some(expected));

    // 2 * 3 + 1 parses as (2 * 3) + 1
    let tokens = vec![con(2), sym(Operator::Times), con(3), sym(Operator::Plus), con(1)];
    let expected = binary(
        BinaryOperatorKind::Plus,
        binary(BinaryOperatorKind::Times, leaf(2), leaf(3)),
        leaf(1),
    );
    assert_eq!(parse_expression(&tokens), Some(expected));
}

#[test]
fn subtraction_chain_groups_left() {
    // 5 - 3 - 1 parses as (5 - 3) - 1
    let tokens = vec![con(5), sym(Operator::Minus), con(3), sym(Operator::Minus), con(1)];
    let expected = binary(
        BinaryOperatorKind::Minus,
        binary(BinaryOperatorKind::Minus, leaf(5), leaf(3)),
        leaf(1),
    );
    assert_eq!(parse_expression(&tokens), Some(expected));
}

#[test]
fn exponent_chain_groups_right() {
    // 2 ^ 3 ^ 2 parses as 2 ^ (3 ^ 2)
    let tokens = vec![con(2), sym(Operator::Exponent), con(3), sym(Operator::Exponent), con(2)];
    let expected = binary(
        BinaryOperatorKind::Exponent,
        leaf(2),
        binary(BinaryOperatorKind::Exponent, leaf(3), leaf(2)),
    );
    assert_eq!(parse_expression(&tokens), Some(expected));
}

#[test]
fn parentheses_override_precedence() {
    // (1 + 2) * 3
    let tokens = vec![
        Token::OpenParen,
        con(1),
        sym(Operator::Plus),
        con(2),
        Token::CloseParen,
        sym(Operator::Times),
        con(3),
    ];
    let expected = binary(
        BinaryOperatorKind::Times,
        binary(BinaryOperatorKind::Plus, leaf(1), leaf(2)),
        leaf(3),
    );
    assert_eq!(parse_expression(&tokens), Some(expected));
}

#[test]
fn stacked_signs_nest() {
    // - - 3 parses as -(-(3))
    let tokens = vec![sym(Operator::Minus), sym(Operator::Minus), con(3)];
    let expected = unary(
        UnaryOperatorKind::Minus,
        unary(UnaryOperatorKind::Minus, leaf(3)),
    );
    assert_eq!(parse_expression(&tokens), Some(expected));
}

#[test]
fn sign_after_operator_is_unary() {
    // 5 * - 3 parses as 5 * (-3)
    let tokens = vec![con(5), sym(Operator::Times), sym(Operator::Minus), con(3)];
    let expected = binary(
        BinaryOperatorKind::Times,
        leaf(5),
        unary(UnaryOperatorKind::Minus, leaf(3)),
    );
    assert_eq!(parse_expression(&tokens), Some(expected));
}

#[test]
fn sign_after_open_paren_is_unary() {
    // ( - 3 )
    let tokens = vec![Token::OpenParen, sym(Operator::Minus), con(3), Token::CloseParen];
    let expected = unary(UnaryOperatorKind::Minus, leaf(3));
    assert_eq!(parse_expression(&tokens), Some(expected));
}

#[test]
fn redundant_outer_parens_change_nothing() {
    // ((4 + 3)) parses to the same tree as 4 + 3.
    let bare = vec![con(4), sym(Operator::Plus), con(3)];
    let mut wrapped = vec![Token::OpenParen, Token::OpenParen];
    wrapped.extend(bare.iter().copied());
    wrapped.push(Token::CloseParen);
    wrapped.push(Token::CloseParen);
    let expected = binary(BinaryOperatorKind::Plus, leaf(4), leaf(3));
    assert_eq!(parse_expression(&bare), Some(expected));
    assert_eq!(parse_expression(&bare), parse_expression(&wrapped));
}

#[test]
fn reparse_is_identical() {
    // Parsing the same token sequence twice yields structurally equal trees.
    let tokens = vec![
        con(1),
        sym(Operator::Plus),
        con(2),
        sym(Operator::Times),
        Token::OpenParen,
        sym(Operator::Minus),
        con(3),
        Token::CloseParen,
    ];
    let first = parse_expression(&tokens);
    let second = parse_expression(&tokens);
    assert!(first.is_some());
    assert_eq!(first, second);
}

#[test]
fn empty_input_fails() {
    let tokens: Vec<Token> = vec![];
    assert_eq!(parse_expression(&tokens), None);
}

#[test]
fn unmatched_open_paren_fails() {
    // (1 + 2
    let tokens = vec![Token::OpenParen, con(1), sym(Operator::Plus), con(2)];
    assert_eq!(parse_expression(&tokens), None);
}

#[test]
fn unmatched_close_paren_fails() {
    // 1 + 2)
    let tokens = vec![con(1), sym(Operator::Plus), con(2), Token::CloseParen];
    assert_eq!(parse_expression(&tokens), None);
}

#[test]
fn stray_close_paren_fails() {
    let tokens = vec![Token::CloseParen];
    assert_eq!(parse_expression(&tokens), None);
}

#[test]
fn adjacent_constants_fail() {
    // 1 2
    let tokens = vec![con(1), con(2)];
    assert_eq!(parse_expression(&tokens), None);
}

#[test]
fn trailing_operator_fails() {
    // 1 +
    let tokens = vec![con(1), sym(Operator::Plus)];
    assert_eq!(parse_expression(&tokens), None);
}

#[test]
fn lone_operator_fails() {
    let tokens = vec![sym(Operator::Times)];
    assert_eq!(parse_expression(&tokens), None);
}

#[test]
fn empty_parentheses_fail() {
    let tokens = vec![Token::OpenParen, Token::CloseParen];
    assert_eq!(parse_expression(&tokens), None);
}

#[test]
fn shunt_operator_precedences() {
    assert_eq!(ShuntOperator::Plus.precedence(), 1);
    assert_eq!(ShuntOperator::Minus.precedence(), 1);
    assert_eq!(ShuntOperator::Times.precedence(), 2);
    assert_eq!(ShuntOperator::Divide.precedence(), 2);
    assert_eq!(ShuntOperator::Exponent.precedence(), 3);
    assert_eq!(ShuntOperator::UnaryPlus.precedence(), 254);
    assert_eq!(ShuntOperator::UnaryMinus.precedence(), 254);
    assert_eq!(ShuntOperator::OpenParen.precedence(), 0);
}

#[test]
fn shunt_operator_roles() {
    assert!(ShuntOperator::UnaryPlus.is_unary());
    assert!(ShuntOperator::UnaryMinus.is_unary());
    assert!(!ShuntOperator::Plus.is_unary());
    assert!(!ShuntOperator::OpenParen.is_unary());

    assert!(ShuntOperator::Plus.is_left_associative());
    assert!(ShuntOperator::Divide.is_left_associative());
    assert!(!ShuntOperator::Exponent.is_left_associative());
}

#[test]
fn shunt_operator_conversions() {
    assert_eq!(
        ShuntOperator::from_lex_operator(&Operator::Exponent),
        ShuntOperator::Exponent
    );
    assert_eq!(
        ShuntOperator::Times.to_binary_operator(),
        Some(BinaryOperatorKind::Times)
    );
    assert_eq!(ShuntOperator::UnaryMinus.to_binary_operator(), None);
    assert_eq!(ShuntOperator::OpenParen.to_binary_operator(), None);
    assert_eq!(
        ShuntOperator::UnaryMinus.to_unary_operator(),
        Some(UnaryOperatorKind::Minus)
    );
    assert_eq!(ShuntOperator::Plus.to_unary_operator(), None);
}

#[test]
fn shunting_state_reduces_binary_operator() {
    let mut state = ShuntingState::new();
    assert!(state.operator_stack.is_empty());
    assert!(state.operand_stack.is_empty());
    assert!(state.last_was_operator);

    state.operand_stack.push(leaf(1));
    state.operand_stack.push(leaf(2));
    state.operator_stack.push(ShuntOperator::Plus);
    assert!(state.clear_one_operator());
    assert!(state.operator_stack.is_empty());
    assert_eq!(
        state.operand_stack,
        vec![binary(BinaryOperatorKind::Plus, leaf(1), leaf(2))]
    );
}

#[test]
fn shunting_state_reduces_unary_operator() {
    let mut state = ShuntingState::new();
    state.operand_stack.push(leaf(7));
    state.operator_stack.push(ShuntOperator::UnaryMinus);
    assert!(state.clear_one_operator());
    assert_eq!(
        state.operand_stack,
        vec![unary(UnaryOperatorKind::Minus, leaf(7))]
    );
}

#[test]
fn shunting_state_refuses_impossible_reductions() {
    // No operator at all.
    let mut state = ShuntingState::new();
    assert!(!state.clear_one_operator());

    // A binary operator with a single operand.
    state.operator_stack.push(ShuntOperator::Times);
    state.operand_stack.push(leaf(1));
    assert!(!state.clear_one_operator());
    assert_eq!(state.operator_stack, vec![ShuntOperator::Times]);
    assert_eq!(state.operand_stack, vec![leaf(1)]);

    // An open-parenthesis marker never reduces.
    let mut state = ShuntingState::new();
    state.operator_stack.push(ShuntOperator::OpenParen);
    state.operand_stack.push(leaf(1));
    state.operand_stack.push(leaf(2));
    assert!(!state.clear_one_operator());

    // A unary operator with no operand.
    let mut state = ShuntingState::new();
    state.operator_stack.push(ShuntOperator::UnaryMinus);
    assert!(!state.clear_one_operator());
}
