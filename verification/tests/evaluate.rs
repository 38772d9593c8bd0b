//! End-to-end tests: tokenize a source string, parse it with the library, and
//! fold the resulting tree into a 64-bit float.
//!
//! The library carries constants opaquely as 64-bit payloads, so these tests
//! store IEEE-754 bit patterns in the tokens and decode them after parsing.
//! The tokenizer and the floating-point fold below are test scaffolding that
//! mirrors what a caller of the library does around `parse_expression`.

use calculator::parser::{parse_expression, AstNode, BinaryOperatorKind, UnaryOperatorKind};
use calculator::token::{Operator, Token};

fn lex(source: &str) -> Vec<Token> {
    let bytes = source.as_bytes();
    let mut tokens = Vec::new();
    let mut i = 0;
    while i < bytes.len() {
        let c = bytes[i] as char;
        if c.is_ascii_whitespace() {
            i += 1;
            continue;
        }
        if c.is_ascii_digit() {
            let start = i;
            while i < bytes.len() && (bytes[i] as char).is_ascii_digit() {
                i += 1;
            }
            let value: f64 = source[start..i].parse().unwrap();
            tokens.push(Token::Constant(value.to_bits()));
            continue;
        }
        let token = match c {
            '+' => Token::Operator(Operator::Plus),
            '-' => Token::Operator(Operator::Minus),
            '*' => Token::Operator(Operator::Times),
            '/' => Token::Operator(Operator::Divide),
            '^' => Token::Operator(Operator::Exponent),
            '(' => Token::OpenParen,
            ')' => Token::CloseParen,
            _ => panic!("unexpected character in test input: {}", c),
        };
        tokens.push(token);
        i += 1;
    }
    tokens
}

fn evaluate(ast: &AstNode) -> f64 {
    match ast {
        AstNode::Constant { value } => f64::from_bits(*value),
        AstNode::BinaryOperator { kind, left, right } => {
            let l = evaluate(left);
            let r = evaluate(right);
            match kind {
                BinaryOperatorKind::Plus => l + r,
                BinaryOperatorKind::Minus => l - r,
                BinaryOperatorKind::Times => l * r,
                BinaryOperatorKind::Divide => l / r,
                BinaryOperatorKind::Exponent => l.powf(r),
            }
        }
        AstNode::UnaryOperator { kind, value } => match kind {
            UnaryOperatorKind::Plus => evaluate(value),
            UnaryOperatorKind::Minus => -evaluate(value),
        },
    }
}

fn check(source: &'static str, expected: f64) {
    let ast = parse_expression(&lex(source)).unwrap();
    let result = evaluate(&ast);

    assert_eq!(result, expected);
}

#[test]
fn test_evaluate() {
    // basic suite
    check("1", 1.0);
    check("2 + 3", 5.0);
    check("(3 + 4)", 7.0);
    check("((4 + 3))", 7.0);
    check("3 * 3 * 3", 27.0);

    // communicativity
    check("1 + 2 * 3", 7.0);
    check("2 * 3 + 1", 7.0);

    // parens
    check("(1 + 2) * 3", 9.0);
    check("3 * (1 + 2)", 9.0);

    // subtraction
    check("5 - 3", 2.0);
    check("3 - 5", -2.0);

    // division
    check("10 / 5", 2.0);
    check("2 * 4 / 2", 4.0);

    // exponents
    check("2 ^ 3", 8.0);
    check("2 ^ (1 + 1 + 1)", 8.0);

    // exponent associativity
    check("3 * 2^2", 12.0);
    check("2^3^2", 512.0);

    // unary operators
    check("-3", -3.0);
    check("+3", 3.0);
    check("--3", 3.0);
    check("5 * -3", -15.0);
    check("10 / -1 * -2", 20.0);
}

#[test]
fn precedence_scenarios() {
    check("1 + 2 * 3", 7.0);
    check("2 * 3 + 1", 7.0);
}

#[test]
fn parenthesization_scenarios() {
    check("(1 + 2) * 3", 9.0);
    check("((4 + 3))", 7.0);
    assert_eq!(parse_expression(&lex("((4 + 3)))")), None);
}

#[test]
fn left_associativity_scenarios() {
    check("10 / 5 / 2", 1.0);
    check("5 - 3 - 1", 1.0);
}

#[test]
fn right_associativity_scenario() {
    check("2 ^ 3 ^ 2", 512.0);
}

#[test]
fn unary_disambiguation_scenarios() {
    check("--3", 3.0);
    check("5 * -3", -15.0);
    check("10 / -1 * -2", 20.0);
}

#[test]
fn failure_scenarios() {
    assert_eq!(parse_expression(&Vec::new()), None);
    assert_eq!(parse_expression(&lex("(1+2")), None);
    assert_eq!(parse_expression(&lex("1+2)")), None);
    assert_eq!(parse_expression(&lex("1 2")), None);
}

#[test]
fn scenario_table() {
    check("3 * 2^2", 12.0);
    check("2 ^ (1 + 1 + 1)", 8.0);
    check("+3", 3.0);
    check("5 - 3 - 5", -3.0);
}

#[test]
fn division_by_zero_is_not_a_failure() {
    // Division by zero follows IEEE-754: the fold yields infinity, never an
    // error or a panic.
    let ast = parse_expression(&lex("1 / 0")).unwrap();
    assert_eq!(evaluate(&ast), f64::INFINITY);
}
