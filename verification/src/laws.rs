//! Laws of the parser, stated declaratively and proved against the model.
//!
//! [`crate::parser::parse_expression`] returns exactly
//! [`crate::parser::spec_parse`] of its input, so everything proved here about
//! the model holds of the executable parser. The laws pin down the grammar's
//! observable shape: precedence, associativity in both directions, grouping,
//! the unary reading of `+`/`-`, determinism, and the inputs that must fail.

use vstd::prelude::*;

use crate::parser::{
    initial_model, spec_drain, spec_is_unary, spec_parse, spec_reduce_for_binary,
    spec_reduce_group, spec_reduce_one, spec_resolve_operator, spec_run, spec_step, AstNode,
    BinaryOperatorKind, ParserModel, ShuntOperator, UnaryOperatorKind,
};
use crate::token::{Operator, Token};

verus! {

/// A constant token, written short.
pub open spec fn con(v: u64) -> Token {
    Token::Constant(v)
}

/// An operator token, written short.
pub open spec fn sym(o: Operator) -> Token {
    Token::Operator(o)
}

/// A leaf of the tree, written short.
pub open spec fn leaf(v: u64) -> AstNode {
    AstNode::Constant { value: v }
}

/// A binary node of the tree, written short.
pub open spec fn binary(kind: BinaryOperatorKind, left: AstNode, right: AstNode) -> AstNode {
    AstNode::BinaryOperator { kind, left: Box::new(left), right: Box::new(right) }
}

/// A unary node of the tree, written short.
pub open spec fn unary(kind: UnaryOperatorKind, value: AstNode) -> AstNode {
    AstNode::UnaryOperator { kind, value: Box::new(value) }
}

/// The tree-node kind a lexical operator builds in binary position.
pub open spec fn binary_kind(o: Operator) -> BinaryOperatorKind {
    match o {
        Operator::Plus => BinaryOperatorKind::Plus,
        Operator::Minus => BinaryOperatorKind::Minus,
        Operator::Times => BinaryOperatorKind::Times,
        Operator::Divide => BinaryOperatorKind::Divide,
        Operator::Exponent => BinaryOperatorKind::Exponent,
    }
}

/// Consuming one more token is one more step of the model.
proof fn lemma_run_push(s: Seq<Token>, t: Token)
    ensures
        spec_run(s) is None ==> spec_run(s.push(t)) is None,
        spec_run(s) matches Some(m) ==> spec_run(s.push(t)) == spec_step(m, t),
{
    assert(s.push(t).drop_last() =~= s);
    assert(s.push(t).last() == t);
}

/// An empty token sequence is a malformed expression: there is no operand to
/// return.
pub proof fn lemma_parse_empty_fails()
    ensures
        spec_parse(Seq::<Token>::empty()) is None,
{
}

/// A single constant parses to exactly that leaf.
pub proof fn lemma_parse_constant(a: u64)
    ensures
        spec_parse(seq![con(a)]) == Some(leaf(a)),
{
    lemma_run_push(Seq::<Token>::empty(), con(a));
    assert(Seq::<Token>::empty().push(con(a)) =~= seq![con(a)]);
}

/// Parsing is deterministic: the same token sequence always yields the same
/// result, structurally. There is no hidden state.
pub proof fn lemma_parse_deterministic(t1: Seq<Token>, t2: Seq<Token>)
    requires
        t1 == t2,
    ensures
        spec_parse(t1) == spec_parse(t2),
{
}

/// Chains of a left-associative operator group to the left: `a o b o c`
/// parses to the same tree as `(a o b) o c`, for every constant and every
/// operator symbol except exponentiation.
#[verifier::rlimit(50)]
pub proof fn lemma_parse_left_associative(a: u64, b: u64, c: u64, o: Operator)
    requires
        o != Operator::Exponent,
    ensures
        spec_parse(seq![con(a), sym(o), con(b), sym(o), con(c)]) == Some(
            binary(binary_kind(o), binary(binary_kind(o), leaf(a), leaf(b)), leaf(c)),
        ),
{
    reveal_with_fuel(spec_reduce_for_binary, 4);
    reveal_with_fuel(spec_drain, 4);
    let sop = crate::parser::spec_from_lex_operator(o);
    let k = binary_kind(o);
    let e = Seq::<Token>::empty();
    let t1 = e.push(con(a));
    let t2 = t1.push(sym(o));
    let t3 = t2.push(con(b));
    let t4 = t3.push(sym(o));
    let t5 = t4.push(con(c));
    lemma_run_push(e, con(a));
    let m1 = ParserModel {
        operator_stack: Seq::empty(),
        operand_stack: seq![leaf(a)],
        last_was_operator: false,
    };
    assert(spec_run(t1) is Some && spec_run(t1).unwrap() =~= m1);
    lemma_run_push(t1, sym(o));
    let m2 = ParserModel {
        operator_stack: seq![sop],
        operand_stack: seq![leaf(a)],
        last_was_operator: true,
    };
    assert(spec_run(t2) is Some && spec_run(t2).unwrap() =~= m2);
    lemma_run_push(t2, con(b));
    let m3 = ParserModel {
        operator_stack: seq![sop],
        operand_stack: seq![leaf(a), leaf(b)],
        last_was_operator: false,
    };
    assert(spec_run(t3) is Some && spec_run(t3).unwrap() =~= m3);
    lemma_run_push(t3, sym(o));
    let ab = binary(k, leaf(a), leaf(b));
    let m4 = ParserModel {
        operator_stack: seq![sop],
        operand_stack: seq![ab],
        last_was_operator: true,
    };
    assert(spec_reduce_for_binary(m3, crate::parser::spec_precedence(sop), true) is Some);
    assert(spec_run(t4) is Some && spec_run(t4).unwrap() =~= m4);
    lemma_run_push(t4, con(c));
    let m5 = ParserModel {
        operator_stack: seq![sop],
        operand_stack: seq![ab, leaf(c)],
        last_was_operator: false,
    };
    assert(spec_run(t5) is Some && spec_run(t5).unwrap() =~= m5);
    let m6 = ParserModel {
        operator_stack: Seq::empty(),
        operand_stack: seq![binary(k, ab, leaf(c))],
        last_was_operator: false,
    };
    assert(spec_drain(m5) is Some && spec_drain(m5).unwrap() =~= m6);
    assert(seq![con(a), sym(o), con(b), sym(o), con(c)] =~= t5);
}

/// A parenthesized pair binds first, whatever the two operators are:
/// `(a o1 b) o2 c` parses to the tree that applies `o2` to the group and `c`.
#[verifier::rlimit(50)]
pub proof fn lemma_parse_parenthesized(a: u64, b: u64, c: u64, o1: Operator, o2: Operator)
    ensures
        spec_parse(
            seq![
                Token::OpenParen,
                con(a),
                sym(o1),
                con(b),
                Token::CloseParen,
                sym(o2),
                con(c),
            ],
        ) == Some(binary(binary_kind(o2), binary(binary_kind(o1), leaf(a), leaf(b)), leaf(c))),
{
    reveal_with_fuel(spec_reduce_for_binary, 4);
    reveal_with_fuel(spec_reduce_group, 4);
    reveal_with_fuel(spec_drain, 4);
    let sop1 = crate::parser::spec_from_lex_operator(o1);
    let sop2 = crate::parser::spec_from_lex_operator(o2);
    let k1 = binary_kind(o1);
    let k2 = binary_kind(o2);
    let e = Seq::<Token>::empty();
    let t1 = e.push(Token::OpenParen);
    let t2 = t1.push(con(a));
    let t3 = t2.push(sym(o1));
    let t4 = t3.push(con(b));
    let t5 = t4.push(Token::CloseParen);
    let t6 = t5.push(sym(o2));
    let t7 = t6.push(con(c));
    lemma_run_push(e, Token::OpenParen);
    let m1 = ParserModel {
        operator_stack: seq![ShuntOperator::OpenParen],
        operand_stack: Seq::empty(),
        last_was_operator: true,
    };
    assert(spec_run(t1) is Some && spec_run(t1).unwrap() =~= m1);
    lemma_run_push(t1, con(a));
    let m2 = ParserModel {
        operator_stack: seq![ShuntOperator::OpenParen],
        operand_stack: seq![leaf(a)],
        last_was_operator: false,
    };
    assert(spec_run(t2) is Some && spec_run(t2).unwrap() =~= m2);
    lemma_run_push(t2, sym(o1));
    let m3 = ParserModel {
        operator_stack: seq![ShuntOperator::OpenParen, sop1],
        operand_stack: seq![leaf(a)],
        last_was_operator: true,
    };
    assert(spec_run(t3) is Some && spec_run(t3).unwrap() =~= m3);
    lemma_run_push(t3, con(b));
    let m4 = ParserModel {
        operator_stack: seq![ShuntOperator::OpenParen, sop1],
        operand_stack: seq![leaf(a), leaf(b)],
        last_was_operator: false,
    };
    assert(spec_run(t4) is Some && spec_run(t4).unwrap() =~= m4);
    lemma_run_push(t4, Token::CloseParen);
    let ab = binary(k1, leaf(a), leaf(b));
    let m5 = ParserModel {
        operator_stack: Seq::empty(),
        operand_stack: seq![ab],
        last_was_operator: false,
    };
    assert(spec_reduce_group(m4) is Some);
    assert(spec_run(t5) is Some && spec_run(t5).unwrap() =~= m5);
    lemma_run_push(t5, sym(o2));
    let m6 = ParserModel {
        operator_stack: seq![sop2],
        operand_stack: seq![ab],
        last_was_operator: true,
    };
    assert(spec_run(t6) is Some && spec_run(t6).unwrap() =~= m6);
    lemma_run_push(t6, con(c));
    let m7 = ParserModel {
        operator_stack: seq![sop2],
        operand_stack: seq![ab, leaf(c)],
        last_was_operator: false,
    };
    assert(spec_run(t7) is Some && spec_run(t7).unwrap() =~= m7);
    let m8 = ParserModel {
        operator_stack: Seq::empty(),
        operand_stack: seq![binary(k2, ab, leaf(c))],
        last_was_operator: false,
    };
    assert(spec_drain(m7) is Some && spec_drain(m7).unwrap() =~= m8);
    assert(seq![
        Token::OpenParen,
        con(a),
        sym(o1),
        con(b),
        Token::CloseParen,
        sym(o2),
        con(c),
    ] =~= t7);
}

/// For a left-associative operator, writing the parentheses that the grammar
/// already implies changes nothing: `a o b o c` and `(a o b) o c` parse to
/// the very same tree, so they evaluate identically.
pub proof fn lemma_parse_left_associative_matches_parenthesized(
    a: u64,
    b: u64,
    c: u64,
    o: Operator,
)
    requires
        o != Operator::Exponent,
    ensures
        spec_parse(seq![con(a), sym(o), con(b), sym(o), con(c)]) == spec_parse(
            seq![
                Token::OpenParen,
                con(a),
                sym(o),
                con(b),
                Token::CloseParen,
                sym(o),
                con(c),
            ],
        ),
{
    lemma_parse_left_associative(a, b, c, o);
    lemma_parse_parenthesized(a, b, c, o, o);
}

/// Exponentiation chains group to the right: `a ^ b ^ c` parses as
/// `a ^ (b ^ c)`, not `(a ^ b) ^ c`.
pub proof fn lemma_parse_exponent_right_associative(a: u64, b: u64, c: u64)
    ensures
        spec_parse(
            seq![
                con(a),
                sym(Operator::Exponent),
                con(b),
                sym(Operator::Exponent),
                con(c),
            ],
        ) == Some(
            binary(
                BinaryOperatorKind::Exponent,
                leaf(a),
                binary(BinaryOperatorKind::Exponent, leaf(b), leaf(c)),
            ),
        ),
{
    reveal_with_fuel(spec_reduce_for_binary, 4);
    reveal_with_fuel(spec_drain, 4);
    let e = Seq::<Token>::empty();
    let t1 = e.push(con(a));
    let t2 = t1.push(sym(Operator::Exponent));
    let t3 = t2.push(con(b));
    let t4 = t3.push(sym(Operator::Exponent));
    let t5 = t4.push(con(c));
    lemma_run_push(e, con(a));
    let m1 = ParserModel {
        operator_stack: Seq::empty(),
        operand_stack: seq![leaf(a)],
        last_was_operator: false,
    };
    assert(spec_run(t1) is Some && spec_run(t1).unwrap() =~= m1);
    lemma_run_push(t1, sym(Operator::Exponent));
    let m2 = ParserModel {
        operator_stack: seq![ShuntOperator::Exponent],
        operand_stack: seq![leaf(a)],
        last_was_operator: true,
    };
    assert(spec_run(t2) is Some && spec_run(t2).unwrap() =~= m2);
    lemma_run_push(t2, con(b));
    let m3 = ParserModel {
        operator_stack: seq![ShuntOperator::Exponent],
        operand_stack: seq![leaf(a), leaf(b)],
        last_was_operator: false,
    };
    assert(spec_run(t3) is Some && spec_run(t3).unwrap() =~= m3);
    lemma_run_push(t3, sym(Operator::Exponent));
    let m4 = ParserModel {
        operator_stack: seq![ShuntOperator::Exponent, ShuntOperator::Exponent],
        operand_stack: seq![leaf(a), leaf(b)],
        last_was_operator: true,
    };
    assert(spec_run(t4) is Some && spec_run(t4).unwrap() =~= m4);
    lemma_run_push(t4, con(c));
    let m5 = ParserModel {
        operator_stack: seq![ShuntOperator::Exponent, ShuntOperator::Exponent],
        operand_stack: seq![leaf(a), leaf(b), leaf(c)],
        last_was_operator: false,
    };
    assert(spec_run(t5) is Some && spec_run(t5).unwrap() =~= m5);
    let bc = binary(BinaryOperatorKind::Exponent, leaf(b), leaf(c));
    let m6 = ParserModel {
        operator_stack: Seq::empty(),
        operand_stack: seq![binary(BinaryOperatorKind::Exponent, leaf(a), bc)],
        last_was_operator: false,
    };
    assert(spec_drain(m5) is Some && spec_drain(m5).unwrap() =~= m6);
    assert(seq![
        con(a),
        sym(Operator::Exponent),
        con(b),
        sym(Operator::Exponent),
        con(c),
    ] =~= t5);
}

/// Writing the parentheses that right associativity implies changes nothing:
/// `a ^ b ^ c` and `a ^ (b ^ c)` parse to the very same tree.
pub proof fn lemma_parse_exponent_matches_parenthesized(a: u64, b: u64, c: u64)
    ensures
        spec_parse(
            seq![
                con(a),
                sym(Operator::Exponent),
                con(b),
                sym(Operator::Exponent),
                con(c),
            ],
        ) == spec_parse(
            seq![
                con(a),
                sym(Operator::Exponent),
                Token::OpenParen,
                con(b),
                sym(Operator::Exponent),
                con(c),
                Token::CloseParen,
            ],
        ),
{
    lemma_parse_exponent_right_associative(a, b, c);
    reveal_with_fuel(spec_reduce_for_binary, 4);
    reveal_with_fuel(spec_reduce_group, 4);
    reveal_with_fuel(spec_drain, 4);
    let e = Seq::<Token>::empty();
    let t1 = e.push(con(a));
    let t2 = t1.push(sym(Operator::Exponent));
    let t3 = t2.push(Token::OpenParen);
    let t4 = t3.push(con(b));
    let t5 = t4.push(sym(Operator::Exponent));
    let t6 = t5.push(con(c));
    let t7 = t6.push(Token::CloseParen);
    lemma_run_push(e, con(a));
    let m1 = ParserModel {
        operator_stack: Seq::empty(),
        operand_stack: seq![leaf(a)],
        last_was_operator: false,
    };
    assert(spec_run(t1) is Some && spec_run(t1).unwrap() =~= m1);
    lemma_run_push(t1, sym(Operator::Exponent));
    let m2 = ParserModel {
        operator_stack: seq![ShuntOperator::Exponent],
        operand_stack: seq![leaf(a)],
        last_was_operator: true,
    };
    assert(spec_run(t2) is Some && spec_run(t2).unwrap() =~= m2);
    lemma_run_push(t2, Token::OpenParen);
    let m3 = ParserModel {
        operator_stack: seq![ShuntOperator::Exponent, ShuntOperator::OpenParen],
        operand_stack: seq![leaf(a)],
        last_was_operator: true,
    };
    assert(spec_run(t3) is Some && spec_run(t3).unwrap() =~= m3);
    lemma_run_push(t3, con(b));
    let m4 = ParserModel {
        operator_stack: seq![ShuntOperator::Exponent, ShuntOperator::OpenParen],
        operand_stack: seq![leaf(a), leaf(b)],
        last_was_operator: false,
    };
    assert(spec_run(t4) is Some && spec_run(t4).unwrap() =~= m4);
    lemma_run_push(t4, sym(Operator::Exponent));
    let m5 = ParserModel {
        operator_stack: seq![
            ShuntOperator::Exponent,
            ShuntOperator::OpenParen,
            ShuntOperator::Exponent,
        ],
        operand_stack: seq![leaf(a), leaf(b)],
        last_was_operator: true,
    };
    assert(spec_run(t5) is Some && spec_run(t5).unwrap() =~= m5);
    lemma_run_push(t5, con(c));
    let m6 = ParserModel {
        operator_stack: seq![
            ShuntOperator::Exponent,
            ShuntOperator::OpenParen,
            ShuntOperator::Exponent,
        ],
        operand_stack: seq![leaf(a), leaf(b), leaf(c)],
        last_was_operator: false,
    };
    assert(spec_run(t6) is Some && spec_run(t6).unwrap() =~= m6);
    lemma_run_push(t6, Token::CloseParen);
    let bc = binary(BinaryOperatorKind::Exponent, leaf(b), leaf(c));
    let m7 = ParserModel {
        operator_stack: seq![ShuntOperator::Exponent],
        operand_stack: seq![leaf(a), bc],
        last_was_operator: false,
    };
    assert(spec_reduce_group(m6) is Some);
    assert(spec_run(t7) is Some && spec_run(t7).unwrap() =~= m7);
    let m8 = ParserModel {
        operator_stack: Seq::empty(),
        operand_stack: seq![binary(BinaryOperatorKind::Exponent, leaf(a), bc)],
        last_was_operator: false,
    };
    assert(spec_drain(m7) is Some && spec_drain(m7).unwrap() =~= m8);
    assert(seq![
        con(a),
        sym(Operator::Exponent),
        Token::OpenParen,
        con(b),
        sym(Operator::Exponent),
        con(c),
        Token::CloseParen,
    ] =~= t7);
}

/// Multiplication and division bind tighter than addition and subtraction,
/// on whichever side they stand: `a + b * c` parses as `a + (b * c)` and
/// `a * b + c` as `(a * b) + c`.
pub proof fn lemma_parse_precedence(a: u64, b: u64, c: u64)
    ensures
        spec_parse(seq![con(a), sym(Operator::Plus), con(b), sym(Operator::Times), con(c)])
            == Some(
            binary(
                BinaryOperatorKind::Plus,
                leaf(a),
                binary(BinaryOperatorKind::Times, leaf(b), leaf(c)),
            ),
        ),
        spec_parse(seq![con(a), sym(Operator::Times), con(b), sym(Operator::Plus), con(c)])
            == Some(
            binary(
                BinaryOperatorKind::Plus,
                binary(BinaryOperatorKind::Times, leaf(a), leaf(b)),
                leaf(c),
            ),
        ),
{
    reveal_with_fuel(spec_reduce_for_binary, 4);
    reveal_with_fuel(spec_drain, 4);
    let e = Seq::<Token>::empty();
    // First shape: the tighter operator stands to the right.
    let x1 = e.push(con(a));
    let x2 = x1.push(sym(Operator::Plus));
    let x3 = x2.push(con(b));
    let x4 = x3.push(sym(Operator::Times));
    let x5 = x4.push(con(c));
    lemma_run_push(e, con(a));
    let n1 = ParserModel {
        operator_stack: Seq::empty(),
        operand_stack: seq![leaf(a)],
        last_was_operator: false,
    };
    assert(spec_run(x1) is Some && spec_run(x1).unwrap() =~= n1);
    lemma_run_push(x1, sym(Operator::Plus));
    let n2 = ParserModel {
        operator_stack: seq![ShuntOperator::Plus],
        operand_stack: seq![leaf(a)],
        last_was_operator: true,
    };
    assert(spec_run(x2) is Some && spec_run(x2).unwrap() =~= n2);
    lemma_run_push(x2, con(b));
    let n3 = ParserModel {
        operator_stack: seq![ShuntOperator::Plus],
        operand_stack: seq![leaf(a), leaf(b)],
        last_was_operator: false,
    };
    assert(spec_run(x3) is Some && spec_run(x3).unwrap() =~= n3);
    lemma_run_push(x3, sym(Operator::Times));
    let n4 = ParserModel {
        operator_stack: seq![ShuntOperator::Plus, ShuntOperator::Times],
        operand_stack: seq![leaf(a), leaf(b)],
        last_was_operator: true,
    };
    assert(spec_run(x4) is Some && spec_run(x4).unwrap() =~= n4);
    lemma_run_push(x4, con(c));
    let n5 = ParserModel {
        operator_stack: seq![ShuntOperator::Plus, ShuntOperator::Times],
        operand_stack: seq![leaf(a), leaf(b), leaf(c)],
        last_was_operator: false,
    };
    assert(spec_run(x5) is Some && spec_run(x5).unwrap() =~= n5);
    let bc = binary(BinaryOperatorKind::Times, leaf(b), leaf(c));
    let n6 = ParserModel {
        operator_stack: Seq::empty(),
        operand_stack: seq![binary(BinaryOperatorKind::Plus, leaf(a), bc)],
        last_was_operator: false,
    };
    assert(spec_drain(n5) is Some && spec_drain(n5).unwrap() =~= n6);
    assert(seq![con(a), sym(Operator::Plus), con(b), sym(Operator::Times), con(c)] =~= x5);
    // Second shape: the tighter operator stands to the left and reduces as
    // soon as the weaker one arrives.
    let y1 = e.push(con(a));
    let y2 = y1.push(sym(Operator::Times));
    let y3 = y2.push(con(b));
    let y4 = y3.push(sym(Operator::Plus));
    let y5 = y4.push(con(c));
    lemma_run_push(e, con(a));
    assert(spec_run(y1) is Some && spec_run(y1).unwrap() =~= n1);
    lemma_run_push(y1, sym(Operator::Times));
    let p2 = ParserModel {
        operator_stack: seq![ShuntOperator::Times],
        operand_stack: seq![leaf(a)],
        last_was_operator: true,
    };
    assert(spec_run(y2) is Some && spec_run(y2).unwrap() =~= p2);
    lemma_run_push(y2, con(b));
    let p3 = ParserModel {
        operator_stack: seq![ShuntOperator::Times],
        operand_stack: seq![leaf(a), leaf(b)],
        last_was_operator: false,
    };
    assert(spec_run(y3) is Some && spec_run(y3).unwrap() =~= p3);
    lemma_run_push(y3, sym(Operator::Plus));
    let ab = binary(BinaryOperatorKind::Times, leaf(a), leaf(b));
    let p4 = ParserModel {
        operator_stack: seq![ShuntOperator::Plus],
        operand_stack: seq![ab],
        last_was_operator: true,
    };
    assert(spec_run(y4) is Some && spec_run(y4).unwrap() =~= p4);
    lemma_run_push(y4, con(c));
    let p5 = ParserModel {
        operator_stack: seq![ShuntOperator::Plus],
        operand_stack: seq![ab, leaf(c)],
        last_was_operator: false,
    };
    assert(spec_run(y5) is Some && spec_run(y5).unwrap() =~= p5);
    let p6 = ParserModel {
        operator_stack: Seq::empty(),
        operand_stack: seq![binary(BinaryOperatorKind::Plus, ab, leaf(c))],
        last_was_operator: false,
    };
    assert(spec_drain(p5) is Some && spec_drain(p5).unwrap() =~= p6);
    assert(seq![con(a), sym(Operator::Times), con(b), sym(Operator::Plus), con(c)] =~= y5);
}

/// The unary tree-node kind a `+` or `-` builds where an operand is expected.
pub open spec fn unary_kind(o: Operator) -> UnaryOperatorKind {
    match o {
        Operator::Minus => UnaryOperatorKind::Minus,
        _ => UnaryOperatorKind::Plus,
    }
}

/// The stack operator a `+` or `-` becomes where an operand is expected.
pub open spec fn unary_shunt(o: Operator) -> ShuntOperator {
    match o {
        Operator::Minus => ShuntOperator::UnaryMinus,
        _ => ShuntOperator::UnaryPlus,
    }
}

/// Stacked signs nest: `o1 o2 a`, each sign a `+` or `-` at the head of the
/// expression, parses as `o1 (o2 a)`. In particular `--a` parses to minus of
/// minus of `a`.
pub proof fn lemma_parse_stacked_signs(a: u64, o1: Operator, o2: Operator)
    requires
        o1 == Operator::Plus || o1 == Operator::Minus,
        o2 == Operator::Plus || o2 == Operator::Minus,
    ensures
        spec_parse(seq![sym(o1), sym(o2), con(a)]) == Some(
            unary(unary_kind(o1), unary(unary_kind(o2), leaf(a))),
        ),
{
    reveal_with_fuel(spec_drain, 4);
    let e = Seq::<Token>::empty();
    let t1 = e.push(sym(o1));
    let t2 = t1.push(sym(o2));
    let t3 = t2.push(con(a));
    lemma_run_push(e, sym(o1));
    let m1 = ParserModel {
        operator_stack: seq![unary_shunt(o1)],
        operand_stack: Seq::empty(),
        last_was_operator: true,
    };
    assert(spec_run(t1) is Some && spec_run(t1).unwrap() =~= m1);
    lemma_run_push(t1, sym(o2));
    let m2 = ParserModel {
        operator_stack: seq![unary_shunt(o1), unary_shunt(o2)],
        operand_stack: Seq::empty(),
        last_was_operator: true,
    };
    assert(spec_run(t2) is Some && spec_run(t2).unwrap() =~= m2);
    lemma_run_push(t2, con(a));
    let m3 = ParserModel {
        operator_stack: seq![unary_shunt(o1), unary_shunt(o2)],
        operand_stack: seq![leaf(a)],
        last_was_operator: false,
    };
    assert(spec_run(t3) is Some && spec_run(t3).unwrap() =~= m3);
    let inner = unary(unary_kind(o2), leaf(a));
    let m4 = ParserModel {
        operator_stack: Seq::empty(),
        operand_stack: seq![unary(unary_kind(o1), inner)],
        last_was_operator: false,
    };
    assert(spec_drain(m3) is Some && spec_drain(m3).unwrap() =~= m4);
    assert(seq![sym(o1), sym(o2), con(a)] =~= t3);
}

/// A sign right after a binary operator is unary, and it binds tighter than
/// the binary operator: `a o u b` parses as `a o (u b)`, for every binary
/// symbol `o` and sign `u`.
#[verifier::rlimit(50)]
pub proof fn lemma_parse_sign_after_operator(a: u64, b: u64, o: Operator, u: Operator)
    requires
        u == Operator::Plus || u == Operator::Minus,
    ensures
        spec_parse(seq![con(a), sym(o), sym(u), con(b)]) == Some(
            binary(binary_kind(o), leaf(a), unary(unary_kind(u), leaf(b))),
        ),
{
    reveal_with_fuel(spec_reduce_for_binary, 4);
    reveal_with_fuel(spec_drain, 4);
    let sop = crate::parser::spec_from_lex_operator(o);
    let e = Seq::<Token>::empty();
    let t1 = e.push(con(a));
    let t2 = t1.push(sym(o));
    let t3 = t2.push(sym(u));
    let t4 = t3.push(con(b));
    lemma_run_push(e, con(a));
    let m1 = ParserModel {
        operator_stack: Seq::empty(),
        operand_stack: seq![leaf(a)],
        last_was_operator: false,
    };
    assert(spec_run(t1) is Some && spec_run(t1).unwrap() =~= m1);
    lemma_run_push(t1, sym(o));
    let m2 = ParserModel {
        operator_stack: seq![sop],
        operand_stack: seq![leaf(a)],
        last_was_operator: true,
    };
    assert(spec_run(t2) is Some && spec_run(t2).unwrap() =~= m2);
    lemma_run_push(t2, sym(u));
    let m3 = ParserModel {
        operator_stack: seq![sop, unary_shunt(u)],
        operand_stack: seq![leaf(a)],
        last_was_operator: true,
    };
    assert(spec_run(t3) is Some && spec_run(t3).unwrap() =~= m3);
    lemma_run_push(t3, con(b));
    let m4 = ParserModel {
        operator_stack: seq![sop, unary_shunt(u)],
        operand_stack: seq![leaf(a), leaf(b)],
        last_was_operator: false,
    };
    assert(spec_run(t4) is Some && spec_run(t4).unwrap() =~= m4);
    let ub = unary(unary_kind(u), leaf(b));
    let m5 = ParserModel {
        operator_stack: Seq::empty(),
        operand_stack: seq![binary(binary_kind(o), leaf(a), ub)],
        last_was_operator: false,
    };
    assert(spec_drain(m4) is Some && spec_drain(m4).unwrap() =~= m5);
    assert(seq![con(a), sym(o), sym(u), con(b)] =~= t4);
}

/// An open parenthesis that is never closed fails the parse, whatever stood
/// inside it.
pub proof fn lemma_parse_unmatched_open_fails(a: u64, b: u64, o: Operator)
    ensures
        spec_parse(seq![Token::OpenParen, con(a), sym(o), con(b)]) is None,
{
    reveal_with_fuel(spec_reduce_for_binary, 4);
    reveal_with_fuel(spec_drain, 4);
    let sop = crate::parser::spec_from_lex_operator(o);
    let e = Seq::<Token>::empty();
    let t1 = e.push(Token::OpenParen);
    let t2 = t1.push(con(a));
    let t3 = t2.push(sym(o));
    let t4 = t3.push(con(b));
    lemma_run_push(e, Token::OpenParen);
    let m1 = ParserModel {
        operator_stack: seq![ShuntOperator::OpenParen],
        operand_stack: Seq::empty(),
        last_was_operator: true,
    };
    assert(spec_run(t1) is Some && spec_run(t1).unwrap() =~= m1);
    lemma_run_push(t1, con(a));
    let m2 = ParserModel {
        operator_stack: seq![ShuntOperator::OpenParen],
        operand_stack: seq![leaf(a)],
        last_was_operator: false,
    };
    assert(spec_run(t2) is Some && spec_run(t2).unwrap() =~= m2);
    lemma_run_push(t2, sym(o));
    let m3 = ParserModel {
        operator_stack: seq![ShuntOperator::OpenParen, sop],
        operand_stack: seq![leaf(a)],
        last_was_operator: true,
    };
    assert(spec_run(t3) is Some && spec_run(t3).unwrap() =~= m3);
    lemma_run_push(t3, con(b));
    let m4 = ParserModel {
        operator_stack: seq![ShuntOperator::OpenParen, sop],
        operand_stack: seq![leaf(a), leaf(b)],
        last_was_operator: false,
    };
    assert(spec_run(t4) is Some && spec_run(t4).unwrap() =~= m4);
    assert(spec_drain(m4) is None);
    assert(seq![Token::OpenParen, con(a), sym(o), con(b)] =~= t4);
}

/// A close parenthesis with no open parenthesis to match fails the parse,
/// even when everything before it was well formed.
pub proof fn lemma_parse_unmatched_close_fails(a: u64, b: u64, o: Operator)
    ensures
        spec_parse(seq![con(a), sym(o), con(b), Token::CloseParen]) is None,
{
    reveal_with_fuel(spec_reduce_for_binary, 4);
    reveal_with_fuel(spec_reduce_group, 4);
    let sop = crate::parser::spec_from_lex_operator(o);
    let e = Seq::<Token>::empty();
    let t1 = e.push(con(a));
    let t2 = t1.push(sym(o));
    let t3 = t2.push(con(b));
    let t4 = t3.push(Token::CloseParen);
    lemma_run_push(e, con(a));
    let m1 = ParserModel {
        operator_stack: Seq::empty(),
        operand_stack: seq![leaf(a)],
        last_was_operator: false,
    };
    assert(spec_run(t1) is Some && spec_run(t1).unwrap() =~= m1);
    lemma_run_push(t1, sym(o));
    let m2 = ParserModel {
        operator_stack: seq![sop],
        operand_stack: seq![leaf(a)],
        last_was_operator: true,
    };
    assert(spec_run(t2) is Some && spec_run(t2).unwrap() =~= m2);
    lemma_run_push(t2, con(b));
    let m3 = ParserModel {
        operator_stack: seq![sop],
        operand_stack: seq![leaf(a), leaf(b)],
        last_was_operator: false,
    };
    assert(spec_run(t3) is Some && spec_run(t3).unwrap() =~= m3);
    lemma_run_push(t3, Token::CloseParen);
    assert(spec_reduce_group(m3) is None);
    assert(spec_run(t4) is None);
    assert(seq![con(a), sym(o), con(b), Token::CloseParen] =~= t4);
}

/// Two operands in a row, with no operator to combine them, fail the parse:
/// a second finished tree is left over at the end.
pub proof fn lemma_parse_adjacent_constants_fail(a: u64, b: u64)
    ensures
        spec_parse(seq![con(a), con(b)]) is None,
{
    let e = Seq::<Token>::empty();
    let t1 = e.push(con(a));
    let t2 = t1.push(con(b));
    lemma_run_push(e, con(a));
    lemma_run_push(t1, con(b));
    let m2 = ParserModel {
        operator_stack: Seq::empty(),
        operand_stack: seq![leaf(a), leaf(b)],
        last_was_operator: false,
    };
    assert(spec_run(t2) is Some && spec_run(t2).unwrap() =~= m2);
    assert(seq![con(a), con(b)] =~= t2);
}

/// A trailing operator with no right-hand operand fails the parse.
pub proof fn lemma_parse_trailing_operator_fails(a: u64, o: Operator)
    ensures
        spec_parse(seq![con(a), sym(o)]) is None,
{
    reveal_with_fuel(spec_reduce_for_binary, 4);
    reveal_with_fuel(spec_drain, 4);
    let sop = crate::parser::spec_from_lex_operator(o);
    let e = Seq::<Token>::empty();
    let t1 = e.push(con(a));
    let t2 = t1.push(sym(o));
    lemma_run_push(e, con(a));
    let m1 = ParserModel {
        operator_stack: Seq::empty(),
        operand_stack: seq![leaf(a)],
        last_was_operator: false,
    };
    assert(spec_run(t1) is Some && spec_run(t1).unwrap() =~= m1);
    lemma_run_push(t1, sym(o));
    let m2 = ParserModel {
        operator_stack: seq![sop],
        operand_stack: seq![leaf(a)],
        last_was_operator: true,
    };
    assert(spec_run(t2) is Some && spec_run(t2).unwrap() =~= m2);
    assert(spec_drain(m2) is None);
    assert(seq![con(a), sym(o)] =~= t2);
}

/// The constants of a tree, left to right.
pub open spec fn tree_leaves(t: AstNode) -> Seq<u64>
    decreases t,
{
    match t {
        AstNode::Constant { value } => seq![value],
        AstNode::BinaryOperator { left, right, .. } => tree_leaves(*left) + tree_leaves(*right),
        AstNode::UnaryOperator { value, .. } => tree_leaves(*value),
    }
}

/// The constants of a stack of trees, bottom to top, each tree left to right.
pub open spec fn stack_leaves(s: Seq<AstNode>) -> Seq<u64>
    decreases s.len(),
{
    if s.len() == 0 {
        Seq::empty()
    } else {
        stack_leaves(s.drop_last()) + tree_leaves(s.last())
    }
}

/// The payloads of the constant tokens of a sequence, in order.
pub open spec fn token_constants(tokens: Seq<Token>) -> Seq<u64>
    decreases tokens.len(),
{
    if tokens.len() == 0 {
        Seq::empty()
    } else {
        token_constants(tokens.drop_last()) + (match tokens.last() {
            Token::Constant(v) => seq![v],
            _ => Seq::empty(),
        })
    }
}

proof fn lemma_stack_leaves_push(s: Seq<AstNode>, t: AstNode)
    ensures
        stack_leaves(s.push(t)) == stack_leaves(s) + tree_leaves(t),
{
    assert(s.push(t).drop_last() =~= s);
}

/// A reduction combines trees; it neither drops nor adds a constant.
proof fn lemma_reduce_one_keeps_leaves(m: ParserModel)
    requires
        spec_reduce_one(m) is Some,
    ensures
        stack_leaves(spec_reduce_one(m).unwrap().operand_stack) == stack_leaves(m.operand_stack),
{
    let op = m.operator_stack.last();
    let s = m.operand_stack;
    if spec_is_unary(op) {
        let result = spec_reduce_one(m).unwrap();
        let node = result.operand_stack.last();
        assert(s.len() >= 1);
        assert(result.operand_stack == s.drop_last().push(node));
        lemma_stack_leaves_push(s.drop_last(), node);
        assert(stack_leaves(result.operand_stack) == stack_leaves(s.drop_last()) + tree_leaves(
            node,
        ));
        assert(stack_leaves(s) == stack_leaves(s.drop_last()) + tree_leaves(s.last()));
        assert(tree_leaves(node) == tree_leaves(s.last()));
    } else {
        let node = spec_reduce_one(m).unwrap().operand_stack.last();
        let s2 = s.drop_last().drop_last();
        let l = s[s.len() - 2];
        let r = s.last();
        assert(s.drop_last().last() == l);
        lemma_stack_leaves_push(s2, node);
        assert(stack_leaves(s.drop_last()) == stack_leaves(s2) + tree_leaves(l));
        assert(stack_leaves(s) == stack_leaves(s.drop_last()) + tree_leaves(r));
        assert(tree_leaves(node) == tree_leaves(l) + tree_leaves(r));
        assert(stack_leaves(s2) + (tree_leaves(l) + tree_leaves(r)) =~= (stack_leaves(s2)
            + tree_leaves(l)) + tree_leaves(r));
    }
}

proof fn lemma_reduce_for_binary_keeps_leaves(m: ParserModel, prec: u8, la: bool)
    requires
        spec_reduce_for_binary(m, prec, la) is Some,
    ensures
        stack_leaves(spec_reduce_for_binary(m, prec, la).unwrap().operand_stack) == stack_leaves(
            m.operand_stack,
        ),
    decreases m.operator_stack.len(),
{
    if m.operator_stack.len() == 0 {
    } else {
        let stop = if la {
            prec > crate::parser::spec_precedence(m.operator_stack.last())
        } else {
            prec >= crate::parser::spec_precedence(m.operator_stack.last())
        };
        if !stop {
            lemma_reduce_one_keeps_leaves(m);
            lemma_reduce_for_binary_keeps_leaves(spec_reduce_one(m).unwrap(), prec, la);
        }
    }
}

proof fn lemma_reduce_group_keeps_leaves(m: ParserModel)
    requires
        spec_reduce_group(m) is Some,
    ensures
        stack_leaves(spec_reduce_group(m).unwrap().operand_stack) == stack_leaves(m.operand_stack),
    decreases m.operator_stack.len(),
{
    if m.operator_stack.len() == 0 {
    } else if m.operator_stack.last() == ShuntOperator::OpenParen {
    } else {
        lemma_reduce_one_keeps_leaves(m);
        lemma_reduce_group_keeps_leaves(spec_reduce_one(m).unwrap());
    }
}

proof fn lemma_drain_keeps_leaves(m: ParserModel)
    requires
        spec_drain(m) is Some,
    ensures
        stack_leaves(spec_drain(m).unwrap().operand_stack) == stack_leaves(m.operand_stack),
    decreases m.operator_stack.len(),
{
    if m.operator_stack.len() != 0 {
        lemma_reduce_one_keeps_leaves(m);
        lemma_drain_keeps_leaves(spec_reduce_one(m).unwrap());
    }
}

/// One step adds exactly the constants of its token — one payload for a
/// constant token, none for anything else.
proof fn lemma_step_adds_leaves(m: ParserModel, t: Token)
    requires
        spec_step(m, t) is Some,
    ensures
        stack_leaves(spec_step(m, t).unwrap().operand_stack) == stack_leaves(m.operand_stack) + (
        match t {
            Token::Constant(v) => seq![v],
            _ => Seq::<u64>::empty(),
        }),
{
    match t {
        Token::Constant(v) => {
            lemma_stack_leaves_push(m.operand_stack, leaf(v));
        },
        Token::Operator(o) => {
            let op = spec_resolve_operator(o, m.last_was_operator);
            if !spec_is_unary(op) {
                lemma_reduce_for_binary_keeps_leaves(
                    m,
                    crate::parser::spec_precedence(op),
                    crate::parser::spec_is_left_associative(op),
                );
            }
            assert(stack_leaves(m.operand_stack) + Seq::<u64>::empty() =~= stack_leaves(
                m.operand_stack,
            ));
        },
        Token::OpenParen => {
            assert(stack_leaves(m.operand_stack) + Seq::<u64>::empty() =~= stack_leaves(
                m.operand_stack,
            ));
        },
        Token::CloseParen => {
            lemma_reduce_group_keeps_leaves(m);
            assert(stack_leaves(m.operand_stack) + Seq::<u64>::empty() =~= stack_leaves(
                m.operand_stack,
            ));
        },
    }
}

proof fn lemma_run_collects_leaves(tokens: Seq<Token>)
    requires
        spec_run(tokens) is Some,
    ensures
        stack_leaves(spec_run(tokens).unwrap().operand_stack) == token_constants(tokens),
    decreases tokens.len(),
{
    if tokens.len() == 0 {
    } else {
        lemma_run_collects_leaves(tokens.drop_last());
        lemma_step_adds_leaves(spec_run(tokens.drop_last()).unwrap(), tokens.last());
    }
}

/// A parser state with one more open-parenthesis marker fenced in below its
/// operators.
pub open spec fn framed(m: ParserModel) -> ParserModel {
    ParserModel {
        operator_stack: seq![ShuntOperator::OpenParen] + m.operator_stack,
        operand_stack: m.operand_stack,
        last_was_operator: m.last_was_operator,
    }
}

/// A reduction never reaches below the frame marker: it works the same above
/// it, and where it would need the marker it fails either way.
proof fn lemma_frame_reduce_one(m: ParserModel)
    ensures
        spec_reduce_one(m) is None ==> spec_reduce_one(framed(m)) is None,
        spec_reduce_one(m) matches Some(m1) ==> spec_reduce_one(framed(m)) == Some(framed(m1)),
{
    let f = framed(m);
    if m.operator_stack.len() == 0 {
        assert(f.operator_stack.last() == ShuntOperator::OpenParen);
    } else {
        assert(f.operator_stack.last() == m.operator_stack.last());
        assert(f.operator_stack.drop_last() =~= seq![ShuntOperator::OpenParen]
            + m.operator_stack.drop_last());
        if spec_reduce_one(m) is Some {
            assert(spec_reduce_one(f) is Some);
            assert(spec_reduce_one(f).unwrap() =~= framed(spec_reduce_one(m).unwrap()));
        }
    }
}

/// The precedence loop of a binary operator stops at the frame marker, so it
/// does the same reductions with or without the frame. Every binary operator
/// outranks the marker, hence the bound on the precedence.
proof fn lemma_frame_reduce_for_binary(m: ParserModel, prec: u8, la: bool)
    requires
        prec >= 1,
        spec_reduce_for_binary(m, prec, la) is Some,
    ensures
        spec_reduce_for_binary(framed(m), prec, la) == Some(
            framed(spec_reduce_for_binary(m, prec, la).unwrap()),
        ),
    decreases m.operator_stack.len(),
{
    let f = framed(m);
    if m.operator_stack.len() == 0 {
        assert(f.operator_stack.last() == ShuntOperator::OpenParen);
    } else {
        assert(f.operator_stack.last() == m.operator_stack.last());
        let stop = if la {
            prec > crate::parser::spec_precedence(m.operator_stack.last())
        } else {
            prec >= crate::parser::spec_precedence(m.operator_stack.last())
        };
        if !stop {
            lemma_frame_reduce_one(m);
            lemma_frame_reduce_for_binary(spec_reduce_one(m).unwrap(), prec, la);
        }
    }
}

/// A close parenthesis that finds its own marker never looks below it, so it
/// behaves the same above a frame.
proof fn lemma_frame_reduce_group(m: ParserModel)
    requires
        spec_reduce_group(m) is Some,
    ensures
        spec_reduce_group(framed(m)) == Some(framed(spec_reduce_group(m).unwrap())),
    decreases m.operator_stack.len(),
{
    let f = framed(m);
    assert(f.operator_stack.last() == m.operator_stack.last());
    if m.operator_stack.last() == ShuntOperator::OpenParen {
        assert(f.operator_stack.drop_last() =~= seq![ShuntOperator::OpenParen]
            + m.operator_stack.drop_last());
        assert(spec_reduce_group(f).unwrap() =~= framed(spec_reduce_group(m).unwrap()));
    } else {
        lemma_frame_reduce_one(m);
        lemma_frame_reduce_group(spec_reduce_one(m).unwrap());
    }
}

/// A successful step works the same above a frame marker.
proof fn lemma_frame_step(m: ParserModel, t: Token)
    requires
        spec_step(m, t) is Some,
    ensures
        spec_step(framed(m), t) == Some(framed(spec_step(m, t).unwrap())),
{
    let f = framed(m);
    match t {
        Token::Constant(v) => {
            assert(spec_step(f, t).unwrap() =~= framed(spec_step(m, t).unwrap()));
        },
        Token::Operator(o) => {
            let op = spec_resolve_operator(o, m.last_was_operator);
            if spec_is_unary(op) {
                assert(f.operator_stack.push(op) =~= seq![ShuntOperator::OpenParen]
                    + m.operator_stack.push(op));
                assert(spec_step(f, t).unwrap() =~= framed(spec_step(m, t).unwrap()));
            } else {
                let prec = crate::parser::spec_precedence(op);
                lemma_frame_reduce_for_binary(m, prec, crate::parser::spec_is_left_associative(op));
                let m1 = spec_reduce_for_binary(m, prec, crate::parser::spec_is_left_associative(op)).unwrap();
                assert(framed(m1).operator_stack.push(op) =~= seq![ShuntOperator::OpenParen]
                    + m1.operator_stack.push(op));
                assert(spec_step(f, t).unwrap() =~= framed(spec_step(m, t).unwrap()));
            }
        },
        Token::OpenParen => {
            assert(f.operator_stack.push(ShuntOperator::OpenParen) =~= seq![
                ShuntOperator::OpenParen,
            ] + m.operator_stack.push(ShuntOperator::OpenParen));
            assert(spec_step(f, t).unwrap() =~= framed(spec_step(m, t).unwrap()));
        },
        Token::CloseParen => {
            lemma_frame_reduce_group(m);
            assert(spec_step(f, t).unwrap() =~= framed(spec_step(m, t).unwrap()));
        },
    }
}

/// A successful run behaves the same after a leading open parenthesis: the
/// marker sits below everything the run does.
proof fn lemma_frame_run(tokens: Seq<Token>)
    requires
        spec_run(tokens) is Some,
    ensures
        spec_run(seq![Token::OpenParen] + tokens) == Some(framed(spec_run(tokens).unwrap())),
    decreases tokens.len(),
{
    if tokens.len() == 0 {
        assert((seq![Token::OpenParen] + tokens) =~= Seq::<Token>::empty().push(
            Token::OpenParen,
        ));
        lemma_run_push(Seq::<Token>::empty(), Token::OpenParen);
        assert(spec_run(seq![Token::OpenParen] + tokens).unwrap() =~= framed(
            spec_run(tokens).unwrap(),
        ));
    } else {
        lemma_frame_run(tokens.drop_last());
        assert((seq![Token::OpenParen] + tokens).drop_last() =~= seq![Token::OpenParen]
            + tokens.drop_last());
        assert((seq![Token::OpenParen] + tokens).last() == tokens.last());
        lemma_frame_step(spec_run(tokens.drop_last()).unwrap(), tokens.last());
    }
}

/// Closing a frame does exactly what draining does inside it: every operator
/// above the marker reduces, and the marker goes away.
proof fn lemma_frame_close_is_drain(m: ParserModel)
    requires
        spec_drain(m) is Some,
    ensures
        spec_reduce_group(framed(m)) matches Some(g) && g.operator_stack
            == Seq::<ShuntOperator>::empty() && g.operand_stack == spec_drain(
            m,
        ).unwrap().operand_stack,
    decreases m.operator_stack.len(),
{
    let f = framed(m);
    if m.operator_stack.len() == 0 {
        assert(f.operator_stack.last() == ShuntOperator::OpenParen);
        assert(f.operator_stack.drop_last() =~= Seq::<ShuntOperator>::empty());
    } else {
        assert(f.operator_stack.last() == m.operator_stack.last());
        lemma_frame_reduce_one(m);
        lemma_frame_close_is_drain(spec_reduce_one(m).unwrap());
    }
}

/// Redundant outer parentheses are harmless: whenever a token sequence parses
/// at all, wrapping the whole of it in one more pair of parentheses parses to
/// the very same tree. Applied repeatedly: any number of extra outer pairs.
pub proof fn lemma_parse_redundant_outer_parens(tokens: Seq<Token>)
    requires
        spec_parse(tokens) is Some,
    ensures
        spec_parse(seq![Token::OpenParen] + tokens + seq![Token::CloseParen]) == spec_parse(
            tokens,
        ),
{
    let m = spec_run(tokens).unwrap();
    let m1 = spec_drain(m).unwrap();
    lemma_frame_run(tokens);
    let opened = seq![Token::OpenParen] + tokens;
    let full = seq![Token::OpenParen] + tokens + seq![Token::CloseParen];
    assert(full =~= opened.push(Token::CloseParen));
    lemma_run_push(opened, Token::CloseParen);
    lemma_frame_close_is_drain(m);
    let closed = spec_run(full).unwrap();
    assert(closed.operator_stack == Seq::<ShuntOperator>::empty());
    assert(closed.operand_stack == m1.operand_stack);
    assert(spec_drain(closed) == Some(closed));
}

/// The lexical operator that renders a binary tree-node kind.
pub open spec fn lex_of_binary(k: BinaryOperatorKind) -> Operator {
    match k {
        BinaryOperatorKind::Plus => Operator::Plus,
        BinaryOperatorKind::Minus => Operator::Minus,
        BinaryOperatorKind::Times => Operator::Times,
        BinaryOperatorKind::Divide => Operator::Divide,
        BinaryOperatorKind::Exponent => Operator::Exponent,
    }
}

/// The lexical operator that renders a unary tree-node kind.
pub open spec fn lex_of_unary(k: UnaryOperatorKind) -> Operator {
    match k {
        UnaryOperatorKind::Plus => Operator::Plus,
        UnaryOperatorKind::Minus => Operator::Minus,
    }
}

/// A fully parenthesized rendering of a tree: every inner node wrapped in its
/// own pair of parentheses, constants as bare tokens.
pub open spec fn render(t: AstNode) -> Seq<Token>
    decreases t,
{
    match t {
        AstNode::Constant { value } => seq![Token::Constant(value)],
        AstNode::BinaryOperator { kind, left, right } => seq![Token::OpenParen] + render(*left)
            + seq![Token::Operator(lex_of_binary(kind))] + render(*right) + seq![
            Token::CloseParen,
        ],
        AstNode::UnaryOperator { kind, value } => seq![
            Token::OpenParen,
            Token::Operator(lex_of_unary(kind)),
        ] + render(*value) + seq![Token::CloseParen],
    }
}

/// The model run started from an arbitrary state instead of the initial one.
spec fn spec_run_from(m: ParserModel, tokens: Seq<Token>) -> Option<ParserModel>
    decreases tokens.len(),
{
    if tokens.len() == 0 {
        Some(m)
    } else {
        match spec_run_from(m, tokens.drop_last()) {
            None => None,
            Some(m1) => spec_step(m1, tokens.last()),
        }
    }
}

/// Running a single token is a single step.
proof fn lemma_run_from_one(m: ParserModel, t: Token)
    ensures
        spec_run_from(m, seq![t]) == spec_step(m, t),
{
    reveal_with_fuel(spec_run_from, 2);
    assert(seq![t].drop_last() =~= Seq::<Token>::empty());
}

/// Running a concatenation runs the first part, then the second from where
/// the first left off.
proof fn lemma_run_from_concat(m: ParserModel, s1: Seq<Token>, s2: Seq<Token>)
    ensures
        spec_run_from(m, s1) is None ==> spec_run_from(m, s1 + s2) is None,
        spec_run_from(m, s1) matches Some(m1) ==> spec_run_from(m, s1 + s2) == spec_run_from(
            m1,
            s2,
        ),
    decreases s2.len(),
{
    if s2.len() == 0 {
        assert(s1 + s2 =~= s1);
    } else {
        lemma_run_from_concat(m, s1, s2.drop_last());
        assert((s1 + s2).drop_last() =~= s1 + s2.drop_last());
        assert((s1 + s2).last() == s2.last());
    }
}

/// The plain run is the run from the initial state.
proof fn lemma_run_from_initial(tokens: Seq<Token>)
    ensures
        spec_run(tokens) == spec_run_from(initial_model(), tokens),
    decreases tokens.len(),
{
    if tokens.len() != 0 {
        lemma_run_from_initial(tokens.drop_last());
    }
}

/// The state after a rendering has been consumed: the tree sits on top of
/// the operand stack and an operand is no longer expected.
spec fn deposited(m: ParserModel, t: AstNode) -> ParserModel {
    ParserModel {
        operator_stack: m.operator_stack,
        operand_stack: m.operand_stack.push(t),
        last_was_operator: false,
    }
}

/// The state right after a rendering's open parenthesis.
spec fn opened(m: ParserModel) -> ParserModel {
    ParserModel {
        operator_stack: m.operator_stack.push(ShuntOperator::OpenParen),
        operand_stack: m.operand_stack,
        last_was_operator: true,
    }
}

/// The state in the middle of a binary rendering: left operand done, the
/// operator pushed above the marker.
spec fn binary_mid(m: ParserModel, kind: BinaryOperatorKind, left: AstNode) -> ParserModel {
    ParserModel {
        operator_stack: m.operator_stack.push(ShuntOperator::OpenParen).push(
            crate::parser::spec_from_lex_operator(lex_of_binary(kind)),
        ),
        operand_stack: m.operand_stack.push(left),
        last_was_operator: true,
    }
}

/// The state after a unary rendering's open parenthesis and sign.
spec fn signed(m: ParserModel, kind: UnaryOperatorKind) -> ParserModel {
    ParserModel {
        operator_stack: m.operator_stack.push(ShuntOperator::OpenParen).push(
            unary_shunt(lex_of_unary(kind)),
        ),
        operand_stack: m.operand_stack,
        last_was_operator: true,
    }
}

/// A binary node's rendering deposits the node, given what the renderings of
/// its two children do from the states where the run meets them.
#[verifier::rlimit(100)]
proof fn lemma_render_binary_case(
    m: ParserModel,
    kind: BinaryOperatorKind,
    left: AstNode,
    right: AstNode,
)
    requires
        m.last_was_operator,
        spec_run_from(opened(m), render(left)) == Some(deposited(opened(m), left)),
        spec_run_from(binary_mid(m, kind, left), render(right)) == Some(
            deposited(binary_mid(m, kind, left), right),
        ),
    ensures
        spec_run_from(
            m,
            render(AstNode::BinaryOperator { kind, left: Box::new(left), right: Box::new(right) }),
        ) == Some(
            deposited(
                m,
                AstNode::BinaryOperator { kind, left: Box::new(left), right: Box::new(right) },
            ),
        ),
{
    reveal_with_fuel(spec_reduce_group, 3);
    let t = AstNode::BinaryOperator { kind, left: Box::new(left), right: Box::new(right) };
    let open = seq![Token::OpenParen];
    let op = seq![Token::Operator(lex_of_binary(kind))];
    let close = seq![Token::CloseParen];
    let sop = crate::parser::spec_from_lex_operator(lex_of_binary(kind));
    // After the open parenthesis: a fresh marker, operand expected.
    let ma = opened(m);
    lemma_run_from_one(m, Token::OpenParen);
    assert(spec_run_from(m, open) == Some(ma));
    // After the left operand's rendering.
    let mb = deposited(ma, left);
    lemma_run_from_concat(m, open, render(left));
    assert(spec_run_from(m, open + render(left)) == Some(mb));
    // The operator: read in binary position, stopped by the marker.
    let mc = binary_mid(m, kind, left);
    lemma_run_from_concat(m, open + render(left), op);
    lemma_run_from_one(mb, Token::Operator(lex_of_binary(kind)));
    assert(spec_step(mb, Token::Operator(lex_of_binary(kind))).unwrap() =~= mc);
    assert(spec_run_from(m, open + render(left) + op) == Some(mc));
    // After the right operand's rendering.
    let md = deposited(mc, right);
    lemma_run_from_concat(m, open + render(left) + op, render(right));
    assert(spec_run_from(m, open + render(left) + op + render(right)) == Some(md));
    // The close parenthesis reduces the operator and pops the marker.
    lemma_run_from_concat(m, open + render(left) + op + render(right), close);
    lemma_run_from_one(md, Token::CloseParen);
    assert(md.operand_stack.drop_last().drop_last() =~= m.operand_stack);
    assert(spec_reduce_one(md).unwrap().operand_stack =~= m.operand_stack.push(t));
    assert(spec_reduce_one(md).unwrap().operator_stack =~= m.operator_stack.push(
        ShuntOperator::OpenParen,
    ));
    assert(spec_reduce_group(md).unwrap().operator_stack =~= m.operator_stack);
    assert(spec_step(md, Token::CloseParen).unwrap() =~= deposited(m, t));
    assert(spec_step(md, Token::CloseParen) is Some);
    assert(render(t) =~= open + render(left) + op + render(right) + close);
}

/// A unary node's rendering deposits the node, given what the rendering of
/// its operand does from the state where the run meets it.
#[verifier::rlimit(100)]
proof fn lemma_render_unary_case(m: ParserModel, kind: UnaryOperatorKind, value: AstNode)
    requires
        m.last_was_operator,
        spec_run_from(signed(m, kind), render(value)) == Some(deposited(signed(m, kind), value)),
    ensures
        spec_run_from(m, render(AstNode::UnaryOperator { kind, value: Box::new(value) })) == Some(
            deposited(m, AstNode::UnaryOperator { kind, value: Box::new(value) }),
        ),
{
    reveal_with_fuel(spec_reduce_group, 3);
    reveal_with_fuel(spec_run_from, 3);
    let t = AstNode::UnaryOperator { kind, value: Box::new(value) };
    let open = seq![Token::OpenParen, Token::Operator(lex_of_unary(kind))];
    let close = seq![Token::CloseParen];
    // After the open parenthesis and the sign: the sign is read where an
    // operand is expected, so it is unary and pushed untouched.
    let ma = signed(m, kind);
    assert(open.drop_last() =~= seq![Token::OpenParen]);
    assert(seq![Token::OpenParen].drop_last() =~= Seq::<Token>::empty());
    assert(spec_run_from(m, Seq::<Token>::empty()) == Some(m));
    assert(spec_run_from(m, seq![Token::OpenParen]).unwrap() =~= opened(m));
    assert(spec_step(opened(m), Token::Operator(lex_of_unary(kind))).unwrap() =~= ma);
    assert(spec_run_from(m, open) == Some(ma));
    // After the operand's rendering.
    let mb = deposited(ma, value);
    lemma_run_from_concat(m, open, render(value));
    assert(spec_run_from(m, open + render(value)) == Some(mb));
    // The close parenthesis reduces the sign and pops the marker.
    lemma_run_from_concat(m, open + render(value), close);
    lemma_run_from_one(mb, Token::CloseParen);
    assert(spec_reduce_one(mb).unwrap().operand_stack =~= m.operand_stack.push(t));
    assert(spec_reduce_one(mb).unwrap().operator_stack =~= m.operator_stack.push(
        ShuntOperator::OpenParen,
    ));
    assert(spec_reduce_group(mb).unwrap().operator_stack =~= m.operator_stack);
    assert(spec_step(mb, Token::CloseParen).unwrap() =~= deposited(m, t));
    assert(spec_step(mb, Token::CloseParen) is Some);
    assert(render(t) =~= open + render(value) + close);
}

/// From any state that expects an operand, running a rendering deposits
/// exactly the rendered tree on the operand stack and touches nothing else.
proof fn lemma_run_from_render(m: ParserModel, t: AstNode)
    requires
        m.last_was_operator,
    ensures
        spec_run_from(m, render(t)) == Some(deposited(m, t)),
    decreases t,
{
    match t {
        AstNode::Constant { value } => {
            lemma_run_from_one(m, Token::Constant(value));
            assert(spec_run_from(m, render(t)).unwrap() =~= deposited(m, t));
        },
        AstNode::BinaryOperator { kind, left, right } => {
            lemma_run_from_render(opened(m), *left);
            lemma_run_from_render(binary_mid(m, kind, *left), *right);
            lemma_render_binary_case(m, kind, *left, *right);
        },
        AstNode::UnaryOperator { kind, value } => {
            lemma_run_from_render(signed(m, kind), *value);
            lemma_render_unary_case(m, kind, *value);
        },
    }
}

/// The printer and the parser agree: every tree, rendered in fully
/// parenthesized form, parses back to exactly that tree. Every tree the
/// parser can build is thus reachable, and rendering loses nothing.
pub proof fn lemma_render_round_trip(t: AstNode)
    ensures
        spec_parse(render(t)) == Some(t),
{
    lemma_run_from_initial(render(t));
    lemma_run_from_render(initial_model(), t);
    let m = spec_run(render(t)).unwrap();
    assert(m.operand_stack =~= seq![t]);
    assert(spec_drain(m) == Some(m));
}

/// A successful parse keeps the constants exactly: the leaves of the tree,
/// read left to right, are the payloads of the constant tokens, in their
/// original order — nothing is lost, invented, duplicated or reordered.
pub proof fn lemma_parse_keeps_constants(tokens: Seq<Token>)
    requires
        spec_parse(tokens) is Some,
    ensures
        tree_leaves(spec_parse(tokens).unwrap()) == token_constants(tokens),
{
    lemma_run_collects_leaves(tokens);
    let m = spec_run(tokens).unwrap();
    lemma_drain_keeps_leaves(m);
    let m1 = spec_drain(m).unwrap();
    assert(m1.operand_stack.len() == 1);
    assert(m1.operand_stack.drop_last() =~= Seq::<AstNode>::empty());
    assert(stack_leaves(Seq::<AstNode>::empty()) == Seq::<u64>::empty());
    assert(stack_leaves(m1.operand_stack) == stack_leaves(m1.operand_stack.drop_last())
        + tree_leaves(m1.operand_stack.last()));
    assert(m1.operand_stack[0] == m1.operand_stack.last());
    assert(Seq::<u64>::empty() + tree_leaves(m1.operand_stack.last()) =~= tree_leaves(
        m1.operand_stack.last(),
    ));
    assert(spec_parse(tokens).unwrap() == m1.operand_stack[0]);
}

} // verus!
