//! An operator-precedence (shunting-yard) parser from tokens to a syntax tree.
//!
//! The parser makes a single left-to-right pass over the tokens, keeping a
//! stack of finished subtrees (operands) and a stack of pending operators.
//! Binary operators reduce the stacks according to precedence and
//! associativity; unary `+`/`-` are recognized wherever an operand is
//! expected and always bind tighter than any binary operator.
//!
//! The behaviour of [`parse_expression`] is pinned down exactly: its result
//! equals [`spec_parse`], a mathematical model of the same single pass, and
//! the laws proved in [`crate::laws`] describe that model declaratively.

use vstd::prelude::*;

use crate::token::{Operator, Token};

verus! {

/// An operator as it lives on the parser's operator stack. Unlike the lexical
/// [`Operator`], this distinguishes unary from binary `+`/`-`, and it has a
/// variant for the open-parenthesis marker that fences off reductions.
#[derive(Debug, PartialEq, Eq, Structural, Clone, Copy)]
pub enum ShuntOperator {
    Plus,
    Minus,
    Times,
    Divide,
    Exponent,
    UnaryPlus,
    UnaryMinus,
    OpenParen,
}

/// The operator of an inner tree node with two children.
#[derive(Debug, PartialEq, Eq, Structural, Clone, Copy)]
pub enum BinaryOperatorKind {
    Plus,
    Minus,
    Times,
    Divide,
    Exponent,
}

/// The operator of an inner tree node with one child.
#[derive(Debug, PartialEq, Eq, Structural, Clone, Copy)]
pub enum UnaryOperatorKind {
    Plus,
    Minus,
}

/// A node of the abstract syntax tree. Each node owns its children; the tree
/// is immutable once built. Constant payloads are the tokens' payloads,
/// carried through the parser unchanged.
#[derive(Debug, PartialEq)]
#[allow(inconsistent_fields)]
pub enum AstNode {
    Constant { value: u64 },
    BinaryOperator { kind: BinaryOperatorKind, left: Box<AstNode>, right: Box<AstNode> },
    UnaryOperator { kind: UnaryOperatorKind, value: Box<AstNode> },
}

/// The binding strength of a stack operator. Unary operators outrank every
/// binary operator, and the open-parenthesis marker ranks below everything,
/// so no reduction crosses it.
pub open spec fn spec_precedence(op: ShuntOperator) -> u8 {
    match op {
        ShuntOperator::Plus => 1,
        ShuntOperator::Minus => 1,
        ShuntOperator::Times => 2,
        ShuntOperator::Divide => 2,
        ShuntOperator::Exponent => 3,
        ShuntOperator::UnaryPlus => 254,
        ShuntOperator::UnaryMinus => 254,
        ShuntOperator::OpenParen => 0,
    }
}

/// Whether the stack operator takes a single operand.
pub open spec fn spec_is_unary(op: ShuntOperator) -> bool {
    match op {
        ShuntOperator::UnaryPlus => true,
        ShuntOperator::UnaryMinus => true,
        _ => false,
    }
}

/// Whether equal precedences reduce left-to-right. Only exponentiation
/// groups to the right.
pub open spec fn spec_is_left_associative(op: ShuntOperator) -> bool {
    match op {
        ShuntOperator::Exponent => false,
        _ => true,
    }
}

/// The stack operator a lexical operator maps to when it is read in binary
/// position.
pub open spec fn spec_from_lex_operator(operator: Operator) -> ShuntOperator {
    match operator {
        Operator::Plus => ShuntOperator::Plus,
        Operator::Minus => ShuntOperator::Minus,
        Operator::Times => ShuntOperator::Times,
        Operator::Divide => ShuntOperator::Divide,
        Operator::Exponent => ShuntOperator::Exponent,
    }
}

/// The tree-node kind built when the stack operator reduces as a binary
/// operator, or `None` for the variants that are not binary operators.
pub open spec fn spec_to_binary_operator(op: ShuntOperator) -> Option<BinaryOperatorKind> {
    match op {
        ShuntOperator::Plus => Some(BinaryOperatorKind::Plus),
        ShuntOperator::Minus => Some(BinaryOperatorKind::Minus),
        ShuntOperator::Times => Some(BinaryOperatorKind::Times),
        ShuntOperator::Divide => Some(BinaryOperatorKind::Divide),
        ShuntOperator::Exponent => Some(BinaryOperatorKind::Exponent),
        _ => None,
    }
}

/// The tree-node kind built when the stack operator reduces as a unary
/// operator, or `None` for the variants that are not unary operators.
pub open spec fn spec_to_unary_operator(op: ShuntOperator) -> Option<UnaryOperatorKind> {
    match op {
        ShuntOperator::UnaryPlus => Some(UnaryOperatorKind::Plus),
        ShuntOperator::UnaryMinus => Some(UnaryOperatorKind::Minus),
        _ => None,
    }
}

impl ShuntOperator {
    /// The stack operator for a lexical operator read in binary position.
    pub fn from_lex_operator(operator: &Operator) -> (op: ShuntOperator)
        ensures
            op == spec_from_lex_operator(*operator),
    {
        match *operator {
            Operator::Plus => ShuntOperator::Plus,
            Operator::Minus => ShuntOperator::Minus,
            Operator::Times => ShuntOperator::Times,
            Operator::Divide => ShuntOperator::Divide,
            Operator::Exponent => ShuntOperator::Exponent,
        }
    }

    /// The binary tree-node kind for this stack operator, if it is binary.
    pub fn to_binary_operator(&self) -> (kind: Option<BinaryOperatorKind>)
        ensures
            kind == spec_to_binary_operator(*self),
    {
        match *self {
            ShuntOperator::Plus => Some(BinaryOperatorKind::Plus),
            ShuntOperator::Minus => Some(BinaryOperatorKind::Minus),
            ShuntOperator::Times => Some(BinaryOperatorKind::Times),
            ShuntOperator::Divide => Some(BinaryOperatorKind::Divide),
            ShuntOperator::Exponent => Some(BinaryOperatorKind::Exponent),
            _ => None,
        }
    }

    /// The unary tree-node kind for this stack operator, if it is unary.
    pub fn to_unary_operator(&self) -> (kind: Option<UnaryOperatorKind>)
        ensures
            kind == spec_to_unary_operator(*self),
    {
        match *self {
            ShuntOperator::UnaryPlus => Some(UnaryOperatorKind::Plus),
            ShuntOperator::UnaryMinus => Some(UnaryOperatorKind::Minus),
            _ => None,
        }
    }

    /// The binding strength used by the reduction loop.
    pub fn precedence(&self) -> (p: u8)
        ensures
            p == spec_precedence(*self),
    {
        match *self {
            ShuntOperator::Plus | ShuntOperator::Minus => 1,
            ShuntOperator::Times | ShuntOperator::Divide => 2,
            ShuntOperator::Exponent => 3,
            ShuntOperator::UnaryPlus | ShuntOperator::UnaryMinus => 254,
            _ => 0,
        }
    }

    /// Whether this stack operator takes a single operand.
    pub fn is_unary(&self) -> (u: bool)
        ensures
            u == spec_is_unary(*self),
    {
        match *self {
            ShuntOperator::UnaryPlus | ShuntOperator::UnaryMinus => true,
            _ => false,
        }
    }

    /// Whether equal precedences reduce left-to-right.
    pub fn is_left_associative(&self) -> (l: bool)
        ensures
            l == spec_is_left_associative(*self),
    {
        match *self {
            ShuntOperator::Exponent => false,
            _ => true,
        }
    }
}

/// The parser's working state, as mathematics: the two stacks with their tops
/// at the end of the sequences, and the operand-expected flag.
#[verifier::ext_equal]
pub ghost struct ParserModel {
    pub operator_stack: Seq<ShuntOperator>,
    pub operand_stack: Seq<AstNode>,
    pub last_was_operator: bool,
}

/// The state before any token has been consumed: empty stacks, and an operand
/// expected (so a leading `+`/`-` is unary).
pub open spec fn initial_model() -> ParserModel {
    ParserModel {
        operator_stack: Seq::empty(),
        operand_stack: Seq::empty(),
        last_was_operator: true,
    }
}

/// One pop-and-reduce step: the top operator comes off the operator stack and
/// combines with one operand (unary) or two (binary) into a new subtree.
/// `None` when the reduction is impossible — no operator at all, too few
/// operands, or an open-parenthesis marker on top (a marker is only ever
/// removed by its matching close parenthesis, so reducing one means the
/// parentheses were unbalanced).
pub open spec fn spec_reduce_one(m: ParserModel) -> Option<ParserModel> {
    if m.operator_stack.len() == 0 {
        None
    } else {
        let op = m.operator_stack.last();
        if spec_is_unary(op) {
            if m.operand_stack.len() < 1 {
                None
            } else {
                match spec_to_unary_operator(op) {
                    Some(kind) => Some(ParserModel {
                        operator_stack: m.operator_stack.drop_last(),
                        operand_stack: m.operand_stack.drop_last().push(
                            AstNode::UnaryOperator {
                                kind,
                                value: Box::new(m.operand_stack.last()),
                            },
                        ),
                        last_was_operator: m.last_was_operator,
                    }),
                    None => None,
                }
            }
        } else {
            match spec_to_binary_operator(op) {
                None => None,
                Some(kind) => {
                    if m.operand_stack.len() < 2 {
                        None
                    } else {
                        Some(ParserModel {
                            operator_stack: m.operator_stack.drop_last(),
                            operand_stack: m.operand_stack.drop_last().drop_last().push(
                                AstNode::BinaryOperator {
                                    kind,
                                    left: Box::new(m.operand_stack[m.operand_stack.len() - 2]),
                                    right: Box::new(m.operand_stack.last()),
                                },
                            ),
                            last_was_operator: m.last_was_operator,
                        })
                    }
                },
            }
        }
    }
}

/// The reductions a newly read binary operator forces before it is pushed:
/// every stacked operator that binds at least as tightly reduces first, except
/// that on equal precedence a right-associative newcomer stops (that is what
/// right-accumulates exponent chains). The open-parenthesis marker, with
/// precedence zero, always stops the loop.
pub open spec fn spec_reduce_for_binary(m: ParserModel, prec: u8, left_assoc: bool) -> Option<
    ParserModel,
>
    decreases m.operator_stack.len(),
{
    if m.operator_stack.len() == 0 {
        Some(m)
    } else {
        let stop = if left_assoc {
            prec > spec_precedence(m.operator_stack.last())
        } else {
            prec >= spec_precedence(m.operator_stack.last())
        };
        if stop {
            Some(m)
        } else {
            match spec_reduce_one(m) {
                None => None,
                Some(m1) => spec_reduce_for_binary(m1, prec, left_assoc),
            }
        }
    }
}

/// The reductions a close parenthesis forces: everything down to the nearest
/// open-parenthesis marker reduces, and the marker itself is discarded.
/// `None` when the operator stack runs out first — an unmatched close
/// parenthesis — or a reduction fails.
pub open spec fn spec_reduce_group(m: ParserModel) -> Option<ParserModel>
    decreases m.operator_stack.len(),
{
    if m.operator_stack.len() == 0 {
        None
    } else if m.operator_stack.last() == ShuntOperator::OpenParen {
        Some(ParserModel {
            operator_stack: m.operator_stack.drop_last(),
            operand_stack: m.operand_stack,
            last_was_operator: m.last_was_operator,
        })
    } else {
        match spec_reduce_one(m) {
            None => None,
            Some(m1) => spec_reduce_group(m1),
        }
    }
}

/// The role a lexical operator takes: `+`/`-` are unary exactly where an
/// operand is expected; every other symbol, and every symbol after an
/// operand, is binary.
pub open spec fn spec_resolve_operator(operator: Operator, last_was_operator: bool) -> ShuntOperator {
    if last_was_operator && operator == Operator::Plus {
        ShuntOperator::UnaryPlus
    } else if last_was_operator && operator == Operator::Minus {
        ShuntOperator::UnaryMinus
    } else {
        spec_from_lex_operator(operator)
    }
}

/// The effect of one token on the parser state, or `None` when the token
/// exposes malformed input. A unary operator is pushed unconditionally — it
/// never triggers the precedence loop.
pub open spec fn spec_step(m: ParserModel, token: Token) -> Option<ParserModel> {
    match token {
        Token::Constant(value) => Some(ParserModel {
            operator_stack: m.operator_stack,
            operand_stack: m.operand_stack.push(AstNode::Constant { value }),
            last_was_operator: false,
        }),
        Token::Operator(lex_operator) => {
            let op = spec_resolve_operator(lex_operator, m.last_was_operator);
            if spec_is_unary(op) {
                Some(ParserModel {
                    operator_stack: m.operator_stack.push(op),
                    operand_stack: m.operand_stack,
                    last_was_operator: true,
                })
            } else {
                match spec_reduce_for_binary(m, spec_precedence(op), spec_is_left_associative(op)) {
                    None => None,
                    Some(m1) => Some(ParserModel {
                        operator_stack: m1.operator_stack.push(op),
                        operand_stack: m1.operand_stack,
                        last_was_operator: true,
                    }),
                }
            }
        },
        Token::OpenParen => Some(ParserModel {
            operator_stack: m.operator_stack.push(ShuntOperator::OpenParen),
            operand_stack: m.operand_stack,
            last_was_operator: true,
        }),
        Token::CloseParen => match spec_reduce_group(m) {
            None => None,
            Some(m1) => Some(ParserModel {
                operator_stack: m1.operator_stack,
                operand_stack: m1.operand_stack,
                last_was_operator: false,
            }),
        },
    }
}

/// The parser state after consuming a whole token sequence, left to right, or
/// `None` if some token failed.
pub open spec fn spec_run(tokens: Seq<Token>) -> Option<ParserModel>
    decreases tokens.len(),
{
    if tokens.len() == 0 {
        Some(initial_model())
    } else {
        match spec_run(tokens.drop_last()) {
            None => None,
            Some(m) => spec_step(m, tokens.last()),
        }
    }
}

/// The reductions after the last token: every remaining operator reduces.
/// A leftover open-parenthesis marker fails here — its close parenthesis
/// never came.
pub open spec fn spec_drain(m: ParserModel) -> Option<ParserModel>
    decreases m.operator_stack.len(),
{
    if m.operator_stack.len() == 0 {
        Some(m)
    } else {
        match spec_reduce_one(m) {
            None => None,
            Some(m1) => spec_drain(m1),
        }
    }
}

/// What parsing a token sequence yields: run every token, drain the operator
/// stack, and demand that exactly one finished tree remains — that tree is
/// the result. Anything else is a malformed expression.
pub open spec fn spec_parse(tokens: Seq<Token>) -> Option<AstNode> {
    match spec_run(tokens) {
        None => None,
        Some(m) => match spec_drain(m) {
            None => None,
            Some(m1) => if m1.operand_stack.len() == 1 {
                Some(m1.operand_stack[0])
            } else {
                None
            },
        },
    }
}

/// The parser's working state: a stack of finished subtrees, a stack of
/// pending operators, and the flag that disambiguates unary `+`/`-`.
pub struct ShuntingState {
    pub operator_stack: Vec<ShuntOperator>,
    pub operand_stack: Vec<AstNode>,
    /// True at the start and right after an operator or `(` — exactly the
    /// positions where an operand is expected, so where `+`/`-` are unary.
    pub last_was_operator: bool,
}

impl View for ShuntingState {
    type V = ParserModel;

    open spec fn view(&self) -> ParserModel {
        ParserModel {
            operator_stack: self.operator_stack@,
            operand_stack: self.operand_stack@,
            last_was_operator: self.last_was_operator,
        }
    }
}

impl ShuntingState {
    /// The state before any token has been consumed.
    pub fn new() -> (state: ShuntingState)
        ensures
            state@ == initial_model(),
    {
        let state = ShuntingState {
            operator_stack: Vec::new(),
            operand_stack: Vec::new(),
            last_was_operator: true,
        };
        proof {
            assert(state@ =~= initial_model());
        }
        state
    }

    /// Takes the top operator from the operator stack and pairs it up with
    /// the appropriate number of operands from the operand stack, pushing the
    /// combined tree node back. Returns false and leaves the state unchanged
    /// when no such reduction is possible.
    pub fn clear_one_operator(&mut self) -> (ok: bool)
        ensures
            match spec_reduce_one(old(self)@) {
                Some(m) => ok && final(self)@ == m,
                None => !ok && final(self)@ == old(self)@,
            },
    {
        let ops_len = self.operator_stack.len();
        if ops_len == 0 {
            return false;
        }
        let top = self.operator_stack[ops_len - 1];
        if top.is_unary() {
            if self.operand_stack.len() < 1 {
                return false;
            }
            let kind = match top.to_unary_operator() {
                Some(kind) => kind,
                None => unreached(),
            };
            self.operator_stack.pop();
            let right = match self.operand_stack.pop() {
                Some(right) => right,
                None => unreached(),
            };
            self.operand_stack.push(AstNode::UnaryOperator { kind, value: Box::new(right) });
            proof {
                assert(self@ =~= spec_reduce_one(old(self)@).unwrap());
            }
            true
        } else {
            let kind = match top.to_binary_operator() {
                Some(kind) => kind,
                None => {
                    return false;
                },
            };
            if self.operand_stack.len() < 2 {
                return false;
            }
            self.operator_stack.pop();
            let right = match self.operand_stack.pop() {
                Some(right) => right,
                None => unreached(),
            };
            let left = match self.operand_stack.pop() {
                Some(left) => left,
                None => unreached(),
            };
            self.operand_stack.push(
                AstNode::BinaryOperator { kind, left: Box::new(left), right: Box::new(right) },
            );
            proof {
                assert(self@ =~= spec_reduce_one(old(self)@).unwrap());
            }
            true
        }
    }
}

/// Consuming the tokens up to position `i + 1` is consuming the tokens up to
/// `i` and then stepping on the token at `i`.
proof fn lemma_run_take_succ(tokens: Seq<Token>, i: int)
    requires
        0 <= i < tokens.len(),
    ensures
        spec_run(tokens.take(i)) is None ==> spec_run(tokens.take(i + 1)) is None,
        spec_run(tokens.take(i)) matches Some(m) ==> spec_run(tokens.take(i + 1)) == spec_step(
            m,
            tokens[i],
        ),
{
    assert(tokens.take(i + 1).drop_last() =~= tokens.take(i));
    assert(tokens.take(i + 1).last() == tokens[i]);
}

/// Once a prefix of the tokens has failed, the whole sequence fails: a single
/// pass never recovers.
proof fn lemma_run_none_extends(tokens: Seq<Token>, i: int)
    requires
        0 <= i <= tokens.len(),
        spec_run(tokens.take(i)) is None,
    ensures
        spec_run(tokens) is None,
    decreases tokens.len() - i,
{
    if i == tokens.len() {
        assert(tokens.take(i) =~= tokens);
    } else {
        lemma_run_take_succ(tokens, i);
        lemma_run_none_extends(tokens, i + 1);
    }
}

/// Construct an abstract syntax tree from the given list of tokens.
///
/// Returns `None` exactly when the expression is malformed — an empty input,
/// unbalanced parentheses in either direction, or an operator/operand count
/// mismatch — as [`spec_parse`] defines it; otherwise the resulting tree is
/// exactly `spec_parse(tokens@)`. The function never panics, whatever the
/// token sequence.
pub fn parse_expression(tokens: &Vec<Token>) -> (result: Option<AstNode>)
    ensures
        result == spec_parse(tokens@),
{
    let mut state = ShuntingState::new();
    let mut i: usize = 0;
    proof {
        assert(tokens@.take(0) =~= Seq::<Token>::empty());
    }
    while i < tokens.len()
        invariant
            i <= tokens@.len(),
            spec_run(tokens@.take(i as int)) == Some(state@),
        decreases tokens@.len() - i,
    {
        let token = tokens[i];
        let ghost m_entry = state@;
        match token {
            Token::Constant(value) => {
                state.operand_stack.push(AstNode::Constant { value });
                state.last_was_operator = false;
                proof {
                    assert(spec_step(m_entry, token).unwrap() =~= state@);
                }
            },
            Token::Operator(lex_operator) => {
                // Where an operand is expected, a `+` or `-` is unary; every
                // other operator symbol keeps its binary meaning.
                let operator = match lex_operator {
                    Operator::Plus => if state.last_was_operator {
                        ShuntOperator::UnaryPlus
                    } else {
                        ShuntOperator::Plus
                    },
                    Operator::Minus => if state.last_was_operator {
                        ShuntOperator::UnaryMinus
                    } else {
                        ShuntOperator::Minus
                    },
                    _ => ShuntOperator::from_lex_operator(&lex_operator),
                };
                proof {
                    assert(operator == spec_resolve_operator(
                        lex_operator,
                        m_entry.last_was_operator,
                    ));
                }
                if !operator.is_unary() {
                    // A binary operator first forces every reduction that
                    // precedence and associativity demand.
                    let prec = operator.precedence();
                    let la = operator.is_left_associative();
                    loop
                        invariant
                            i < tokens@.len(),
                            tokens@[i as int] == Token::Operator(lex_operator),
                            spec_run(tokens@.take(i as int)) == Some(m_entry),
                            operator == spec_resolve_operator(
                                lex_operator,
                                m_entry.last_was_operator,
                            ),
                            !spec_is_unary(operator),
                            prec == spec_precedence(operator),
                            la == spec_is_left_associative(operator),
                            spec_reduce_for_binary(m_entry, prec, la) == spec_reduce_for_binary(
                                state@,
                                prec,
                                la,
                            ),
                        ensures
                            spec_reduce_for_binary(m_entry, prec, la) == Some(state@),
                        decreases state.operator_stack.len(),
                    {
                        let ops_len = state.operator_stack.len();
                        if ops_len == 0 {
                            break;
                        }
                        let top = state.operator_stack[ops_len - 1];
                        let stop = if la {
                            prec > top.precedence()
                        } else {
                            prec >= top.precedence()
                        };
                        if stop {
                            break;
                        }
                        if !state.clear_one_operator() {
                            proof {
                                assert(spec_reduce_for_binary(m_entry, prec, la) is None);
                                assert(spec_step(m_entry, tokens@[i as int]) is None);
                                lemma_run_take_succ(tokens@, i as int);
                                lemma_run_none_extends(tokens@, i as int + 1);
                            }
                            return None;
                        }
                    }
                    state.operator_stack.push(operator);
                } else {
                    // A unary operator binds tightest of all: it is pushed
                    // unconditionally, with no reduction first.
                    state.operator_stack.push(operator);
                }
                state.last_was_operator = true;
                proof {
                    assert(spec_step(m_entry, token).unwrap() =~= state@);
                }
            },
            Token::OpenParen => {
                state.operator_stack.push(ShuntOperator::OpenParen);
                state.last_was_operator = true;
                proof {
                    assert(spec_step(m_entry, token).unwrap() =~= state@);
                }
            },
            Token::CloseParen => {
                // Reduce up to the matching open parenthesis and discard it;
                // running out of operators first means the parenthesis had no
                // match, which fails the whole parse.
                loop
                    invariant_except_break
                        i < tokens@.len(),
                        tokens@[i as int] == Token::CloseParen,
                        spec_run(tokens@.take(i as int)) == Some(m_entry),
                        spec_reduce_group(m_entry) == spec_reduce_group(state@),
                    ensures
                        spec_reduce_group(m_entry) == Some(state@),
                    decreases state.operator_stack.len(),
                {
                    let ops_len = state.operator_stack.len();
                    if ops_len == 0 {
                        proof {
                            assert(spec_reduce_group(m_entry) is None);
                            assert(spec_step(m_entry, tokens@[i as int]) is None);
                            lemma_run_take_succ(tokens@, i as int);
                            lemma_run_none_extends(tokens@, i as int + 1);
                        }
                        return None;
                    }
                    let top = state.operator_stack[ops_len - 1];
                    if top == ShuntOperator::OpenParen {
                        state.operator_stack.pop();
                        proof {
                            assert(spec_reduce_group(m_entry).unwrap() =~= state@);
                        }
                        break;
                    }
                    if !state.clear_one_operator() {
                        proof {
                            assert(spec_reduce_group(m_entry) is None);
                            assert(spec_step(m_entry, tokens@[i as int]) is None);
                            lemma_run_take_succ(tokens@, i as int);
                            lemma_run_none_extends(tokens@, i as int + 1);
                        }
                        return None;
                    }
                }
                state.last_was_operator = false;
                proof {
                    assert(spec_step(m_entry, token).unwrap() =~= state@);
                }
            },
        }
        proof {
            assert(spec_step(m_entry, token) == Some(state@));
            lemma_run_take_succ(tokens@, i as int);
        }
        i = i + 1;
    }
    proof {
        assert(tokens@.take(tokens@.len() as int) =~= tokens@);
    }
    let ghost m_final = state@;
    // Clean up any outstanding operators; a leftover open parenthesis or a
    // missing operand surfaces here.
    loop
        invariant
            spec_run(tokens@) == Some(m_final),
            spec_drain(m_final) == spec_drain(state@),
        ensures
            spec_drain(m_final) == Some(state@),
        decreases state.operator_stack.len(),
    {
        if state.operator_stack.len() == 0 {
            break;
        }
        if !state.clear_one_operator() {
            proof {
                assert(spec_drain(m_final) is None);
            }
            return None;
        }
    }
    // Success means the operand stack holds exactly the root of the tree.
    if state.operand_stack.len() != 1 {
        return None;
    }
    let root = match state.operand_stack.pop() {
        Some(root) => root,
        None => unreached(),
    };
    Some(root)
}

} // verus!
