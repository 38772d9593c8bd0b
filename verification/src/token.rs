//! Token types produced by a tokenizer and consumed by the parser.

use vstd::prelude::*;

verus! {

/// A lexical operator symbol. At the token level a `+` or `-` is ambiguous
/// between its unary and binary meaning; only the parser can tell them apart.
#[derive(Debug, PartialEq, Eq, Structural, Clone, Copy)]
pub enum Operator {
    Plus,
    Minus,
    Times,
    Divide,
    Exponent,
}

/// One unit of input as recognized by a tokenizer.
///
/// The payload of `Constant` is opaque to the parser: it is carried into the
/// resulting tree unchanged. Callers that work with 64-bit floating point
/// numbers store the value's bit pattern here and decode it after parsing.
#[derive(Debug, PartialEq, Eq, Structural, Clone, Copy)]
pub enum Token {
    Constant(u64),
    Operator(Operator),
    OpenParen,
    CloseParen,
}

} // verus!
