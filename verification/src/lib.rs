//! An infix arithmetic expression parser and its supporting types.
//!
//! The parser consumes a flat sequence of tokens (numeric constants, operator
//! symbols, parentheses) and builds an abstract syntax tree, resolving binary
//! operator precedence, associativity, and the unary/binary ambiguity of `+`
//! and `-`. Constant payloads are carried through opaquely, so callers may
//! store any 64-bit encoding of their numeric type.

pub mod laws;
pub mod parser;
pub mod token;
