//! A small recursive-descent parsing toolkit.
//!
//! The crate builds two grammars on one shared abstract-syntax-tree type:
//! a relaxed JSON-like document parser (trailing commas and empty
//! collections are allowed, strings are runs of a fixed character set)
//! and an arithmetic-expression evaluator with operator precedence.
//! Every parser consumes a prefix of its input and returns the unconsumed
//! remainder together with an optional tree fragment; its behaviour is
//! specified exactly against a mathematical model of the grammar.

pub mod ast;
pub mod scan;
pub mod json;
pub mod math;
pub mod combinators;
pub mod rustifier;
pub mod laws;
