//! A small imperative teaching language: an abstract syntax tree, a
//! recursive-descent parser with precedence climbing over a token stream,
//! and a tree-walking evaluator over a flat variable store.
//!
//! The token stream itself is produced outside this library (a scanner is an
//! external collaborator); the parser here consumes a vector of tokens that
//! ends with an end-marker token.

pub mod interpreter;
pub mod language;
pub mod lexer;
pub mod parser;
