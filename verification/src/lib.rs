//! Ekanite: a tokenizer, a recursive-descent parser, scoped environments and
//! the decision logic of a tree-walking evaluator for a small language.

pub mod lexer;
pub mod parser;
pub mod env;
pub mod eval;
