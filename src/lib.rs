//! An arithmetic expression evaluator: a tokenizer, a recursive-descent
//! parser, a tree evaluator generic over its number type, and the per-line
//! session step that carries the last result from one line to the next.
pub mod diagnostic;
pub mod eval;
pub mod lexer;
pub mod parser;
pub mod precedence;
pub mod session;
pub mod text;
