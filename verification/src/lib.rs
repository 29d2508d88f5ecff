//! Front end of a small language: a tokenizer and a statement parser.
//!
//! [`lexer::Lexer`] turns source text into tokens, one per call, and
//! [`parser::Parser`] assembles `let` and `return` statements from them while
//! collecting diagnostics. Every function states its result over the
//! mathematical models defined beside it.

pub mod chars;
pub mod token;
pub mod lexer;
pub mod ast;
pub mod parser;
