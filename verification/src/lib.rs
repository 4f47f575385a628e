//! A front end for a small subset of the Go language: a tokenizer that turns
//! source text into classified lexemes, and a recursive-descent parser that
//! builds an abstract syntax tree of statements and expressions, recovering
//! from malformed input instead of aborting.

pub mod ast;
pub mod errors;
pub mod lexer;
pub mod parser;
pub mod position;
pub mod token;
pub mod token_type;
