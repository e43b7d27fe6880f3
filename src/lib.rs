//! Front end for a small imperative language: a tokenizer that turns source
//! text into position-tagged tokens, and a parser that builds a syntax tree
//! for variable declarations and arithmetic expressions.

pub mod text;
pub mod token;
pub mod lexer;
pub mod lexer_laws;
pub mod ast;
pub mod parser;
pub mod parser_laws;
