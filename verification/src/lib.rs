//! Lexical and syntactic front-end of a small interpreted language:
//! a character-level scanner that turns source text into classified
//! tokens, and a recursive-descent parser with precedence climbing that
//! assembles those tokens into an abstract syntax tree.

pub mod ast;
pub mod laws;
pub mod lexer;
pub mod parser;
pub mod token;
