//! Front end of a small interpreted language: a lexer that turns ASCII source
//! text into tokens and a parser that turns tokens into a syntax tree.

pub mod ast;
pub mod grammar;
pub mod lexer;
pub mod parser;
pub mod scan;
pub mod text;
pub mod token;
