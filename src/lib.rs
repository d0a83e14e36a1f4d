//! Front end of a small expression language: a lexer, a recursive-descent
//! parser and a renderer of the resulting syntax tree.
pub mod token;
mod text;
pub mod lexical;
pub mod scanner;
pub mod expr;
pub mod grammar;
pub mod parser;
pub mod astprinter;
