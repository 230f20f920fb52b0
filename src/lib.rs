//! Front end of a small indentation-structured scripting language: a
//! position-tracking tokenizer and a parser that builds the syntax tree.
pub mod lexer;
pub mod parser;
pub mod source;
