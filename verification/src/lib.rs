//! Front end for a small expression language: a tokenizer that turns source
//! text into a stream of classified tokens, and a recursive-descent parser
//! with precedence climbing that turns the token stream into a syntax tree.
//! Both are specified against a mathematical model of the scan and of the
//! grammar, and verified against it.

pub mod ast;
pub mod lexer;
pub mod parser;
pub mod token;
