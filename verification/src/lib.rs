//! Front end for a small scripting dialect: a lexical scanner that turns
//! source text into tokens, and a recursive-descent parser that turns the
//! token stream into an abstract syntax tree.

pub mod chars;
pub mod lexer;
pub mod parser;
pub mod laws;
