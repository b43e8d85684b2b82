//! Source text to statements.

pub mod lexer;
pub mod parser;
