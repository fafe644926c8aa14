//! The description language.

pub mod ast;
pub mod compiler;
pub mod lexer;
pub mod parser;
pub mod spelling;
