//! Tokens, the token grammar, the lexer and the parser.

pub mod token;
pub mod scan;
pub mod stream;
pub mod error;
pub mod ranged;
pub mod with_offset;
pub mod lexer;
pub mod keyword;
pub mod identifier;
pub mod precedence;
pub mod ast;
pub mod interactive;
pub mod parse;
pub mod display;
