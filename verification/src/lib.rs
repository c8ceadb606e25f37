//! Dex: lexer, parser and abstract syntax of a small expression-oriented language.

pub mod ast;
pub mod evaluator;
pub mod grammar;
pub mod interpreter;
pub mod lexer;
pub mod literal;
pub mod parser;
pub mod token;

pub use lexer::Lexer;
pub use token::{Token, TokenKind};
