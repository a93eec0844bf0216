//! A lexical scanner for a small BASIC-like language.
//!
//! The scanner owns the program text as a buffer of characters and hands out
//! one token per call. Every executable function carries a contract over the
//! mathematical model in [`grammar`], and the properties that hold of a whole
//! run are proved in [`laws`].

pub mod chars;
pub mod grammar;
pub mod laws;
pub mod lexer;
pub mod token;

pub use lexer::Lexer;
pub use token::{LexError, Token, TokenKind, TokenView};
