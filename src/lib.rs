//! A single-pass lexical scanner for a small C-like scripting language.
//!
//! The scanner works on the UTF-8 bytes of a borrowed source buffer and hands
//! out one token or one diagnostic per call, each tied to a byte span of the
//! original text.
pub mod ascii;
pub mod grammar;
pub mod token;
pub mod lexer;
pub mod laws;

pub use lexer::{tokenize, Diagnostic, ErrorKind, Lexer};
pub use token::{decode_string, Literal, Token, TokenKind};

