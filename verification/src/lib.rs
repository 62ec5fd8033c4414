//! A lexer for a small Rust-like language.
//!
//! The scanner walks a character sequence exactly once, left to right, and
//! splits it into tokens: multi-character operators, punctuation, comments,
//! string and character literals (values discarded, only the kind recorded),
//! identifiers and lifetime markers.  Every token the scanner emits is proved
//! to agree with a mathematical model of the token grammar, stated over
//! `Seq<char>` in the `model` module.
//!
//! The produced sequence carries no trailing `Eof` marker: the scanner is a
//! pull-based source of tokens that simply reports the end of input.  A
//! character that no rule recognizes, or a malformed or unterminated literal
//! or block comment, is a fatal `LexError`; the scanner never panics and
//! never loops forever.

pub mod classify;
pub mod laws;
pub mod model;
pub mod scan;
pub mod token;

pub use scan::{Tokenizer, tokenize};
pub use token::{BinaryOperator, LexError, LexErrorKind, PairedToken, Token};
