//! A tokenizer for a small language of brackets, operators, punctuation and numbers.
//!
//! A [`Tokenizer`] turns source text into its tokens, each with the line and column at
//! which it starts, or into the one [`Error`] that stopped it, which can be rendered as a
//! diagnostic that shows the offending line.
//!
//! What the tokenizer hands out is fixed by the functions of [`grammar`] on the text of
//! the source; [`laws`] holds what follows for every source.

pub mod chars;
pub mod error;
pub mod grammar;
pub mod laws;
pub mod number;
pub mod position;
pub mod render;
pub mod scanner;
pub mod text;
pub mod token;

pub use crate::error::{Error, ErrorKind};
pub use crate::scanner::{run, Tokenizer};
pub use crate::token::{NumberValue, Token, TokenKind};
