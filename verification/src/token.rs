//! Tokens and what they are worth.

use vstd::prelude::*;
use crate::number::BigNat;

verus! {

/// What a number token is worth, as the source wrote it.
#[derive(Debug, PartialEq, Eq)]
pub enum NumberValue<'a> {
    /// A decimal notation: digits, then optionally a point with digits, then optionally
    /// an exponent mark with an optionally negative run of digits. It is the part of the
    /// lexeme that carries the value: an exponent mark that no digits follow is left out.
    Decimal(&'a str),
    /// The value of a literal written in base 2, 8 or 16.
    Integer(u64),
}

/// The mathematical content of a [`NumberValue`].
pub enum NumberView {
    Decimal(Seq<char>),
    Integer(nat),
}

impl<'a> View for NumberValue<'a> {
    type V = NumberView;

    open spec fn view(&self) -> NumberView {
        match self {
            NumberValue::Decimal(notation) => NumberView::Decimal(notation@),
            NumberValue::Integer(value) => NumberView::Integer(*value as nat),
        }
    }
}

/// The sort of a token, with the value of a numeric literal.
#[derive(Debug, PartialEq, Eq)]
pub enum TokenKind<'a> {
    Bracket,
    Punctuation,
    Operator,
    /// The end of the input.
    Eof,
    /// A literal of limited precision.
    Number(NumberValue<'a>),
    /// An integer literal of any size, marked by the suffix `n`.
    BigInt(BigNat),
}

/// The mathematical content of a [`TokenKind`].
pub enum KindView {
    Bracket,
    Punctuation,
    Operator,
    Eof,
    Number(NumberView),
    BigInt(nat),
}

impl<'a> View for TokenKind<'a> {
    type V = KindView;

    open spec fn view(&self) -> KindView {
        match self {
            TokenKind::Bracket => KindView::Bracket,
            TokenKind::Punctuation => KindView::Punctuation,
            TokenKind::Operator => KindView::Operator,
            TokenKind::Eof => KindView::Eof,
            TokenKind::Number(value) => KindView::Number(value@),
            TokenKind::BigInt(value) => KindView::BigInt(value@),
        }
    }
}

/// A token: a stretch of the source, where it starts, and its sort.
#[derive(Debug, PartialEq, Eq)]
pub struct Token<'a> {
    /// The text of the token, as it stands in the source.
    pub lexeme: &'a str,
    /// The line of its first character, from 1.
    pub line: usize,
    /// The column of its first character, from 1; 0 for the end of the input.
    pub column: usize,
    pub kind: TokenKind<'a>,
}

/// The mathematical content of a [`Token`].
pub struct TokenView {
    pub lexeme: Seq<char>,
    pub line: int,
    pub column: int,
    pub kind: KindView,
}

impl<'a> View for Token<'a> {
    type V = TokenView;

    open spec fn view(&self) -> TokenView {
        TokenView {
            lexeme: self.lexeme@,
            line: self.line as int,
            column: self.column as int,
            kind: self.kind@,
        }
    }
}

/// The contents of a run of tokens.
pub open spec fn token_views<'a>(tokens: Seq<Token<'a>>) -> Seq<TokenView> {
    tokens.map_values(|token: Token<'a>| token@)
}

} // verus!
