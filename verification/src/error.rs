//! Why a scan failed, and where.

use vstd::prelude::*;

verus! {

/// The reasons for which a scan fails.
#[derive(Debug, Clone, Copy, PartialEq, Eq, Structural)]
pub enum ErrorKind {
    /// The prefix of a binary, octal or hexadecimal literal is followed by no digit of
    /// its base.
    ExpectedDigit,
    /// A character starts no token.
    UnknownCharacter,
    /// A block comment is opened and never closed.
    UnterminatedComment,
    /// The suffix `n` follows a literal with an exponent, which is no integer notation.
    MalformedBigInt,
    /// A binary, octal or hexadecimal literal is worth more than 64 bits hold.
    NumberTooLarge,
}

impl ErrorKind {
    /// The message of each kind.
    pub open spec fn message_text(self) -> Seq<char> {
        match self {
            ErrorKind::ExpectedDigit => "expected digit"@,
            ErrorKind::UnknownCharacter => "unknown character"@,
            ErrorKind::UnterminatedComment => "unterminated comment"@,
            ErrorKind::MalformedBigInt => "malformed big integer"@,
            ErrorKind::NumberTooLarge => "number too large"@,
        }
    }

    /// The message that a diagnostic shows for this kind.
    pub fn message(&self) -> (text: &'static str)
        ensures
            text@ == self.message_text(),
    {
        match self {
            ErrorKind::ExpectedDigit => "expected digit",
            ErrorKind::UnknownCharacter => "unknown character",
            ErrorKind::UnterminatedComment => "unterminated comment",
            ErrorKind::MalformedBigInt => "malformed big integer",
            ErrorKind::NumberTooLarge => "number too large",
        }
    }
}

/// A failed scan: the offending text, where it stands, the line around it, and the name
/// under which the source goes.
#[derive(Debug, PartialEq, Eq)]
pub struct Error<'a, 'b> {
    /// The offending text; empty where the input ends too early.
    pub lexeme: &'a str,
    /// The line of the offending text, from 1.
    pub line: usize,
    /// The column of the offending text, from 1.
    pub column: usize,
    /// The text of the offending line, without its line ending.
    pub context: &'a str,
    pub filename: &'b str,
    pub kind: ErrorKind,
}

/// The mathematical content of an [`Error`].
pub struct ErrorView {
    pub lexeme: Seq<char>,
    pub line: int,
    pub column: int,
    pub context: Seq<char>,
    pub filename: Seq<char>,
    pub kind: ErrorKind,
}

impl<'a, 'b> View for Error<'a, 'b> {
    type V = ErrorView;

    open spec fn view(&self) -> ErrorView {
        ErrorView {
            lexeme: self.lexeme@,
            line: self.line as int,
            column: self.column as int,
            context: self.context@,
            filename: self.filename@,
            kind: self.kind,
        }
    }
}

impl<'a, 'b> Error<'a, 'b> {
    /// An error of `kind` about `lexeme`, found at `line` and `column` of `filename`,
    /// where `context` is the text of that line.
    pub fn new(
        lexeme: &'a str,
        line: usize,
        column: usize,
        context: &'a str,
        filename: &'b str,
        kind: ErrorKind,
    ) -> (error: Error<'a, 'b>)
        ensures
            error@ == (ErrorView {
                lexeme: lexeme@,
                line: line as int,
                column: column as int,
                context: context@,
                filename: filename@,
                kind,
            }),
    {
        Error { lexeme, line, column, context, filename, kind }
    }
}

} // verus!
