//! The diagnostic that shows an error to a reader.
//!
//! [`layout`] says what the diagnostic is made of: pieces of text, each in a tone.
//! [`Error::render`] paints the pieces and joins them.

use vstd::prelude::*;
use crate::error::{Error, ErrorView};

verus! {

/// The tone in which a piece of a diagnostic is shown.
#[derive(Debug, Clone, Copy, PartialEq, Eq, Structural)]
pub enum Tone {
    /// Not coloured.
    Plain,
    Red,
    White,
    Cyan,
}

/// A piece of a diagnostic: a text and its tone.
#[derive(Debug, PartialEq, Eq)]
pub struct Piece {
    pub tone: Tone,
    pub text: String,
}

/// The mathematical content of a [`Piece`].
pub struct PieceView {
    pub tone: Tone,
    pub text: Seq<char>,
}

impl View for Piece {
    type V = PieceView;

    open spec fn view(&self) -> PieceView {
        PieceView { tone: self.tone, text: self.text@ }
    }
}

/// The contents of a run of pieces.
pub open spec fn piece_views(pieces: Seq<Piece>) -> Seq<PieceView> {
    pieces.map_values(|piece: Piece| piece@)
}

/// The character that writes the digit `d`.
pub open spec fn digit_char(d: nat) -> char {
    (0x30 + d) as char
}

/// The decimal notation of `n`.
pub open spec fn decimal_text(n: nat) -> Seq<char>
    decreases n,
{
    if n < 10 {
        seq![digit_char(n)]
    } else {
        decimal_text(n / 10).push(digit_char(n % 10))
    }
}

/// The character `c`, `count` times.
pub open spec fn repeated(c: char, count: nat) -> Seq<char> {
    Seq::new(count, |i: int| c)
}

/// The number of spaces between the gutter and the mark under the offending text: as
/// many as the column, and one at least.
pub open spec fn indent(column: int) -> nat {
    if column < 1 {
        1
    } else {
        column as nat
    }
}

/// What the diagnostic of an error is made of.
///
/// A header with the message of the kind; a locator `--> filename:line:column`; an empty
/// gutter line; the offending line behind its number; a gutter line with a mark of one
/// caret for each character of the offending text, under the column of the error; and
/// two closing lines. Every gutter is as wide as the line number, so that the bars
/// stand in one column.
pub open spec fn layout(error: ErrorView) -> Seq<PieceView> {
    let number = decimal_text(error.line as nat);
    let margin = repeated(' ', number.len());
    seq![
        PieceView { tone: Tone::Red, text: "error[E0001]"@ },
        PieceView { tone: Tone::White, text: ": "@ },
        PieceView { tone: Tone::White, text: error.kind.message_text() },
        PieceView { tone: Tone::Plain, text: "\n"@ },
        PieceView { tone: Tone::Cyan, text: margin + "-->"@ },
        PieceView {
            tone: Tone::Plain,
            text: " "@ + error.filename + ":"@ + number + ":"@ + decimal_text(error.column as nat)
                + "\n "@,
        },
        PieceView { tone: Tone::Cyan, text: margin + "|"@ },
        PieceView { tone: Tone::Plain, text: "\n"@ },
        PieceView { tone: Tone::Cyan, text: number },
        PieceView { tone: Tone::Plain, text: " "@ },
        PieceView { tone: Tone::Cyan, text: "|"@ },
        PieceView { tone: Tone::Plain, text: " "@ + error.context + "\n "@ },
        PieceView { tone: Tone::Cyan, text: margin + "|"@ },
        PieceView { tone: Tone::Plain, text: repeated(' ', indent(error.column)) },
        PieceView { tone: Tone::Red, text: repeated('^', error.lexeme.len()) },
        PieceView { tone: Tone::Plain, text: "\n\n"@ },
        PieceView { tone: Tone::Red, text: "error"@ },
        PieceView { tone: Tone::White, text: ": aborting due to 1 previous error"@ },
        PieceView { tone: Tone::Plain, text: "\n\n"@ },
        PieceView { tone: Tone::Red, text: "error"@ },
        PieceView { tone: Tone::White, text: ": could not tokenize `"@ + error.filename + "`"@ },
    ]
}

/// The escape sequence that switches a terminal to `tone`.
pub open spec fn style_code(tone: Tone) -> Seq<char> {
    match tone {
        Tone::Plain => Seq::empty(),
        Tone::Red => "\x1B[91m"@,
        Tone::White => "\x1B[97m"@,
        Tone::Cyan => "\x1B[96m"@,
    }
}

/// The escape sequence that switches a terminal back.
pub open spec fn reset_code() -> Seq<char> {
    "\x1B[0m"@
}

/// `part` stands in `text` at offset `at`.
pub open spec fn stands_at(text: Seq<char>, part: Seq<char>, at: int) -> bool {
    0 <= at && at + part.len() <= text.len() && text.subrange(at, at + part.len()) == part
}

/// `text` holds the reset code somewhere.
pub open spec fn holds_reset(text: Seq<char>) -> bool {
    exists|at: int| #[trigger] stands_at(text, reset_code(), at)
}

/// `out` shows `text` in `tone`.
///
/// Plain text is shown as it is. Coloured text is either left as it is, where colours are
/// switched off, or stands between the code of its tone and the reset code; where colours
/// are switched off in the middle of the work, the reset code alone may follow it. Of a
/// text that itself holds the reset code nothing is said.
pub open spec fn painted(tone: Tone, text: Seq<char>, out: Seq<char>) -> bool {
    if tone is Plain {
        out == text
    } else {
        ||| holds_reset(text)
        ||| out == text
        ||| out == style_code(tone) + text + reset_code()
        ||| out == text + reset_code()
    }
}

/// The texts of `parts`, joined in order.
pub open spec fn joined(parts: Seq<Seq<char>>) -> Seq<char>
    decreases parts.len(),
{
    if parts.len() == 0 {
        Seq::empty()
    } else {
        joined(parts.drop_last()) + parts.last()
    }
}

/// `shown` holds, piece by piece, a way in which `pieces` are shown.
pub open spec fn painted_all(pieces: Seq<PieceView>, shown: Seq<Seq<char>>) -> bool {
    &&& shown.len() == pieces.len()
    &&& forall|i: int|
        0 <= i < pieces.len() ==> painted(pieces[i].tone, pieces[i].text, #[trigger] shown[i])
}

/// `out` is `pieces` shown one after the other.
pub open spec fn renders(pieces: Seq<PieceView>, out: Seq<char>) -> bool {
    exists|shown: Seq<Seq<char>>| #[trigger] painted_all(pieces, shown) && out == joined(shown)
}

/// The text that writes one decimal digit.
fn digit_text(digit: usize) -> (text: &'static str)
    requires
        digit < 10,
    ensures
        text@ == seq![digit_char(digit as nat)],
{
    let text = match digit {
        0 => "0",
        1 => "1",
        2 => "2",
        3 => "3",
        4 => "4",
        5 => "5",
        6 => "6",
        7 => "7",
        8 => "8",
        _ => "9",
    };
    proof {
        reveal_strlit("0");
        reveal_strlit("1");
        reveal_strlit("2");
        reveal_strlit("3");
        reveal_strlit("4");
        reveal_strlit("5");
        reveal_strlit("6");
        reveal_strlit("7");
        reveal_strlit("8");
        reveal_strlit("9");
    }
    text
}

/// The decimal notation of `n`.
pub fn decimal(n: usize) -> (text: String)
    ensures
        text@ == decimal_text(n as nat),
    decreases n,
{
    if n < 10 {
        String::from_str(digit_text(n))
    } else {
        let mut text = decimal(n / 10);
        text.append(digit_text(n % 10));
        text
    }
}

/// The one character of `unit`, `count` times.
fn repeat(unit: &str, count: usize) -> (text: String)
    requires
        unit@.len() == 1,
    ensures
        text@ == repeated(unit@[0], count as nat),
{
    let mut text = String::new();
    let mut done: usize = 0;
    while done < count
        invariant
            done <= count,
            unit@.len() == 1,
            text@ == repeated(unit@[0], done as nat),
        decreases count - done,
    {
        text.append(unit);
        done += 1;
    }
    text
}

/// `first` with `second` behind it.
fn join(first: String, second: &str) -> (text: String)
    ensures
        text@ == first@ + second@,
{
    first.concat(second)
}

/// Shows `text` in `tone`.
fn paint(tone: Tone, text: &str) -> (out: String)
    ensures
        painted(tone, text@, out@),
{
    match tone {
        Tone::Plain => String::from_str(text),
        Tone::Red => bright_red(text),
        Tone::White => bright_white(text),
        Tone::Cyan => bright_cyan(text),
    }
}

impl<'a, 'b> Error<'a, 'b> {
    /// The pieces of the diagnostic of this error.
    pub fn layout(&self) -> (pieces: Vec<Piece>)
        ensures
            piece_views(pieces@) == layout(self@),
    {
        proof {
            reveal_strlit(" ");
            reveal_strlit("^");
        }
        let number = decimal(self.line);
        let width: usize = number.as_str().unicode_len();
        let column: usize = if self.column < 1 {
            1
        } else {
            self.column
        };
        let mut locator = String::from_str(" ");
        locator.append(self.filename);
        locator.append(":");
        locator.append(number.as_str());
        locator.append(":");
        locator.append(decimal(self.column).as_str());
        locator.append("\n ");
        let mut content = String::from_str(" ");
        content.append(self.context);
        content.append("\n ");
        let mut closing = String::from_str(": could not tokenize `");
        closing.append(self.filename);
        closing.append("`");
        let mut pieces: Vec<Piece> = Vec::new();
        pieces.push(Piece { tone: Tone::Red, text: String::from_str("error[E0001]") });
        pieces.push(Piece { tone: Tone::White, text: String::from_str(": ") });
        pieces.push(Piece { tone: Tone::White, text: String::from_str(self.kind.message()) });
        pieces.push(Piece { tone: Tone::Plain, text: String::from_str("\n") });
        pieces.push(Piece { tone: Tone::Cyan, text: join(repeat(" ", width), "-->") });
        pieces.push(Piece { tone: Tone::Plain, text: locator });
        pieces.push(Piece { tone: Tone::Cyan, text: join(repeat(" ", width), "|") });
        pieces.push(Piece { tone: Tone::Plain, text: String::from_str("\n") });
        pieces.push(Piece { tone: Tone::Cyan, text: number });
        pieces.push(Piece { tone: Tone::Plain, text: String::from_str(" ") });
        pieces.push(Piece { tone: Tone::Cyan, text: String::from_str("|") });
        pieces.push(Piece { tone: Tone::Plain, text: content });
        pieces.push(Piece { tone: Tone::Cyan, text: join(repeat(" ", width), "|") });
        pieces.push(Piece { tone: Tone::Plain, text: repeat(" ", column) });
        pieces.push(Piece { tone: Tone::Red, text: repeat("^", self.lexeme.unicode_len()) });
        pieces.push(Piece { tone: Tone::Plain, text: String::from_str("\n\n") });
        pieces.push(Piece { tone: Tone::Red, text: String::from_str("error") });
        pieces.push(
            Piece {
                tone: Tone::White,
                text: String::from_str(": aborting due to 1 previous error"),
            },
        );
        pieces.push(Piece { tone: Tone::Plain, text: String::from_str("\n\n") });
        pieces.push(Piece { tone: Tone::Red, text: String::from_str("error") });
        pieces.push(Piece { tone: Tone::White, text: closing });
        pieces
    }

    /// The diagnostic of this error: its pieces, each shown in its tone.
    pub fn render(&self) -> (out: String)
        ensures
            renders(layout(self@), out@),
    {
        let pieces = self.layout();
        let mut out = String::new();
        let ghost mut shown: Seq<Seq<char>> = Seq::empty();
        let mut next: usize = 0;
        while next < pieces.len()
            invariant
                next <= pieces@.len(),
                piece_views(pieces@) == layout(self@),
                painted_all(layout(self@).take(next as int), shown),
                out@ == joined(shown),
            decreases pieces@.len() - next,
        {
            let piece = &pieces[next];
            let part = paint(piece.tone, piece.text.as_str());
            out.append(part.as_str());
            proof {
                let longer = shown.push(part@);
                assert(longer.drop_last() == shown);
                shown = longer;
            }
            next += 1;
        }
        proof {
            assert(layout(self@).take(next as int) == layout(self@));
        }
        out
    }
}

/// Colours a text with `colored`: `Colorize::bright_red` on a `&str`, then `to_string`
/// on the `ColoredString`.
///
/// Unproved: that the outcome shows the text in red as [`painted`] says.
#[verifier::external_body]
fn bright_red(text: &str) -> (out: String)
    ensures
        painted(Tone::Red, text@, out@),
{
    colored::Colorize::bright_red(text).to_string()
}

/// Colours a text with `colored`: `Colorize::bright_white` on a `&str`, then `to_string`
/// on the `ColoredString`.
///
/// Unproved: that the outcome shows the text in white as [`painted`] says.
#[verifier::external_body]
fn bright_white(text: &str) -> (out: String)
    ensures
        painted(Tone::White, text@, out@),
{
    colored::Colorize::bright_white(text).to_string()
}

/// Colours a text with `colored`: `Colorize::bright_cyan` on a `&str`, then `to_string`
/// on the `ColoredString`.
///
/// Unproved: that the outcome shows the text in cyan as [`painted`] says.
#[verifier::external_body]
fn bright_cyan(text: &str) -> (out: String)
    ensures
        painted(Tone::Cyan, text@, out@),
{
    colored::Colorize::bright_cyan(text).to_string()
}

} // verus!
