//! The grammar of the language, as functions on the source text.
//!
//! [`step`] says what begins at an offset: a token, something to skip, or a fault.
//! [`scan_from`] strings the steps together, and [`tokens_of`] and [`error_of`] turn
//! what they find into what a scan hands out.
//!
//! Some choices of this grammar:
//! - A block comment closes at the first `-}` behind its opening `{-` and does not nest.
//!   One that never closes is a fault, found at its opening.
//! - Comments may hold any character. Outside comments a character that starts no token
//!   is a fault, whether it is an ASCII character or not.
//! - An exponent mark that no digits follow belongs to the lexeme of a number, and so
//!   does a `-` right behind it, but neither adds to the value.
//! - The suffix `n` makes an integer of any size, so behind an exponent mark it is a
//!   fault.
//! - A literal in base 2, 8 or 16 is worth at most what 64 bits hold, with the suffix `n`
//!   too; a larger one is a fault.
//! - A prefix that no digit of its base follows is a fault at the place of the missing
//!   digit.

use vstd::prelude::*;
use crate::chars::{is_blank, is_digit, CharClass};
use crate::error::{ErrorKind, ErrorView};
use crate::number::{all_digits, radix_value};
use crate::position::{column_at, line_at, line_text, no_breaks};
use crate::token::{KindView, NumberView, TokenView};

verus! {

/// `src` has the character `c` at `pos`.
pub open spec fn has_char(src: Seq<char>, pos: int, c: char) -> bool {
    0 <= pos < src.len() && src[pos] == c
}

/// `src` has a character of `class` at `pos`.
pub open spec fn has_member(src: Seq<char>, pos: int, class: CharClass) -> bool {
    0 <= pos < src.len() && class.admits(src[pos])
}

/// Where the longest run of characters of `class` that starts at `from` ends.
pub open spec fn run_end(src: Seq<char>, from: int, class: CharClass) -> int
    decreases src.len() - from,
{
    if has_member(src, from, class) {
        run_end(src, from + 1, class)
    } else {
        from
    }
}

/// The decimal digits.
pub open spec fn decimal_digit() -> CharClass {
    CharClass::Digit(10)
}

/// The offset just behind the first `-}` that starts at or behind `from`, if there is one.
pub open spec fn comment_end(src: Seq<char>, from: int) -> Option<int>
    decreases src.len() - from,
{
    if from < 0 || from + 2 > src.len() {
        None
    } else if src[from] == '-' && src[from + 1] == '}' {
        Some(from + 2)
    } else {
        comment_end(src, from + 1)
    }
}

/// A fault as a stretch of the source: `len` characters at `at`.
pub struct Fault {
    pub kind: ErrorKind,
    pub at: int,
    pub len: int,
}

/// What begins at an offset of the source.
pub enum Step {
    /// A token of `kind`, which ends before `end`.
    Emit { end: int, kind: KindView },
    /// Blank space or a comment, which ends before `end`.
    Skip { end: int },
    /// Nothing that can be scanned.
    Fail { fault: Fault },
}

/// Where the digits before the point of the decimal literal at `start` end.
pub open spec fn integer_end(src: Seq<char>, start: int) -> int {
    run_end(src, start, decimal_digit())
}

/// The decimal literal at `start` has a fraction: a point with a digit behind it.
pub open spec fn has_fraction(src: Seq<char>, start: int) -> bool {
    let point = integer_end(src, start);
    has_char(src, point, '.') && has_member(src, point + 1, decimal_digit())
}

/// Where the digits of the decimal literal at `start` end, its fraction included.
pub open spec fn mantissa_end(src: Seq<char>, start: int) -> int {
    if has_fraction(src, start) {
        run_end(src, integer_end(src, start) + 2, decimal_digit())
    } else {
        integer_end(src, start)
    }
}

/// An `e` or `E` follows the digits of the decimal literal at `start`.
pub open spec fn has_exponent_mark(src: Seq<char>, start: int) -> bool {
    let mark = mantissa_end(src, start);
    has_char(src, mark, 'e') || has_char(src, mark, 'E')
}

/// Where the digits of the exponent of the decimal literal at `start` begin, if it has
/// an exponent: a mark, an optional `-`, and at least one digit.
pub open spec fn exponent_start(src: Seq<char>, start: int) -> Option<int> {
    let mark = mantissa_end(src, start);
    if !has_exponent_mark(src, start) {
        None
    } else if has_member(src, mark + 1, decimal_digit()) {
        Some(mark + 1)
    } else if has_char(src, mark + 1, '-') && has_member(src, mark + 2, decimal_digit()) {
        Some(mark + 2)
    } else {
        None
    }
}

/// Where the notation of the value of the decimal literal at `start` ends: behind its
/// exponent where it has one, else behind its digits.
pub open spec fn value_end(src: Seq<char>, start: int) -> int {
    match exponent_start(src, start) {
        Some(digits) => run_end(src, digits, decimal_digit()),
        None => mantissa_end(src, start),
    }
}

/// Where the decimal literal at `start` ends, a suffix not counted. An exponent mark that
/// no exponent follows belongs to the literal, and so does a `-` right behind such a mark.
pub open spec fn notation_end(src: Seq<char>, start: int) -> int {
    let mark = mantissa_end(src, start);
    if !has_exponent_mark(src, start) {
        mark
    } else if exponent_start(src, start) is Some {
        value_end(src, start)
    } else if has_char(src, mark + 1, '-') {
        mark + 2
    } else {
        mark + 1
    }
}

/// The decimal literal at `start` has no fraction and is followed by the suffix `n`.
pub open spec fn has_big_suffix(src: Seq<char>, start: int) -> bool {
    !has_fraction(src, start) && has_char(src, notation_end(src, start), 'n')
}

/// The decimal literal that begins at `start`, where a decimal digit stands.
pub open spec fn decimal(src: Seq<char>, start: int) -> Step {
    let end = notation_end(src, start);
    if !has_big_suffix(src, start) {
        Step::Emit {
            end,
            kind: KindView::Number(NumberView::Decimal(src.subrange(start, value_end(src, start)))),
        }
    } else if has_exponent_mark(src, start) {
        Step::Fail {
            fault: Fault { kind: ErrorKind::MalformedBigInt, at: start, len: end + 1 - start },
        }
    } else {
        Step::Emit {
            end: end + 1,
            kind: KindView::BigInt(radix_value(src.subrange(start, end), 10)),
        }
    }
}

/// The radix that the character behind the `0` at `start` selects, if it selects one.
pub open spec fn prefix_radix(src: Seq<char>, start: int) -> Option<u32> {
    if has_char(src, start + 1, 'b') || has_char(src, start + 1, 'B') {
        Some(2u32)
    } else if has_char(src, start + 1, 'o') || has_char(src, start + 1, 'O') {
        Some(8u32)
    } else if has_char(src, start + 1, 'x') {
        Some(16u32)
    } else {
        None
    }
}

/// The literal that begins at `start` with `0` and the prefix of `radix`.
pub open spec fn prefixed(src: Seq<char>, start: int, radix: u32) -> Step {
    let first = start + 2;
    let stop = run_end(src, first, CharClass::Digit(radix));
    let value = radix_value(src.subrange(first, stop), radix as nat);
    let big = has_char(src, stop, 'n');
    let end = if big {
        stop + 1
    } else {
        stop
    };
    if !has_member(src, first, CharClass::Digit(radix)) {
        Step::Fail {
            fault: Fault {
                kind: ErrorKind::ExpectedDigit,
                at: first,
                len: if first < src.len() {
                    1
                } else {
                    0
                },
            },
        }
    } else if value > u64::MAX {
        Step::Fail { fault: Fault { kind: ErrorKind::NumberTooLarge, at: start, len: end - start } }
    } else if big {
        Step::Emit { end, kind: KindView::BigInt(value) }
    } else {
        Step::Emit { end, kind: KindView::Number(NumberView::Integer(value)) }
    }
}

/// The literal that begins at `start`, where `0` stands.
pub open spec fn leading_zero(src: Seq<char>, start: int) -> Step {
    match prefix_radix(src, start) {
        Some(radix) => prefixed(src, start, radix),
        None => decimal(src, start),
    }
}

/// The block comment that opens at `start` with `{-`.
pub open spec fn block_comment(src: Seq<char>, start: int) -> Step {
    match comment_end(src, start + 2) {
        Some(end) => Step::Skip { end },
        None => Step::Fail {
            fault: Fault { kind: ErrorKind::UnterminatedComment, at: start, len: 2 },
        },
    }
}

/// What begins at `pos`, an offset within `src`.
pub open spec fn step(src: Seq<char>, pos: int) -> Step {
    let c = src[pos];
    if c == '(' || c == ')' || c == '}' {
        Step::Emit { end: pos + 1, kind: KindView::Bracket }
    } else if c == '{' {
        if has_char(src, pos + 1, '-') {
            block_comment(src, pos)
        } else {
            Step::Emit { end: pos + 1, kind: KindView::Bracket }
        }
    } else if c == '<' || c == '>' || c == '=' {
        if has_char(src, pos + 1, '=') {
            Step::Emit { end: pos + 2, kind: KindView::Operator }
        } else {
            Step::Emit { end: pos + 1, kind: KindView::Bracket }
        }
    } else if c == ',' || c == '.' || c == ';' {
        Step::Emit { end: pos + 1, kind: KindView::Punctuation }
    } else if c == '-' {
        if has_char(src, pos + 1, '-') {
            Step::Skip { end: run_end(src, pos + 2, CharClass::NotNewline) }
        } else {
            Step::Emit { end: pos + 1, kind: KindView::Operator }
        }
    } else if c == '+' || c == '*' || c == '/' || c == '!' {
        Step::Emit { end: pos + 1, kind: KindView::Operator }
    } else if c == '0' {
        leading_zero(src, pos)
    } else if is_digit(c, 10) {
        decimal(src, pos)
    } else if is_blank(c) {
        Step::Skip { end: pos + 1 }
    } else {
        Step::Fail { fault: Fault { kind: ErrorKind::UnknownCharacter, at: pos, len: 1 } }
    }
}

/// A token as a stretch of the source: it starts at `start` and ends before `end`.
pub struct Span {
    pub start: int,
    pub end: int,
    pub kind: KindView,
}

/// The tokens that `src` holds from `pos` on, the end of the input last, or the first
/// fault.
pub open spec fn scan_from(src: Seq<char>, pos: int) -> Result<Seq<Span>, Fault>
    decreases src.len() - pos,
    via scan_from_decreases
{
    if pos < 0 || pos >= src.len() {
        Ok(seq![Span { start: src.len() as int, end: src.len() as int, kind: KindView::Eof }])
    } else {
        match step(src, pos) {
            Step::Emit { end, kind } => match scan_from(src, end) {
                Ok(rest) => Ok(seq![Span { start: pos, end, kind }] + rest),
                Err(fault) => Err(fault),
            },
            Step::Skip { end } => scan_from(src, end),
            Step::Fail { fault } => Err(fault),
        }
    }
}

#[via_fn]
proof fn scan_from_decreases(src: Seq<char>, pos: int) {
    if 0 <= pos < src.len() {
        lemma_step(src, pos);
    }
}

/// The token that a span of `src` is: its text, and the line and column where it starts.
/// The end of the input has column 0.
pub open spec fn token_of(src: Seq<char>, span: Span) -> TokenView {
    TokenView {
        lexeme: src.subrange(span.start, span.end),
        line: line_at(src, span.start),
        column: if span.kind is Eof {
            0
        } else {
            column_at(src, span.start)
        },
        kind: span.kind,
    }
}

/// The tokens that spans of `src` are.
pub open spec fn tokens_of(src: Seq<char>, spans: Seq<Span>) -> Seq<TokenView> {
    spans.map_values(|span: Span| token_of(src, span))
}

/// The error that a fault in `src` is, where `src` goes under the name `filename`: the
/// offending text, the line and column where it starts, and the text of that line.
pub open spec fn error_of(src: Seq<char>, filename: Seq<char>, fault: Fault) -> ErrorView {
    ErrorView {
        lexeme: src.subrange(fault.at, fault.at + fault.len),
        line: line_at(src, fault.at),
        column: column_at(src, fault.at),
        context: line_text(src, fault.at),
        filename,
        kind: fault.kind,
    }
}

/// What a scan of `src` under the name `filename` hands out: all its tokens, or the
/// error of its first fault.
pub open spec fn scan(src: Seq<char>, filename: Seq<char>) -> Result<Seq<TokenView>, ErrorView> {
    match scan_from(src, 0) {
        Ok(spans) => Ok(tokens_of(src, spans)),
        Err(fault) => Err(error_of(src, filename, fault)),
    }
}

/// A run ends within the source, holds only characters of its class, and cannot be
/// made longer.
pub proof fn lemma_run_end(src: Seq<char>, from: int, class: CharClass)
    requires
        0 <= from <= src.len(),
    ensures
        from <= run_end(src, from, class) <= src.len(),
        forall|i: int| from <= i < run_end(src, from, class) ==> class.admits(#[trigger] src[i]),
        !has_member(src, run_end(src, from, class), class),
    decreases src.len() - from,
{
    if has_member(src, from, class) {
        lemma_run_end(src, from + 1, class);
    }
}

/// A run of digits holds no line break.
pub proof fn lemma_digits_have_no_breaks(src: Seq<char>, from: int, radix: u32)
    requires
        0 <= from <= src.len(),
        radix <= 36,
    ensures
        no_breaks(src, from, run_end(src, from, CharClass::Digit(radix))),
        all_digits(
            src.subrange(from, run_end(src, from, CharClass::Digit(radix))),
            radix as nat,
        ),
{
    lemma_run_end(src, from, CharClass::Digit(radix));
}

/// A block comment closes, if at all, at the first `-}` behind its opening.
pub proof fn lemma_comment_end(src: Seq<char>, from: int)
    requires
        0 <= from,
    ensures
        match comment_end(src, from) {
            Some(end) => {
                &&& from + 2 <= end <= src.len()
                &&& src[end - 2] == '-' && src[end - 1] == '}'
                &&& forall|i: int|
                    from <= i < end - 2 ==> !(#[trigger] src[i] == '-' && src[i + 1] == '}')
            },
            None => forall|i: int|
                from <= i && i + 2 <= src.len() ==> !(#[trigger] src[i] == '-' && src[i + 1]
                    == '}'),
        },
    decreases src.len() - from,
{
    if from + 2 <= src.len() && !(src[from] == '-' && src[from + 1] == '}') {
        lemma_comment_end(src, from + 1);
    }
}

/// The parts of a decimal literal follow one another within the source, and none of
/// them holds a line break.
pub proof fn lemma_decimal(src: Seq<char>, start: int)
    requires
        0 <= start < src.len(),
        is_digit(src[start], 10),
    ensures
        start < integer_end(src, start) <= mantissa_end(src, start) <= value_end(src, start)
            <= notation_end(src, start) <= src.len(),
        no_breaks(src, start, notation_end(src, start)),
        has_big_suffix(src, start) ==> no_breaks(src, start, notation_end(src, start) + 1),
        all_digits(src.subrange(start, integer_end(src, start)), 10),
        !has_exponent_mark(src, start) ==> notation_end(src, start) == mantissa_end(src, start),
        !has_fraction(src, start) ==> mantissa_end(src, start) == integer_end(src, start),
{
    let whole = integer_end(src, start);
    lemma_digits_have_no_breaks(src, start, 10);
    lemma_run_end(src, start, decimal_digit());
    if has_fraction(src, start) {
        lemma_digits_have_no_breaks(src, whole + 2, 10);
        lemma_run_end(src, whole + 2, decimal_digit());
    }
    match exponent_start(src, start) {
        Some(digits) => {
            lemma_digits_have_no_breaks(src, digits, 10);
            lemma_run_end(src, digits, decimal_digit());
        },
        None => {},
    }
}

/// A step ends behind where it begins and within the source. A token holds no line
/// break, and neither does what lies before a fault.
pub proof fn lemma_step(src: Seq<char>, pos: int)
    requires
        0 <= pos < src.len(),
    ensures
        match step(src, pos) {
            Step::Emit { end, kind } => pos < end <= src.len() && no_breaks(src, pos, end)
                && !(kind is Eof),
            Step::Skip { end } => pos < end <= src.len(),
            Step::Fail { fault } => pos <= fault.at && 0 <= fault.len && fault.at + fault.len
                <= src.len() && no_breaks(src, pos, fault.at),
        },
{
    let c = src[pos];
    if c == '{' && has_char(src, pos + 1, '-') {
        lemma_comment_end(src, pos + 2);
    } else if c == '-' && has_char(src, pos + 1, '-') {
        lemma_run_end(src, pos + 2, CharClass::NotNewline);
    } else if c == '0' {
        match prefix_radix(src, pos) {
            Some(radix) => {
                lemma_digits_have_no_breaks(src, pos + 2, radix);
                lemma_run_end(src, pos + 2, CharClass::Digit(radix));
            },
            None => {
                lemma_decimal(src, pos);
            },
        }
    } else if is_digit(c, 10) {
        lemma_decimal(src, pos);
    }
}

} // verus!
