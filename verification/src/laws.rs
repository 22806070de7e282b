//! What holds of every scan.

use vstd::prelude::*;
use crate::chars::{is_blank, is_digit, CharClass};
use crate::error::ErrorView;
use crate::grammar::{
    comment_end, decimal_digit, exponent_start, has_char, has_fraction, integer_end,
    lemma_decimal, lemma_run_end, lemma_step, mantissa_end, run_end, scan, scan_from, step,
    tokens_of, value_end, Fault, Span, Step,
};
use crate::number::all_digits;
use crate::position::{column_at, line_at, line_text, no_breaks};
use crate::token::{KindView, NumberView, TokenView};

verus! {

/// The token that ends the tokens of `src`: the end of the input, with no text, on the
/// last line and at column 0.
pub open spec fn end_token(src: Seq<char>) -> TokenView {
    TokenView {
        lexeme: Seq::empty(),
        line: line_at(src, src.len() as int),
        column: 0,
        kind: KindView::Eof,
    }
}

/// Where the stretch to skip that begins at `pos` ends, if one begins there: a blank
/// character, a line comment up to its newline, or a block comment with its closing.
pub open spec fn skip_end(src: Seq<char>, pos: int) -> Option<int> {
    if !(0 <= pos < src.len()) {
        None
    } else if is_blank(src[pos]) {
        Some(pos + 1)
    } else if src[pos] == '-' && has_char(src, pos + 1, '-') {
        Some(run_end(src, pos + 2, CharClass::NotNewline))
    } else if src[pos] == '{' && has_char(src, pos + 1, '-') {
        comment_end(src, pos + 2)
    } else {
        None
    }
}

/// `src` holds nothing but blank characters and comments from `from` up to `to`.
pub open spec fn skipped(src: Seq<char>, from: int, to: int) -> bool
    decreases to - from,
{
    if from >= to {
        from == to
    } else {
        match skip_end(src, from) {
            Some(end) => from < end <= to && skipped(src, end, to),
            None => false,
        }
    }
}

/// The spans lie in the source in order, and the source holds nothing but blank
/// characters and comments before the first of them, between one and the next, and
/// behind `from` where there is none.
pub open spec fn tiles(src: Seq<char>, spans: Seq<Span>, from: int) -> bool
    decreases spans.len(),
{
    if spans.len() == 0 {
        skipped(src, from, src.len() as int)
    } else {
        &&& from <= spans[0].start <= spans[0].end <= src.len()
        &&& skipped(src, from, spans[0].start)
        &&& tiles(src, spans.drop_first(), spans[0].end)
    }
}

/// The lexemes of `tokens`, joined in order.
pub open spec fn joined_lexemes(tokens: Seq<TokenView>) -> Seq<char>
    decreases tokens.len(),
{
    if tokens.len() == 0 {
        Seq::empty()
    } else {
        tokens[0].lexeme + joined_lexemes(tokens.drop_first())
    }
}

/// Offset `at` lies within one of `spans`.
pub open spec fn within(spans: Seq<Span>, at: int) -> bool
    decreases spans.len(),
{
    spans.len() > 0 && (spans[0].start <= at < spans[0].end || within(spans.drop_first(), at))
}

/// The characters of `src` from `from` up to `to` that lie within one of `spans`, in
/// the order of the source.
pub open spec fn kept(src: Seq<char>, spans: Seq<Span>, from: int, to: int) -> Seq<char>
    decreases to - from,
{
    if to <= from {
        Seq::empty()
    } else if within(spans, to - 1) {
        kept(src, spans, from, to - 1).push(src[to - 1])
    } else {
        kept(src, spans, from, to - 1)
    }
}

/// `text` is a run of at least one decimal digit.
pub open spec fn is_digits(text: Seq<char>) -> bool {
    text.len() > 0 && all_digits(text, 10)
}

/// `text` is nothing, or a point and digits.
pub open spec fn is_fraction(text: Seq<char>) -> bool {
    text.len() == 0 || (text[0] == '.' && is_digits(text.skip(1)))
}

/// `text` is nothing, or an `e` of either case and digits, with `-` before the digits
/// or not.
pub open spec fn is_exponent(text: Seq<char>) -> bool {
    text.len() == 0 || ((text[0] == 'e' || text[0] == 'E') && (is_digits(text.skip(1)) || (
    text.len() > 1 && text[1] == '-' && is_digits(text.skip(2)))))
}

/// `text` is made of the digits `whole`, the fraction `fraction` and the exponent
/// `exponent`.
pub open spec fn composed_of(
    text: Seq<char>,
    whole: Seq<char>,
    fraction: Seq<char>,
    exponent: Seq<char>,
) -> bool {
    &&& text == whole + fraction + exponent
    &&& is_digits(whole)
    &&& is_fraction(fraction)
    &&& is_exponent(exponent)
}

/// `text` is a decimal notation: digits, then a fraction or none, then an exponent or
/// none.
pub open spec fn is_decimal_notation(text: Seq<char>) -> bool {
    exists|whole: Seq<char>, fraction: Seq<char>, exponent: Seq<char>| #[trigger]
        composed_of(text, whole, fraction, exponent)
}

/// A source of blank characters alone holds one token: the end of the input.
pub proof fn lemma_blank_source_has_no_tokens(src: Seq<char>, filename: Seq<char>)
    requires
        forall|i: int| 0 <= i < src.len() ==> is_blank(#[trigger] src[i]),
    ensures
        scan(src, filename) == Ok::<Seq<TokenView>, ErrorView>(seq![end_token(src)]),
{
    lemma_blank_rest(src, 0);
    lemma_end_span(src);
}

proof fn lemma_blank_rest(src: Seq<char>, pos: int)
    requires
        0 <= pos <= src.len(),
        forall|i: int| 0 <= i < src.len() ==> is_blank(#[trigger] src[i]),
    ensures
        scan_from(src, pos) == Ok::<Seq<Span>, Fault>(
            seq![Span { start: src.len() as int, end: src.len() as int, kind: KindView::Eof }],
        ),
    decreases src.len() - pos,
{
    if pos < src.len() {
        lemma_blank_rest(src, pos + 1);
    }
}

/// The span at the end of the source is the token that ends its tokens.
proof fn lemma_end_span(src: Seq<char>)
    ensures
        tokens_of(
            src,
            seq![Span { start: src.len() as int, end: src.len() as int, kind: KindView::Eof }],
        ) == seq![end_token(src)],
{
    let span = Span { start: src.len() as int, end: src.len() as int, kind: KindView::Eof };
    assert(src.subrange(span.start, span.end) =~= Seq::<char>::empty());
}

/// The tokens of a scan that succeeds end with the end of the input, and hold it
/// nowhere else.
pub proof fn lemma_tokens_end_with_eof(src: Seq<char>, filename: Seq<char>)
    requires
        scan(src, filename) is Ok,
    ensures
        ({
            let tokens = scan(src, filename)->Ok_0;
            &&& tokens.len() >= 1
            &&& tokens.last() == end_token(src)
            &&& forall|i: int| 0 <= i < tokens.len() - 1 ==> !(#[trigger] tokens[i].kind is Eof)
        }),
{
    lemma_end_from(src, 0);
}

proof fn lemma_end_from(src: Seq<char>, pos: int)
    requires
        0 <= pos <= src.len(),
        scan_from(src, pos) is Ok,
    ensures
        ({
            let tokens = tokens_of(src, scan_from(src, pos)->Ok_0);
            &&& tokens.len() >= 1
            &&& tokens.last() == end_token(src)
            &&& forall|i: int| 0 <= i < tokens.len() - 1 ==> !(#[trigger] tokens[i].kind is Eof)
        }),
    decreases src.len() - pos,
{
    let spans = scan_from(src, pos)->Ok_0;
    lemma_end_span(src);
    if pos < src.len() {
        lemma_step(src, pos);
        match step(src, pos) {
            Step::Emit { end, kind } => {
                lemma_end_from(src, end);
                let rest = scan_from(src, end)->Ok_0;
                assert forall|i: int| 0 <= i < spans.len() - 1 implies !(#[trigger] tokens_of(
                    src,
                    spans,
                )[i].kind is Eof) by {
                    if i > 0 {
                        assert(tokens_of(src, spans)[i] == tokens_of(src, rest)[i - 1]);
                    }
                }
            },
            Step::Skip { end } => {
                lemma_end_from(src, end);
            },
            Step::Fail { fault } => {},
        }
    }
}

/// Every token of a scan that succeeds, but the end of the input, is the text that the
/// source holds at the token's line and column: there is an offset of the source that
/// lies at this line and column, and at which the lexeme stands.
pub proof fn lemma_lexemes_stand_in_source(src: Seq<char>, filename: Seq<char>, i: int) -> (at:
    int)
    requires
        scan(src, filename) is Ok,
        0 <= i < scan(src, filename)->Ok_0.len() - 1,
    ensures
        ({
            let token = scan(src, filename)->Ok_0[i];
            &&& 0 <= at < at + token.lexeme.len() <= src.len()
            &&& src.subrange(at, at + token.lexeme.len()) == token.lexeme
            &&& line_at(src, at) == token.line
            &&& column_at(src, at) == token.column
        }),
{
    lemma_spans_in_source(src, 0, i);
    lemma_end_from(src, 0);
    let span = scan_from(src, 0)->Ok_0[i];
    let token = tokens_of(src, scan_from(src, 0)->Ok_0)[i];
    assert(!(token.kind is Eof));
    span.start
}

proof fn lemma_spans_in_source(src: Seq<char>, pos: int, i: int)
    requires
        0 <= pos <= src.len(),
        scan_from(src, pos) is Ok,
        0 <= i < scan_from(src, pos)->Ok_0.len() - 1,
    ensures
        ({
            let span = scan_from(src, pos)->Ok_0[i];
            pos <= span.start < span.end <= src.len() && no_breaks(src, span.start, span.end)
        }),
    decreases src.len() - pos,
{
    if pos < src.len() {
        lemma_step(src, pos);
        match step(src, pos) {
            Step::Emit { end, kind } => {
                if i > 0 {
                    lemma_spans_in_source(src, end, i - 1);
                }
            },
            Step::Skip { end } => {
                lemma_spans_in_source(src, end, i);
            },
            Step::Fail { fault } => {},
        }
    }
}

/// The lexemes of a scan that succeeds stand in the source in the order of the tokens,
/// and the source holds nothing else but blank characters and comments: joined in order,
/// the lexemes are the source without what was skipped.
pub proof fn lemma_lexemes_tile_source(src: Seq<char>)
    requires
        scan_from(src, 0) is Ok,
    ensures
        tiles(src, scan_from(src, 0)->Ok_0, 0),
{
    lemma_tiles(src, 0);
}

proof fn lemma_tiles(src: Seq<char>, pos: int)
    requires
        0 <= pos <= src.len(),
        scan_from(src, pos) is Ok,
    ensures
        tiles(src, scan_from(src, pos)->Ok_0, pos),
        scan_from(src, pos)->Ok_0.len() >= 1,
        pos <= scan_from(src, pos)->Ok_0[0].start,
    decreases src.len() - pos,
{
    let spans = scan_from(src, pos)->Ok_0;
    if pos < src.len() {
        lemma_step(src, pos);
        match step(src, pos) {
            Step::Emit { end, kind } => {
                lemma_tiles(src, end);
                let rest = scan_from(src, end)->Ok_0;
                assert(spans.drop_first() == rest);
            },
            Step::Skip { end } => {
                lemma_tiles(src, end);
                lemma_skipped_after(src, pos, spans, end);
            },
            Step::Fail { fault } => {},
        }
    } else {
        assert(tiles(src, spans.drop_first(), src.len() as int));
    }
}

/// The error of a scan that fails is about a stretch of the source: its lexeme stands in
/// the source at an offset that lies at the line and column of the error, on the line
/// that is the context of the error.
pub proof fn lemma_error_stands_in_source(src: Seq<char>, filename: Seq<char>) -> (at: int)
    requires
        scan(src, filename) is Err,
    ensures
        ({
            let error = scan(src, filename)->Err_0;
            &&& 0 <= at <= at + error.lexeme.len() <= src.len()
            &&& src.subrange(at, at + error.lexeme.len()) == error.lexeme
            &&& line_at(src, at) == error.line
            &&& column_at(src, at) == error.column
            &&& line_text(src, at) == error.context
            &&& error.filename == filename
        }),
{
    lemma_fault_in_source(src, 0);
    scan_from(src, 0)->Err_0.at
}

proof fn lemma_fault_in_source(src: Seq<char>, pos: int)
    requires
        0 <= pos <= src.len(),
        scan_from(src, pos) is Err,
    ensures
        ({
            let fault = scan_from(src, pos)->Err_0;
            pos <= fault.at && 0 <= fault.len && fault.at + fault.len <= src.len()
        }),
    decreases src.len() - pos,
{
    if pos < src.len() {
        lemma_step(src, pos);
        match step(src, pos) {
            Step::Emit { end, kind } => {
                lemma_fault_in_source(src, end);
            },
            Step::Skip { end } => {
                lemma_fault_in_source(src, end);
            },
            Step::Fail { fault } => {},
        }
    }
}

/// The value of every decimal number of a scan that succeeds is written as a decimal
/// notation, whatever its lexeme holds behind an exponent mark.
pub proof fn lemma_numbers_are_notations(src: Seq<char>, filename: Seq<char>, i: int)
    requires
        scan(src, filename) is Ok,
        0 <= i < scan(src, filename)->Ok_0.len(),
    ensures
        scan(src, filename)->Ok_0[i].kind matches KindView::Number(NumberView::Decimal(notation))
            ==> is_decimal_notation(notation),
{
    lemma_notations_from(src, 0, i);
}

proof fn lemma_notations_from(src: Seq<char>, pos: int, i: int)
    requires
        0 <= pos <= src.len(),
        scan_from(src, pos) is Ok,
        0 <= i < scan_from(src, pos)->Ok_0.len(),
    ensures
        scan_from(src, pos)->Ok_0[i].kind matches KindView::Number(NumberView::Decimal(notation))
            ==> is_decimal_notation(notation),
    decreases src.len() - pos,
{
    if pos < src.len() {
        lemma_step(src, pos);
        match step(src, pos) {
            Step::Emit { end, kind } => {
                if i > 0 {
                    lemma_notations_from(src, end, i - 1);
                } else if is_digit(src[pos], 10) {
                    lemma_decimal_notation(src, pos);
                }
            },
            Step::Skip { end } => {
                lemma_notations_from(src, end, i);
            },
            Step::Fail { fault } => {},
        }
    }
}

/// The value of the decimal literal at `start` is written as a decimal notation.
proof fn lemma_decimal_notation(src: Seq<char>, start: int)
    requires
        0 <= start < src.len(),
        is_digit(src[start], 10),
    ensures
        is_decimal_notation(src.subrange(start, value_end(src, start))),
{
    lemma_decimal(src, start);
    let whole_end = integer_end(src, start);
    let mark = mantissa_end(src, start);
    let end = value_end(src, start);
    let whole = src.subrange(start, whole_end);
    let fraction = src.subrange(whole_end, mark);
    let exponent = src.subrange(mark, end);
    if has_fraction(src, start) {
        lemma_run_end(src, whole_end + 2, decimal_digit());
        assert(is_digits(fraction.skip(1))) by {
            assert forall|i: int| 0 <= i < fraction.skip(1).len() implies is_digit(
                #[trigger] fraction.skip(1)[i],
                10,
            ) by {
                assert(fraction.skip(1)[i] == src[whole_end + 1 + i]);
                if i > 0 {
                    assert(decimal_digit().admits(src[whole_end + 1 + i]));
                }
            }
        }
    }
    match exponent_start(src, start) {
        Some(digits) => {
            lemma_run_end(src, digits, decimal_digit());
            let run = exponent.skip(digits - mark);
            assert(is_digits(run)) by {
                assert forall|i: int| 0 <= i < run.len() implies is_digit(
                    #[trigger] run[i],
                    10,
                ) by {
                    assert(run[i] == src[digits + i]);
                    assert(decimal_digit().admits(src[digits + i]));
                }
            }
        },
        None => {},
    }
    assert(src.subrange(start, end) == whole + fraction + exponent);
    assert(composed_of(src.subrange(start, end), whole, fraction, exponent));
}

/// Joined in order, the lexemes of a scan that succeeds are the characters of the source
/// that lie within a token, in the order of the source. What lies within no token was
/// skipped as blank or comment: see [`lemma_lexemes_tile_source`].
pub proof fn lemma_lexemes_join_to_source(src: Seq<char>, filename: Seq<char>)
    requires
        scan(src, filename) is Ok,
    ensures
        joined_lexemes(scan(src, filename)->Ok_0) == kept(
            src,
            scan_from(src, 0)->Ok_0,
            0,
            src.len() as int,
        ),
{
    lemma_tiles(src, 0);
    lemma_kept_of_tiles(src, scan_from(src, 0)->Ok_0, 0);
}

proof fn lemma_kept_of_tiles(src: Seq<char>, spans: Seq<Span>, from: int)
    requires
        0 <= from <= src.len(),
        tiles(src, spans, from),
    ensures
        kept(src, spans, from, src.len() as int) == joined_lexemes(tokens_of(src, spans)),
    decreases spans.len(),
{
    let end = src.len() as int;
    if spans.len() == 0 {
        lemma_kept_none(src, spans, from, end);
    } else {
        let first = spans[0];
        let rest = spans.drop_first();
        assert forall|i: int| from <= i < first.start implies !#[trigger] within(spans, i) by {
            if within(rest, i) {
                lemma_within_tiles(src, rest, first.end, i);
            }
        }
        lemma_kept_none(src, spans, from, first.start);
        lemma_kept_all(src, spans, first.start, first.end);
        assert forall|i: int| first.end <= i < end implies #[trigger] within(spans, i) == within(
            rest,
            i,
        ) by {}
        lemma_kept_same(src, spans, rest, first.end, end);
        lemma_kept_of_tiles(src, rest, first.end);
        lemma_kept_split(src, spans, from, first.start, end);
        lemma_kept_split(src, spans, first.start, first.end, end);
        assert(tokens_of(src, spans).drop_first() == tokens_of(src, rest));
    }
}

/// What lies within spans that tile the source from `from` lies behind `from`.
proof fn lemma_within_tiles(src: Seq<char>, spans: Seq<Span>, from: int, at: int)
    requires
        tiles(src, spans, from),
        within(spans, at),
    ensures
        from <= at,
    decreases spans.len(),
{
    if !(spans[0].start <= at < spans[0].end) {
        lemma_within_tiles(src, spans.drop_first(), spans[0].end, at);
    }
}

proof fn lemma_kept_split(src: Seq<char>, spans: Seq<Span>, from: int, mid: int, to: int)
    requires
        from <= mid <= to,
    ensures
        kept(src, spans, from, to) == kept(src, spans, from, mid) + kept(src, spans, mid, to),
    decreases to - mid,
{
    if mid < to {
        lemma_kept_split(src, spans, from, mid, to - 1);
    }
}

proof fn lemma_kept_none(src: Seq<char>, spans: Seq<Span>, from: int, to: int)
    requires
        forall|i: int| from <= i < to ==> !#[trigger] within(spans, i),
    ensures
        kept(src, spans, from, to) == Seq::<char>::empty(),
    decreases to - from,
{
    if from < to {
        lemma_kept_none(src, spans, from, to - 1);
    }
}

proof fn lemma_kept_all(src: Seq<char>, spans: Seq<Span>, from: int, to: int)
    requires
        0 <= from <= to <= src.len(),
        forall|i: int| from <= i < to ==> #[trigger] within(spans, i),
    ensures
        kept(src, spans, from, to) == src.subrange(from, to),
    decreases to - from,
{
    if from < to {
        lemma_kept_all(src, spans, from, to - 1);
    }
}

proof fn lemma_kept_same(src: Seq<char>, spans: Seq<Span>, others: Seq<Span>, from: int, to: int)
    requires
        forall|i: int| from <= i < to ==> #[trigger] within(spans, i) == within(others, i),
    ensures
        kept(src, spans, from, to) == kept(src, others, from, to),
    decreases to - from,
{
    if from < to {
        lemma_kept_same(src, spans, others, from, to - 1);
    }
}

/// Spans that tile the source from the end of a stretch to skip tile it from the start
/// of that stretch too.
proof fn lemma_skipped_after(src: Seq<char>, pos: int, spans: Seq<Span>, end: int)
    requires
        skip_end(src, pos) == Some(end),
        pos < end <= src.len(),
        spans.len() >= 1,
        end <= spans[0].start,
        tiles(src, spans, end),
    ensures
        tiles(src, spans, pos),
{
}

} // verus!
