//! The scanner: it walks the source once and hands out its tokens, or the first error.

use vstd::prelude::*;
use crate::chars::{is_digit, is_same_char, lemma_same_letter, same_char, to_digit, CharClass};
use crate::error::{Error, ErrorKind, ErrorView};
use crate::grammar::{
    comment_end, decimal, error_of, has_member, leading_zero, lemma_decimal,
    lemma_digits_have_no_breaks, lemma_run_end, lemma_step, run_end, scan, scan_from, step,
    token_of, tokens_of, Fault, Span, Step,
};
use crate::number::{parse_radix, BigNat};
use crate::position::{
    column_at, lemma_position_bounds, lemma_position_without_breaks, line_at, line_span,
    no_breaks,
};
use crate::text::{cut, index, indexes};
use crate::token::{token_views, KindView, NumberValue, Token, TokenKind, TokenView};

verus! {

/// The state of one scan: the source, the tokens found so far, and a cursor with its
/// line and column.
pub struct Tokenizer<'a, 'b> {
    source: &'a str,
    filename: &'b str,
    /// The characters of `source`, for access by offset.
    chars: Vec<char>,
    /// The byte of `source` at which each character starts.
    offsets: Vec<usize>,
    tokens: Vec<Token<'a>>,
    /// Where the token in progress starts.
    start: usize,
    /// The cursor: the offset of the next character to read.
    current: usize,
    line: usize,
    column: usize,
}

/// What a scan hands out, as mathematical values.
pub open spec fn result_view<'a, 'b>(
    result: Result<&[Token<'a>], Error<'a, 'b>>,
) -> Result<Seq<TokenView>, ErrorView> {
    match result {
        Ok(tokens) => Ok(token_views(tokens@)),
        Err(error) => Err(error@),
    }
}

/// `src[pos..]` starts with `expected`, up to ASCII case where `any_case` is set.
pub open spec fn spells(src: Seq<char>, pos: int, expected: Seq<char>, any_case: bool) -> bool {
    &&& pos + expected.len() <= src.len()
    &&& forall|i: int|
        0 <= i < expected.len() ==> same_char(#[trigger] src[pos + i], expected[i], any_case)
}

/// What remains to be scanned behind `pos`, joined to the tokens found before it.
spec fn remainder(src: Seq<char>, emitted: Seq<TokenView>, pos: int) -> Result<
    Seq<TokenView>,
    Fault,
> {
    match scan_from(src, pos) {
        Ok(spans) => Ok(emitted + tokens_of(src, spans)),
        Err(fault) => Err(fault),
    }
}

/// One step leaves what a scan finds unchanged: its token moves from what remains to
/// what was found.
proof fn lemma_remainder_step(src: Seq<char>, emitted: Seq<TokenView>, pos: int)
    requires
        0 <= pos < src.len(),
    ensures
        match step(src, pos) {
            Step::Emit { end, kind } => remainder(src, emitted, pos) == remainder(
                src,
                emitted.push(token_of(src, Span { start: pos, end, kind })),
                end,
            ),
            Step::Skip { end } => remainder(src, emitted, pos) == remainder(src, emitted, end),
            Step::Fail { fault } => remainder(src, emitted, pos) == Err::<Seq<TokenView>, Fault>(
                fault,
            ),
        },
{
    match step(src, pos) {
        Step::Emit { end, kind } => {
            let span = Span { start: pos, end, kind };
            match scan_from(src, end) {
                Ok(rest) => {
                    assert(tokens_of(src, seq![span] + rest) == seq![token_of(src, span)]
                        + tokens_of(src, rest));
                    assert(emitted + (seq![token_of(src, span)] + tokens_of(src, rest))
                        == emitted.push(token_of(src, span)) + tokens_of(src, rest));
                },
                Err(fault) => {},
            }
        },
        _ => {},
    }
}

impl<'a, 'b> Tokenizer<'a, 'b> {
    /// The source text.
    pub closed spec fn text(&self) -> Seq<char> {
        self.source@
    }

    /// The name under which the source goes.
    pub closed spec fn file_name(&self) -> Seq<char> {
        self.filename@
    }

    /// The offset of the cursor.
    pub closed spec fn position(&self) -> int {
        self.current as int
    }

    /// The tokens found so far.
    pub closed spec fn emitted(&self) -> Seq<TokenView> {
        token_views(self.tokens@)
    }

    /// The state is sound and at rest: the cursor lies within the source, and the line
    /// and column are those of the cursor.
    pub closed spec fn well_formed(&self) -> bool {
        self.coherent() && self.located(self.current as int)
    }

    /// What a scan from this state hands out: the tokens found so far and those from
    /// the cursor on, or the error of the first fault behind the cursor.
    pub open spec fn outcome(&self) -> Result<Seq<TokenView>, ErrorView> {
        match scan_from(self.text(), self.position()) {
            Ok(spans) => Ok(self.emitted() + tokens_of(self.text(), spans)),
            Err(fault) => Err(error_of(self.text(), self.file_name(), fault)),
        }
    }

    /// A scanner that has read nothing hands out the scan of its whole source.
    pub proof fn lemma_outcome_at_start(&self)
        requires
            self.position() == 0,
            self.emitted().len() == 0,
        ensures
            self.outcome() == scan(self.text(), self.file_name()),
    {
        match scan_from(self.text(), 0) {
            Ok(spans) => {
                assert(self.emitted() + tokens_of(self.text(), spans) == tokens_of(
                    self.text(),
                    spans,
                ));
            },
            Err(fault) => {},
        }
    }

    spec fn coherent(&self) -> bool {
        &&& self.chars@ == self.source@
        &&& indexes(self.offsets@, self.source@)
        &&& self.start <= self.current <= self.chars@.len() < usize::MAX
    }

    /// The line and column are those of offset `pos`.
    spec fn located(&self, pos: int) -> bool {
        self.line == line_at(self.chars@, pos) && self.column == column_at(self.chars@, pos)
    }

    spec fn same_input(&self, before: &Self) -> bool {
        &&& self.source == before.source
        &&& self.filename == before.filename
        &&& self.chars == before.chars
        &&& self.offsets == before.offsets
    }

    /// Nothing but the cursor differs from `before`, and the cursor is at `current`.
    spec fn moved(&self, before: &Self, current: int) -> bool {
        &&& self.same_input(before)
        &&& self.tokens == before.tokens
        &&& self.start == before.start
        &&& self.line == before.line
        &&& self.column == before.column
        &&& self.current == current
    }

    /// The state is at rest at `end`, on the input of `before` and with its start mark.
    spec fn rests_at(&self, before: &Self, end: int) -> bool {
        &&& self.same_input(before)
        &&& self.start == before.start
        &&& self.coherent()
        &&& self.current == end
        &&& self.located(end)
    }

    /// The state is what a fault leaves of `before`: nothing but the cursor has moved.
    spec fn stopped(&self, before: &Self) -> bool {
        &&& self.same_input(before)
        &&& self.tokens == before.tokens
        &&& self.start == before.start
        &&& self.line == before.line
        &&& self.column == before.column
    }

    /// The state is what `taken`, the step that begins at the start mark of `before`,
    /// makes of `before`: a token more, or none, and the line and column of the place
    /// where the step ends; or, after a fault, the tokens, line and column of `before`.
    spec fn follows(&self, before: &Self, taken: Step) -> bool {
        match taken {
            Step::Emit { end, kind } => {
                &&& self.rests_at(before, end)
                &&& self.emitted() == before.emitted().push(
                    token_of(before.chars@, Span { start: before.start as int, end, kind }),
                )
            },
            Step::Skip { end } => self.rests_at(before, end) && self.emitted() == before.emitted(),
            Step::Fail { .. } => self.stopped(before),
        }
    }

    /// `result` reports `taken`: the error of its fault, or success.
    spec fn reports(&self, result: Result<(), Error<'a, 'b>>, taken: Step) -> bool {
        match taken {
            Step::Fail { fault } => result matches Err(error) && error@ == error_of(
                self.chars@,
                self.filename@,
                fault,
            ),
            _ => result is Ok,
        }
    }

    /// A scanner at the start of `source`, which goes under the name `filename`.
    pub fn new(source: &'a str, filename: &'b str) -> (tokenizer: Tokenizer<'a, 'b>)
        ensures
            tokenizer.well_formed(),
            tokenizer.text() == source@,
            tokenizer.file_name() == filename@,
            tokenizer.position() == 0,
            tokenizer.emitted() == Seq::<TokenView>::empty(),
    {
        let (chars, offsets) = index(source);
        // One offset more than characters fits in memory, so lines and columns, which
        // count from 1, never overflow.
        assert(chars@.len() < offsets.len());
        Tokenizer {
            source,
            filename,
            chars,
            offsets,
            tokens: Vec::new(),
            start: 0,
            current: 0,
            line: 1,
            column: 1,
        }
    }

    /// Scans the source from the cursor to its end. Hands out all the tokens, the end of
    /// the input last, or the error of the first fault; the tokens found before a fault
    /// are not handed out. A scanner that has read nothing hands out the scan of its
    /// whole source. After a scan that succeeds the cursor is at the end of the source,
    /// and the scanner holds the tokens that it handed out.
    pub fn scan_tokens(&'a mut self) -> (result: Result<&'a [Token<'a>], Error<'a, 'b>>)
        requires
            old(self).well_formed(),
        ensures
            result_view(result) == old(self).outcome(),
            old(self).position() == 0 && old(self).emitted().len() == 0 ==> result_view(result)
                == scan(old(self).text(), old(self).file_name()),
            final(self).text() == old(self).text(),
            final(self).file_name() == old(self).file_name(),
            result matches Ok(tokens) ==> {
                &&& final(self).well_formed()
                &&& final(self).position() == old(self).text().len()
                &&& final(self).emitted() == token_views(tokens@)
            },
    {
        proof {
            if self.position() == 0 && self.emitted().len() == 0 {
                self.lemma_outcome_at_start();
            }
        }
        let ghost src = self.chars@;
        let ghost goal = remainder(src, self.emitted(), self.current as int);
        while !self.has_reached_eof()
            invariant
                old(self).well_formed(),
                self.coherent(),
                self.located(self.current as int),
                self.same_input(old(self)),
                src == self.chars@,
                goal == remainder(src, old(self).emitted(), old(self).current as int),
                remainder(src, self.emitted(), self.current as int) == goal,
            decreases self.chars@.len() - self.current,
        {
            self.start = self.current;
            proof {
                lemma_remainder_step(src, self.emitted(), self.current as int);
                lemma_step(src, self.current as int);
            }
            match self.scan_token() {
                Ok(()) => {},
                Err(error) => {
                    return Err(error);
                },
            }
        }
        proof {
            reveal_strlit("");
            lemma_position_bounds(src, self.current as int);
        }
        let ghost before = self.tokens@;
        let end = Token { lexeme: "", line: self.line, column: 0, kind: TokenKind::Eof };
        self.tokens.push(end);
        proof {
            let span = Span { start: src.len() as int, end: src.len() as int, kind: KindView::Eof };
            assert(end.lexeme@ == src.subrange(span.start, span.end));
            assert(tokens_of(src, seq![span]) == seq![token_of(src, span)]);
            assert(token_views(self.tokens@) == token_views(before).push(end@));
            assert(token_views(before) + seq![end@] == token_views(before).push(end@));
        }
        Ok(self.tokens.as_slice())
    }

    fn has_reached_eof(&self) -> (reached: bool)
        ensures
            reached == (self.current >= self.chars@.len()),
    {
        self.current >= self.chars.len()
    }

    /// Scans what begins at the start mark: one token, or a stretch to skip.
    fn scan_token(&mut self) -> (result: Result<(), Error<'a, 'b>>)
        requires
            old(self).coherent(),
            old(self).start == old(self).current,
            old(self).current < old(self).chars@.len(),
            old(self).located(old(self).start as int),
        ensures
            final(self).follows(old(self), step(old(self).chars@, old(self).start as int)),
            old(self).reports(result, step(old(self).chars@, old(self).start as int)),
    {
        let ghost src = self.chars@;
        let ghost start = self.start as int;
        proof {
            lemma_step(src, start);
            lemma_position_bounds(src, start);
        }
        let character = self.advance();
        if character == '(' || character == ')' || character == '}' {
            self.add_token(TokenKind::Bracket);
        } else if character == '{' {
            if self.match_next('-', false) {
                return self.block_comment();
            } else {
                self.add_token(TokenKind::Bracket);
            }
        } else if character == '<' || character == '>' || character == '=' {
            let kind = if self.match_next('=', false) {
                TokenKind::Operator
            } else {
                TokenKind::Bracket
            };
            self.add_token(kind);
        } else if character == ',' || character == '.' || character == ';' {
            self.add_token(TokenKind::Punctuation);
        } else if character == '-' {
            if self.match_next('-', false) {
                self.read_while(CharClass::NotNewline);
                self.track();
            } else {
                self.add_token(TokenKind::Operator);
            }
        } else if character == '+' || character == '*' || character == '/' || character == '!' {
            self.add_token(TokenKind::Operator);
        } else if character == '0' {
            return self.leading_zero_number();
        } else if to_digit(character, 10).is_some() {
            return self.number();
        } else if character == ' ' || character == '\t' {
            self.column += 1;
        } else if character == '\r' {
        } else if character == '\n' {
            self.column = 1;
            self.line += 1;
        } else {
            return Err(self.fail(self.lexeme(), self.start, ErrorKind::UnknownCharacter));
        }
        Ok(())
    }

    /// Skips the block comment whose opening `{-` was just read.
    fn block_comment(&mut self) -> (result: Result<(), Error<'a, 'b>>)
        requires
            old(self).coherent(),
            old(self).current == old(self).start + 2,
            old(self).located(old(self).start as int),
        ensures
            final(self).follows(
                old(self),
                crate::grammar::block_comment(old(self).chars@, old(self).start as int),
            ),
            old(self).reports(
                result,
                crate::grammar::block_comment(old(self).chars@, old(self).start as int),
            ),
    {
        let ghost src = self.chars@;
        loop
            invariant_except_break
                comment_end(src, self.current as int) == comment_end(src, self.start + 2),
            invariant
                self.coherent(),
                self.moved(old(self), self.current as int),
                self.located(self.start as int),
                self.start + 2 <= self.current,
                src == self.chars@,
            ensures
                self.coherent(),
                self.moved(old(self), self.current as int),
                comment_end(src, self.start + 2) == Some(self.current as int),
            decreases self.chars@.len() - self.current,
        {
            proof {
                reveal_strlit("-}");
            }
            let ghost from = self.current as int;
            if self.match_next_multiple("-}", false) {
                assert(same_char(src[from + 0], "-}"@[0], false));
                break ;
            }
            assert(!(from + 2 <= src.len() && src[from] == '-' && src[from + 1] == '}')) by {
                if from + 2 <= src.len() && src[from] == '-' && src[from + 1] == '}' {
                    assert forall|i: int| 0 <= i < 2 implies same_char(
                        #[trigger] src[from + i],
                        "-}"@[i],
                        false,
                    ) by {}
                }
            }
            if self.has_reached_eof() {
                let opening = self.slice(self.start, self.start + 2);
                return Err(self.fail(opening, self.start, ErrorKind::UnterminatedComment));
            }
            self.advance();
        }
        self.track();
        Ok(())
    }

    /// Reads one character.
    fn advance(&mut self) -> (character: char)
        requires
            old(self).coherent(),
            old(self).current < old(self).chars@.len(),
        ensures
            final(self).moved(old(self), old(self).current + 1),
            character == old(self).chars@[old(self).current as int],
    {
        self.current += 1;
        self.chars[self.current - 1]
    }

    /// The character at the cursor, or the null character at the end of the input.
    fn peek(&self) -> (character: char)
        requires
            self.coherent(),
        ensures
            character == if self.current < self.chars@.len() {
                self.chars@[self.current as int]
            } else {
                '\0'
            },
    {
        if self.has_reached_eof() {
            return '\0';
        }
        self.chars[self.current]
    }

    /// The `length` characters at the cursor, or nothing at the end of the input.
    fn peek_str(&self, length: usize) -> (text: &'a str)
        requires
            self.coherent(),
            self.current == self.chars@.len() || self.current + length <= self.chars@.len(),
        ensures
            text@ == if self.current < self.chars@.len() {
                self.chars@.subrange(self.current as int, self.current + length)
            } else {
                Seq::<char>::empty()
            },
    {
        if self.has_reached_eof() {
            return self.slice(self.current, self.current);
        }
        self.slice(self.current, self.current + length)
    }

    /// The source from offset `from` up to `to`.
    fn slice(&self, from: usize, to: usize) -> (text: &'a str)
        requires
            self.coherent(),
            from <= to <= self.chars@.len(),
        ensures
            text@ == self.chars@.subrange(from as int, to as int),
    {
        cut(self.source, &self.offsets, from, to)
    }

    /// The text read since the start mark.
    fn lexeme(&self) -> (text: &'a str)
        requires
            self.coherent(),
        ensures
            text@ == self.chars@.subrange(self.start as int, self.current as int),
    {
        self.slice(self.start, self.current)
    }

    /// Reads the next character if it is `expected`, in either case where `any_case` is
    /// set.
    fn match_next(&mut self, expected: char, any_case: bool) -> (matched: bool)
        requires
            old(self).coherent(),
        ensures
            matched == (old(self).current < old(self).chars@.len() && same_char(
                old(self).chars@[old(self).current as int],
                expected,
                any_case,
            )),
            final(self).moved(
                old(self),
                if matched {
                    old(self).current + 1
                } else {
                    old(self).current as int
                },
            ),
    {
        if self.has_reached_eof() {
            return false;
        }
        if !is_same_char(self.chars[self.current], expected, any_case) {
            return false;
        }
        self.current += 1;
        true
    }

    /// Reads the next character if it belongs to `class`.
    fn match_next_predicate(&mut self, class: CharClass) -> (matched: bool)
        requires
            old(self).coherent(),
            class.well_formed(),
        ensures
            matched == has_member(old(self).chars@, old(self).current as int, class),
            final(self).moved(
                old(self),
                if matched {
                    old(self).current + 1
                } else {
                    old(self).current as int
                },
            ),
    {
        if self.has_reached_eof() {
            return false;
        }
        if !class.contains(self.chars[self.current]) {
            return false;
        }
        self.current += 1;
        true
    }

    /// Reads `expected` if the input goes on with all of it, and nothing otherwise.
    fn match_next_multiple(&mut self, expected: &str, any_case: bool) -> (matched: bool)
        requires
            old(self).coherent(),
        ensures
            matched == spells(old(self).chars@, old(self).current as int, expected@, any_case),
            final(self).moved(
                old(self),
                if matched {
                    old(self).current + expected@.len()
                } else {
                    old(self).current as int
                },
            ),
    {
        let count: usize = expected.unicode_len();
        if count > self.chars.len() - self.current {
            return false;
        }
        let mut seen: usize = 0;
        while seen < count
            invariant
                self.coherent(),
                seen <= count == expected@.len(),
                self.current + count <= self.chars@.len(),
                self.moved(old(self), old(self).current as int),
                forall|i: int|
                    0 <= i < seen ==> same_char(
                        #[trigger] self.chars@[self.current + i],
                        expected@[i],
                        any_case,
                    ),
            decreases count - seen,
        {
            if !is_same_char(self.chars[self.current + seen], expected.get_char(seen), any_case) {
                return false;
            }
            seen += 1;
        }
        self.current += count;
        true
    }

    /// Reads on for as long as the characters belong to `class`.
    fn read_while(&mut self, class: CharClass)
        requires
            old(self).coherent(),
            class.well_formed(),
        ensures
            final(self).moved(
                old(self),
                run_end(old(self).chars@, old(self).current as int, class),
            ),
    {
        while !self.has_reached_eof() && class.contains(self.peek())
            invariant
                self.coherent(),
                class.well_formed(),
                self.moved(old(self), self.current as int),
                run_end(self.chars@, self.current as int, class) == run_end(
                    old(self).chars@,
                    old(self).current as int,
                    class,
                ),
            decreases self.chars@.len() - self.current,
        {
            self.advance();
        }
    }

    /// Brings the line and column, which stand at the start mark, up to the cursor.
    fn track(&mut self)
        requires
            old(self).coherent(),
            old(self).located(old(self).start as int),
        ensures
            final(self).rests_at(old(self), old(self).current as int),
            final(self).start == old(self).start,
            final(self).tokens == old(self).tokens,
    {
        let mut at: usize = self.start;
        while at < self.current
            invariant
                self.coherent(),
                self.same_input(old(self)),
                self.tokens == old(self).tokens,
                self.start == old(self).start,
                self.current == old(self).current,
                self.start <= at <= self.current,
                self.located(at as int),
            decreases self.current - at,
        {
            proof {
                lemma_position_bounds(self.chars@, at as int);
            }
            let character = self.chars[at];
            if character == '\n' {
                self.line += 1;
                self.column = 1;
            } else if character != '\r' {
                self.column += 1;
            }
            at += 1;
        }
    }

    /// Makes a token of the text read since the start mark, at the line and column of
    /// the start mark, and moves the column behind it.
    fn add_token(&mut self, kind: TokenKind<'a>)
        requires
            old(self).coherent(),
            old(self).located(old(self).start as int),
            no_breaks(old(self).chars@, old(self).start as int, old(self).current as int),
            !(kind@ is Eof),
        ensures
            final(self).rests_at(old(self), old(self).current as int),
            final(self).start == old(self).start,
            final(self).line == old(self).line,
            final(self).column == old(self).column + (old(self).current - old(self).start),
            final(self).emitted() == old(self).emitted().push(
                token_of(
                    old(self).chars@,
                    Span {
                        start: old(self).start as int,
                        end: old(self).current as int,
                        kind: kind@,
                    },
                ),
            ),
    {
        proof {
            lemma_position_without_breaks(self.chars@, self.start as int, self.current as int);
            lemma_position_bounds(self.chars@, self.current as int);
        }
        let lexeme = self.lexeme();
        let token = Token { lexeme, line: self.line, column: self.column, kind };
        self.column += self.current - self.start;
        self.tokens.push(token);
    }

    /// Scans the decimal literal whose first digit was just read.
    fn number(&mut self) -> (result: Result<(), Error<'a, 'b>>)
        requires
            old(self).coherent(),
            old(self).located(old(self).start as int),
            old(self).current == old(self).start + 1,
            is_digit(old(self).chars@[old(self).start as int], 10),
        ensures
            final(self).follows(old(self), decimal(old(self).chars@, old(self).start as int)),
            old(self).reports(result, decimal(old(self).chars@, old(self).start as int)),
    {
        let ghost src = self.chars@;
        let ghost start = self.start as int;
        proof {
            lemma_decimal(src, start);
        }
        self.read_while(CharClass::Digit(10));
        let mut has_fractional_part = false;
        if self.match_next('.', false) {
            if self.match_next_predicate(CharClass::Digit(10)) {
                has_fractional_part = true;
                self.read_while(CharClass::Digit(10));
            } else {
                self.current -= 1;
            }
        }
        proof {
            if self.current < src.len() {
                lemma_same_letter(src[self.current as int], 'e', 'E');
            }
        }
        let mut has_exponent_mark = false;
        let mut value_end: usize = self.current;
        if self.match_next('e', true) {
            has_exponent_mark = true;
            if self.match_next_predicate(CharClass::Digit(10)) {
                self.read_while(CharClass::Digit(10));
                value_end = self.current;
            } else if self.match_next('-', false) {
                if self.match_next_predicate(CharClass::Digit(10)) {
                    self.read_while(CharClass::Digit(10));
                    value_end = self.current;
                }
            }
        }

        let notation_end: usize = self.current;
        let bigint = if has_fractional_part {
            false
        } else {
            self.match_next('n', false)
        };
        if bigint {
            if has_exponent_mark {
                return Err(self.fail(self.lexeme(), self.start, ErrorKind::MalformedBigInt));
            }
            let literal = BigNat::from_decimal(self.slice(self.start, notation_end));
            self.add_token(TokenKind::BigInt(literal));
            return Ok(());
        }
        let literal = NumberValue::Decimal(self.slice(self.start, value_end));
        self.add_token(TokenKind::Number(literal));
        Ok(())
    }

    /// Scans the literal whose first digit, a zero, was just read: one in base 2, 8 or 16
    /// where a prefix follows the zero, else a decimal one.
    fn leading_zero_number(&mut self) -> (result: Result<(), Error<'a, 'b>>)
        requires
            old(self).coherent(),
            old(self).located(old(self).start as int),
            old(self).current == old(self).start + 1,
            old(self).chars@[old(self).start as int] == '0',
        ensures
            final(self).follows(old(self), leading_zero(old(self).chars@, old(self).start as int)),
            old(self).reports(result, leading_zero(old(self).chars@, old(self).start as int)),
    {
        let ghost src = self.chars@;
        let ghost start = self.start as int;
        proof {
            if start + 1 < src.len() {
                lemma_same_letter(src[start + 1], 'b', 'B');
                lemma_same_letter(src[start + 1], 'o', 'O');
            }
        }
        let radix: u32 = if self.match_next('b', true) {
            2
        } else if self.match_next('o', true) {
            8
        } else if self.match_next('x', false) {
            16
        } else {
            return self.number();
        };
        proof {
            lemma_digits_have_no_breaks(src, start + 2, radix);
            lemma_run_end(src, start + 2, CharClass::Digit(radix));
        }
        if self.match_next_predicate(CharClass::Digit(radix)) {
            self.read_while(CharClass::Digit(radix));
        } else {
            let next = self.peek_str(1);
            assert(next@.len() == if self.current < src.len() {
                1nat
            } else {
                0nat
            });
            assert(next@ =~= src.subrange(self.current as int, self.current + next@.len()));
            return Err(self.fail(next, self.current, ErrorKind::ExpectedDigit));
        }
        let stop: usize = self.current;
        let bigint = self.match_next('n', false);
        let value: u64 = match parse_radix(&self.chars, self.start + 2, stop, radix) {
            Some(value) => value,
            None => {
                return Err(self.fail(self.lexeme(), self.start, ErrorKind::NumberTooLarge));
            },
        };
        if bigint {
            self.add_token(TokenKind::BigInt(BigNat::from_u64(value)));
        } else {
            self.add_token(TokenKind::Number(NumberValue::Integer(value)));
        }
        Ok(())
    }

    /// The error of `kind` about `lexeme`, which stands at offset `at` on the line of the
    /// start mark.
    fn fail(&self, lexeme: &'a str, at: usize, kind: ErrorKind) -> (error: Error<'a, 'b>)
        requires
            self.coherent(),
            self.located(self.start as int),
            self.start <= at,
            at + lexeme@.len() <= self.chars@.len(),
            lexeme@ == self.chars@.subrange(at as int, at + lexeme@.len()),
            no_breaks(self.chars@, self.start as int, at as int),
        ensures
            error@ == error_of(
                self.chars@,
                self.filename@,
                Fault { kind, at: at as int, len: lexeme@.len() as int },
            ),
    {
        proof {
            lemma_position_without_breaks(self.chars@, self.start as int, at as int);
            lemma_position_bounds(self.chars@, at as int);
        }
        let (from, to) = line_span(&self.chars, at);
        let context = self.slice(from, to);
        let column: usize = self.column + (at - self.start);
        Error::new(lexeme, self.line, column, context, self.filename, kind)
    }
}

/// Scans the source of `tokenizer` from its cursor to its end, as
/// [`Tokenizer::scan_tokens`] does.
pub fn run<'a>(tokenizer: &'a mut Tokenizer<'a, 'a>) -> (result: Result<
    &'a [Token<'a>],
    Error<'a, 'a>,
>)
    requires
        old(tokenizer).well_formed(),
    ensures
        result_view(result) == old(tokenizer).outcome(),
        old(tokenizer).position() == 0 && old(tokenizer).emitted().len() == 0 ==> result_view(
            result,
        ) == scan(old(tokenizer).text(), old(tokenizer).file_name()),
        final(tokenizer).text() == old(tokenizer).text(),
        final(tokenizer).file_name() == old(tokenizer).file_name(),
        result matches Ok(tokens) ==> {
            &&& final(tokenizer).well_formed()
            &&& final(tokenizer).position() == old(tokenizer).text().len()
            &&& final(tokenizer).emitted() == token_views(tokens@)
        },
{
    tokenizer.scan_tokens()
}

} // verus!
