//! Lines and columns of a text: where an offset lies, and the text of the line around it.
//!
//! Lines and columns count from 1. A newline ends its line; a carriage return takes no
//! column; every other character takes one.

use vstd::prelude::*;
use crate::chars::is_break;

verus! {

/// The line in which offset `pos` of `src` lies: one more than the newlines before it.
pub open spec fn line_at(src: Seq<char>, pos: int) -> int
    decreases pos,
{
    if pos <= 0 {
        1
    } else if src[pos - 1] == '\n' {
        line_at(src, pos - 1) + 1
    } else {
        line_at(src, pos - 1)
    }
}

/// The column at which offset `pos` of `src` lies: one more than the characters between
/// the start of its line and `pos`, carriage returns not counted.
pub open spec fn column_at(src: Seq<char>, pos: int) -> int
    decreases pos,
{
    if pos <= 0 {
        1
    } else if src[pos - 1] == '\n' {
        1
    } else if src[pos - 1] == '\r' {
        column_at(src, pos - 1)
    } else {
        column_at(src, pos - 1) + 1
    }
}

/// The offset at which the line around `pos` starts: just behind the last newline
/// before `pos`, or 0.
pub open spec fn line_start(src: Seq<char>, pos: int) -> int
    decreases pos,
{
    if pos <= 0 {
        0
    } else if src[pos - 1] == '\n' {
        pos
    } else {
        line_start(src, pos - 1)
    }
}

/// The offset of the first newline at or behind `pos`, or the length of `src`.
pub open spec fn line_end(src: Seq<char>, pos: int) -> int
    decreases src.len() - pos,
{
    if pos >= src.len() {
        src.len() as int
    } else if src[pos] == '\n' {
        pos
    } else {
        line_end(src, pos + 1)
    }
}

/// Where the text of the line around `pos` ends: at its newline (or the end of `src`),
/// a carriage return just before that newline left out.
pub open spec fn line_text_end(src: Seq<char>, pos: int) -> int {
    let end = line_end(src, pos);
    if end < src.len() && line_start(src, pos) < end && src[end - 1] == '\r' {
        end - 1
    } else {
        end
    }
}

/// The text of the line around `pos`, without its line ending.
pub open spec fn line_text(src: Seq<char>, pos: int) -> Seq<char> {
    src.subrange(line_start(src, pos), line_text_end(src, pos))
}

/// No character of `src` from `from` up to `to` is a newline or a carriage return.
pub open spec fn no_breaks(src: Seq<char>, from: int, to: int) -> bool {
    forall|i: int| from <= i < to ==> !is_break(#[trigger] src[i])
}

/// Lines and columns start at 1 and grow by at most one per character.
pub proof fn lemma_position_bounds(src: Seq<char>, pos: int)
    requires
        0 <= pos,
    ensures
        1 <= line_at(src, pos) <= pos + 1,
        1 <= column_at(src, pos) <= pos + 1,
    decreases pos,
{
    if pos > 0 {
        lemma_position_bounds(src, pos - 1);
    }
}

/// Behind a newline the next line begins, at column 1.
pub proof fn lemma_newline_starts_line(src: Seq<char>, pos: int)
    requires
        0 < pos <= src.len(),
        src[pos - 1] == '\n',
    ensures
        line_at(src, pos) == line_at(src, pos - 1) + 1,
        column_at(src, pos) == 1,
{
}

/// Over a stretch without line breaks the line stays and the column grows by its length.
pub proof fn lemma_position_without_breaks(src: Seq<char>, from: int, to: int)
    requires
        0 <= from <= to,
        no_breaks(src, from, to),
    ensures
        line_at(src, to) == line_at(src, from),
        column_at(src, to) == column_at(src, from) + (to - from),
    decreases to - from,
{
    if from < to {
        lemma_position_without_breaks(src, from, to - 1);
    }
}

/// The line around `pos` starts at or before `pos`, ends at or behind it, and holds no
/// newline.
pub proof fn lemma_line_bounds(src: Seq<char>, pos: int)
    requires
        0 <= pos <= src.len(),
    ensures
        0 <= line_start(src, pos) <= pos <= line_end(src, pos) <= src.len(),
        line_start(src, pos) <= line_text_end(src, pos) <= line_end(src, pos),
        line_start(src, pos) > 0 ==> src[line_start(src, pos) - 1] == '\n',
        line_end(src, pos) < src.len() ==> src[line_end(src, pos)] == '\n',
        forall|i: int| line_start(src, pos) <= i < line_end(src, pos) ==> src[i] != '\n',
{
    lemma_line_start(src, pos);
    lemma_line_end(src, pos);
}

proof fn lemma_line_start(src: Seq<char>, pos: int)
    requires
        0 <= pos <= src.len(),
    ensures
        0 <= line_start(src, pos) <= pos,
        line_start(src, pos) > 0 ==> src[line_start(src, pos) - 1] == '\n',
        forall|i: int| line_start(src, pos) <= i < pos ==> src[i] != '\n',
    decreases pos,
{
    if pos > 0 && src[pos - 1] != '\n' {
        lemma_line_start(src, pos - 1);
    }
}

proof fn lemma_line_end(src: Seq<char>, pos: int)
    requires
        0 <= pos <= src.len(),
    ensures
        pos <= line_end(src, pos) <= src.len(),
        line_end(src, pos) < src.len() ==> src[line_end(src, pos)] == '\n',
        forall|i: int| pos <= i < line_end(src, pos) ==> src[i] != '\n',
    decreases src.len() - pos,
{
    if pos < src.len() && src[pos] != '\n' {
        lemma_line_end(src, pos + 1);
    }
}

/// The offsets between which the text of the line around `pos` lies.
pub fn line_span(chars: &Vec<char>, pos: usize) -> (span: (usize, usize))
    requires
        pos <= chars@.len(),
    ensures
        span.0 == line_start(chars@, pos as int),
        span.1 == line_text_end(chars@, pos as int),
        span.0 <= span.1 <= chars@.len(),
{
    proof {
        lemma_line_bounds(chars@, pos as int);
    }
    let mut start: usize = pos;
    while start > 0 && chars[start - 1] != '\n'
        invariant
            start <= pos <= chars@.len(),
            line_start(chars@, start as int) == line_start(chars@, pos as int),
        decreases start,
    {
        start -= 1;
    }
    let mut end: usize = pos;
    while end < chars.len() && chars[end] != '\n'
        invariant
            pos <= end <= chars@.len(),
            line_end(chars@, end as int) == line_end(chars@, pos as int),
        decreases chars@.len() - end,
    {
        end += 1;
    }
    if end < chars.len() && start < end && chars[end - 1] == '\r' {
        end -= 1;
    }
    (start, end)
}

} // verus!
