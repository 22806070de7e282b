//! Characters and bytes of a text: where each character of a string starts among its
//! bytes, so that a stretch of characters can be cut out without walking the string.

use vstd::prelude::*;
use vstd::string::StringSliceAdditionalSpecFns;
use vstd::utf8::{
    encode_scalar, encode_utf8, encode_utf8_decode_utf8, encode_utf8_first_scalar,
    encode_utf8_valid_utf8, is_char_boundary, pop_first_scalar,
};

verus! {

/// The number of bytes that the first `count` characters of `chars` take in UTF-8.
pub open spec fn byte_offset(chars: Seq<char>, count: int) -> int {
    encode_utf8(chars.take(count)).len() as int
}

/// `offsets` holds, for each character of `chars` and for their end, the byte at which
/// it starts in UTF-8.
pub open spec fn indexes(offsets: Seq<usize>, chars: Seq<char>) -> bool {
    &&& offsets.len() == chars.len() + 1
    &&& forall|i: int| 0 <= i <= chars.len() ==> #[trigger] offsets[i] == byte_offset(chars, i)
}

/// A text is encoded part by part.
pub proof fn lemma_encode_parts(first: Seq<char>, second: Seq<char>)
    ensures
        encode_utf8(first + second) == encode_utf8(first) + encode_utf8(second),
    decreases first.len(),
{
    if first.len() > 0 {
        assert((first + second).drop_first() == first.drop_first() + second);
        lemma_encode_parts(first.drop_first(), second);
    }
}

/// A character more takes the bytes of its encoding more.
pub proof fn lemma_byte_offset_step(chars: Seq<char>, count: int)
    requires
        0 <= count < chars.len(),
    ensures
        byte_offset(chars, count + 1) == byte_offset(chars, count) + encode_scalar(
            chars[count] as u32,
        ).len(),
        1 <= encode_scalar(chars[count] as u32).len() <= 4,
{
    let one = seq![chars[count]];
    assert(chars.take(count + 1) == chars.take(count) + one);
    lemma_encode_parts(chars.take(count), one);
    assert(one.drop_first() == Seq::<char>::empty());
    assert(encode_utf8(one) == encode_scalar(chars[count] as u32) + encode_utf8(
        Seq::<char>::empty(),
    ));
}

/// The bytes of a start of a text are a start of the bytes of the text.
pub proof fn lemma_byte_offset_bound(chars: Seq<char>, count: int)
    requires
        0 <= count <= chars.len(),
    ensures
        0 <= byte_offset(chars, count) <= encode_utf8(chars).len(),
        encode_utf8(chars).subrange(0, byte_offset(chars, count)) == encode_utf8(
            chars.take(count),
        ),
        encode_utf8(chars).subrange(byte_offset(chars, count), encode_utf8(chars).len() as int)
            == encode_utf8(chars.skip(count)),
{
    assert(chars == chars.take(count) + chars.skip(count));
    lemma_encode_parts(chars.take(count), chars.skip(count));
}

/// Every character of a text starts at a character boundary of its bytes, and so does
/// the end of the text.
pub proof fn lemma_byte_offset_is_boundary(chars: Seq<char>, count: int)
    requires
        0 <= count <= chars.len(),
    ensures
        is_char_boundary(encode_utf8(chars), byte_offset(chars, count)),
    decreases count,
{
    let bytes = encode_utf8(chars);
    encode_utf8_valid_utf8(chars);
    if count > 0 {
        let rest = chars.drop_first();
        lemma_byte_offset_is_boundary(rest, count - 1);
        lemma_byte_offset_bound(chars, count);
        encode_utf8_first_scalar(chars);
        assert(pop_first_scalar(bytes) == encode_utf8(rest));
        assert(chars.take(count).drop_first() == rest.take(count - 1));
        assert(byte_offset(chars, count) == encode_scalar(chars[0] as u32).len() + byte_offset(
            rest,
            count - 1,
        ));
    }
}

/// A string is the text that its bytes encode.
pub proof fn lemma_text_of_bytes(text: &str, chars: Seq<char>)
    requires
        text.spec_bytes() == encode_utf8(chars),
    ensures
        text@ == chars,
{
    encode_utf8_decode_utf8(text@);
    encode_utf8_decode_utf8(chars);
}

/// The number of bytes that `c` takes in UTF-8.
pub fn encoded_len(c: char) -> (len: usize)
    ensures
        len == encode_scalar(c as u32).len(),
        1 <= len <= 4,
{
    let code: u32 = c as u32;
    if code <= 0x7F {
        1
    } else if code <= 0x7FF {
        2
    } else if code <= 0xFFFF {
        3
    } else {
        4
    }
}

/// The characters of `source`, and the byte at which each of them starts.
pub fn index(source: &str) -> (found: (Vec<char>, Vec<usize>))
    ensures
        found.0@ == source@,
        indexes(found.1@, source@),
{
    let ghost text = source@;
    let size: usize = source.as_bytes().len();
    let mut chars: Vec<char> = Vec::new();
    let mut offsets: Vec<usize> = Vec::new();
    let mut offset: usize = 0;
    for c in it: source.chars()
        invariant
            it.seq() == text,
            size == encode_utf8(text).len(),
            chars@ == text.take(it.index() as int),
            offsets@.len() == it.index(),
            offset == byte_offset(text, it.index() as int),
            forall|i: int| 0 <= i < it.index() ==> #[trigger] offsets@[i] == byte_offset(text, i),
    {
        let ghost at = chars@.len() as int;
        proof {
            lemma_byte_offset_step(text, at);
            lemma_byte_offset_bound(text, at + 1);
        }
        chars.push(c);
        offsets.push(offset);
        offset += encoded_len(c);
    }
    offsets.push(offset);
    (chars, offsets)
}

/// The characters of `source` from `from` up to `to`, where `offsets` holds the byte at
/// which each character of `source` starts.
pub fn cut<'a>(source: &'a str, offsets: &Vec<usize>, from: usize, to: usize) -> (text: &'a str)
    requires
        indexes(offsets@, source@),
        from <= to <= source@.len(),
    ensures
        text@ == source@.subrange(from as int, to as int),
{
    let ghost chars = source@;
    proof {
        lemma_byte_offset_is_boundary(chars, to as int);
        lemma_byte_offset_bound(chars, to as int);
    }
    let (head, _) = source.split_at(offsets[to]);
    proof {
        lemma_text_of_bytes(head, chars.take(to as int));
        assert(head@.take(from as int) == chars.take(from as int));
        lemma_byte_offset_is_boundary(head@, from as int);
        lemma_byte_offset_bound(head@, from as int);
    }
    let (_, text) = head.split_at(offsets[from]);
    proof {
        lemma_text_of_bytes(text, head@.skip(from as int));
    }
    text
}

} // verus!
