//! Character classes of the scanned language: digits in a radix, blanks, line breaks,
//! and the case folding of ASCII letters.

use vstd::prelude::*;

verus! {

/// The largest radix in which a digit can be written with the characters `0-9a-z`.
pub const MAX_RADIX: u32 = 36;

/// The value of `c` read as a digit: `0` to `9`, then the ASCII letters of either case
/// from 10 to 35. A character that is a digit in no radix has the value 36.
pub open spec fn digit_value(c: char) -> nat {
    let code = c as u32;
    if 0x30 <= code <= 0x39 {
        (code - 0x30) as nat
    } else if 0x61 <= code <= 0x7a {
        (code - 0x61 + 10) as nat
    } else if 0x41 <= code <= 0x5a {
        (code - 0x41 + 10) as nat
    } else {
        36
    }
}

/// Whether `c` is a digit in the given radix.
pub open spec fn is_digit(c: char, radix: nat) -> bool {
    digit_value(c) < radix
}

/// Whether `c` ends a line (`\n`) or is a carriage return, which takes no column.
pub open spec fn is_break(c: char) -> bool {
    c == '\n' || c == '\r'
}

/// Whether `c` is skipped between tokens: space, tab, carriage return or newline.
pub open spec fn is_blank(c: char) -> bool {
    c == ' ' || c == '\t' || c == '\r' || c == '\n'
}

/// The code of `c` with the ASCII capitals mapped to their small letters.
pub open spec fn folded(c: char) -> u32 {
    let code = c as u32;
    if 0x41 <= code <= 0x5a {
        (code + 0x20) as u32
    } else {
        code
    }
}

/// Whether `c` is `expected`, or, with `any_case`, differs from it only in ASCII case.
pub open spec fn same_char(c: char, expected: char, any_case: bool) -> bool {
    if any_case {
        folded(c) == folded(expected)
    } else {
        c == expected
    }
}

/// Folding maps a small letter and its capital together, and nothing else.
pub proof fn lemma_same_letter(c: char, small: char, capital: char)
    requires
        0x61 <= small as u32 <= 0x7a,
        capital as u32 == small as u32 - 0x20,
    ensures
        same_char(c, small, true) <==> (c == small || c == capital),
{
}

/// The digit that `c` stands for in `radix`, if it is one.
pub fn to_digit(c: char, radix: u32) -> (digit: Option<u32>)
    requires
        radix <= MAX_RADIX,
    ensures
        digit == if is_digit(c, radix as nat) {
            Some(digit_value(c) as u32)
        } else {
            None::<u32>
        },
{
    let code: u32 = c as u32;
    let value: u32 = if 0x30 <= code && code <= 0x39 {
        code - 0x30
    } else if 0x61 <= code && code <= 0x7a {
        code - 0x61 + 10
    } else if 0x41 <= code && code <= 0x5a {
        code - 0x41 + 10
    } else {
        36
    };
    if value < radix {
        Some(value)
    } else {
        None
    }
}

/// Executable form of [`folded`].
pub fn fold(c: char) -> (code: u32)
    ensures
        code == folded(c),
{
    let code: u32 = c as u32;
    if 0x41 <= code && code <= 0x5a {
        code + 0x20
    } else {
        code
    }
}

/// Executable form of [`same_char`].
pub fn is_same_char(c: char, expected: char, any_case: bool) -> (same: bool)
    ensures
        same == same_char(c, expected, any_case),
{
    if any_case {
        fold(c) == fold(expected)
    } else {
        c == expected
    }
}

/// A set of characters that a run of input may be drawn from.
#[derive(Debug, Clone, Copy, PartialEq, Eq)]
pub enum CharClass {
    /// The digits of a radix.
    Digit(u32),
    /// Every character but the newline.
    NotNewline,
}

impl CharClass {
    /// The radix of a digit class is one in which digits can be written.
    pub open spec fn well_formed(self) -> bool {
        match self {
            CharClass::Digit(radix) => radix <= MAX_RADIX,
            CharClass::NotNewline => true,
        }
    }

    /// Whether `c` belongs to the class.
    pub open spec fn admits(self, c: char) -> bool {
        match self {
            CharClass::Digit(radix) => is_digit(c, radix as nat),
            CharClass::NotNewline => c != '\n',
        }
    }

    /// Executable form of [`CharClass::admits`].
    pub fn contains(&self, c: char) -> (member: bool)
        requires
            self.well_formed(),
        ensures
            member == self.admits(c),
    {
        match self {
            CharClass::Digit(radix) => to_digit(c, *radix).is_some(),
            CharClass::NotNewline => c != '\n',
        }
    }
}

} // verus!
