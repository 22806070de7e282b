//! The values of numeric literals: digit strings in a radix, and natural numbers of any
//! size held as base 2^32 limbs.

use vstd::prelude::*;
use crate::chars::{digit_value, is_digit, to_digit, MAX_RADIX};

verus! {

/// Every character of `digits` is a digit in `radix`.
pub open spec fn all_digits(digits: Seq<char>, radix: nat) -> bool {
    forall|i: int| 0 <= i < digits.len() ==> is_digit(#[trigger] digits[i], radix)
}

/// The number that `digits` writes in `radix`, most significant digit first.
pub open spec fn radix_value(digits: Seq<char>, radix: nat) -> nat
    decreases digits.len(),
{
    if digits.len() == 0 {
        0
    } else {
        radix_value(digits.drop_last(), radix) * radix + digit_value(digits.last())
    }
}

/// The number that `limbs` writes in base 2^32, least significant limb first.
pub open spec fn limbs_value(limbs: Seq<u32>) -> nat
    decreases limbs.len(),
{
    if limbs.len() == 0 {
        0
    } else {
        limbs[0] as nat + 0x1_0000_0000 * limbs_value(limbs.drop_first())
    }
}

/// `limbs` has no superfluous limb: it is empty or its most significant limb is not zero.
pub open spec fn trimmed(limbs: Seq<u32>) -> bool {
    limbs.len() == 0 || limbs.last() != 0
}

/// The limbs of a number that 64 bits hold.
pub open spec fn limbs_of_u64(value: u64) -> Seq<u32> {
    let low = (value % 0x1_0000_0000) as u32;
    let high = (value / 0x1_0000_0000) as u32;
    if value == 0 {
        Seq::empty()
    } else if high == 0 {
        seq![low]
    } else {
        seq![low, high]
    }
}

/// The limbs of a number that 64 bits hold write this number, with no superfluous limb.
pub proof fn lemma_limbs_of_u64(value: u64)
    ensures
        limbs_value(limbs_of_u64(value)) == value,
        trimmed(limbs_of_u64(value)),
{
    let high = (value / 0x1_0000_0000) as u32;
    let limbs = limbs_of_u64(value);
    if value != 0 {
        assert(limbs_value(limbs.drop_first()) == high) by {
            reveal_with_fuel(limbs_value, 2);
            if high != 0 {
                assert(limbs.drop_first().drop_first() == Seq::<u32>::empty());
            }
        }
    }
}

/// A digit string is worth at least as much as any shorter start of it.
pub proof fn lemma_radix_value_grows(digits: Seq<char>, radix: nat, shorter: int)
    requires
        radix >= 1,
        0 <= shorter <= digits.len(),
    ensures
        radix_value(digits.take(shorter), radix) <= radix_value(digits, radix),
    decreases digits.len(),
{
    if shorter == digits.len() {
        assert(digits.take(shorter) == digits);
    } else {
        let front = digits.drop_last();
        assert(front.take(shorter) == digits.take(shorter));
        lemma_radix_value_grows(front, radix, shorter);
        assert(radix_value(front, radix) <= radix_value(front, radix) * radix) by (nonlinear_arith)
            requires
                radix >= 1,
        ;
    }
}

/// The number written by the characters of `chars` from `from` up to `to`, read as digits
/// in `radix`; `None` where it does not fit in 64 bits.
pub fn parse_radix(chars: &Vec<char>, from: usize, to: usize, radix: u32) -> (value: Option<u64>)
    requires
        from <= to <= chars@.len(),
        1 <= radix <= MAX_RADIX,
        all_digits(chars@.subrange(from as int, to as int), radix as nat),
    ensures
        value == if radix_value(chars@.subrange(from as int, to as int), radix as nat) <= u64::MAX {
            Some(radix_value(chars@.subrange(from as int, to as int), radix as nat) as u64)
        } else {
            None::<u64>
        },
{
    let ghost digits = chars@.subrange(from as int, to as int);
    let mut value: u64 = 0;
    let mut next: usize = from;
    while next < to
        invariant
            from <= next <= to <= chars@.len(),
            1 <= radix <= MAX_RADIX,
            digits == chars@.subrange(from as int, to as int),
            all_digits(digits, radix as nat),
            value == radix_value(digits.take(next - from), radix as nat),
        decreases to - next,
    {
        let ghost seen = digits.take(next - from + 1);
        proof {
            assert(seen.drop_last() == digits.take(next - from));
            lemma_radix_value_grows(digits, radix as nat, next - from + 1);
        }
        let digit: u32 = match to_digit(chars[next], radix) {
            Some(digit) => digit,
            None => 0,
        };
        let scaled: u64 = match value.checked_mul(radix as u64) {
            Some(scaled) => scaled,
            None => {
                return None;
            },
        };
        value = match scaled.checked_add(digit as u64) {
            Some(sum) => sum,
            None => {
                return None;
            },
        };
        next += 1;
    }
    proof {
        assert(digits.take(to - from) == digits);
    }
    Some(value)
}

/// A natural number of any size.
///
/// It is held as its digits in base 2^32, least significant first and without a
/// superfluous zero limb, so that each number has one representation.
#[derive(Debug, PartialEq, Eq)]
pub struct BigNat {
    limbs: Vec<u32>,
}

impl View for BigNat {
    type V = nat;

    closed spec fn view(&self) -> nat {
        limbs_value(self.limbs@)
    }
}

impl BigNat {
    #[verifier::type_invariant]
    spec fn canonical(self) -> bool {
        trimmed(self.limbs@)
    }

    /// The limbs of the number, least significant first.
    pub closed spec fn limbs_view(&self) -> Seq<u32> {
        self.limbs@
    }

    /// The limbs of the number in base 2^32, least significant first.
    pub fn limbs(&self) -> (limbs: &Vec<u32>)
        ensures
            limbs@ == self.limbs_view(),
            limbs_value(limbs@) == self@,
            trimmed(limbs@),
    {
        proof {
            use_type_invariant(self);
        }
        &self.limbs
    }

    /// The number that a string of decimal digits writes.
    pub(crate) fn from_decimal(digits: &str) -> (number: BigNat)
        requires
            digits@.len() > 0,
            all_digits(digits@, 10),
        ensures
            number@ == radix_value(digits@, 10),
    {
        BigNat { limbs: decimal_to_limbs(digits) }
    }

    /// The number `value`: no limb for zero, one for a value below 2^32, else two.
    pub fn from_u64(value: u64) -> (number: BigNat)
        ensures
            number@ == value,
            number.limbs_view() == limbs_of_u64(value),
    {
        let low: u32 = (value % 0x1_0000_0000) as u32;
        let high: u32 = (value / 0x1_0000_0000) as u32;
        let mut limbs: Vec<u32> = Vec::new();
        if value != 0 {
            limbs.push(low);
        }
        if high != 0 {
            limbs.push(high);
        }
        proof {
            lemma_limbs_of_u64(value);
            assert(limbs@ == limbs_of_u64(value));
        }
        BigNat { limbs }
    }
}

/// Parses decimal digits with `num_bigint`: `<BigInt as FromStr>::from_str`, then
/// `BigInt::to_u32_digits` for the magnitude.
///
/// Unproved: that a non-empty string of ASCII decimal digits is accepted, and that the
/// limbs handed back are the base 2^32 digits of the number it writes, least significant
/// first and none of them a leading zero.
#[verifier::external_body]
fn decimal_to_limbs(digits: &str) -> (limbs: Vec<u32>)
    requires
        digits@.len() > 0,
        all_digits(digits@, 10),
    ensures
        limbs_value(limbs@) == radix_value(digits@, 10),
        trimmed(limbs@),
{
    digits.parse::<num_bigint::BigInt>().unwrap().to_u32_digits().1
}

} // verus!
