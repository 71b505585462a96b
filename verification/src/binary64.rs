//! What the evaluator has to know about a number without computing with it.
//!
//! A number is an IEEE-754 binary64 value, held as its bit pattern: one sign
//! bit, eleven bits of biased exponent, fifty-two bits of fraction. Whether
//! it is negative, zero or whole can be read off the pattern.

use vstd::prelude::*;

verus! {

/// The bit pattern of positive zero.
pub const ZERO: u64 = 0;

/// The exponent that is stored for a value from one up to, but not
/// including, two.
pub const EXPONENT_BIAS: u64 = 1023;

/// The exponent that is stored for infinities and for values that are not
/// numbers.
pub const EXPONENT_MAX: u64 = 2047;

/// The least stored exponent at which every bit of the fraction stands for
/// one or more.
pub const EXPONENT_WHOLE: u64 = 1075;

pub open spec fn sign_bit(bits: u64) -> bool {
    bits >> 63 == 1
}

pub open spec fn exponent_bits(bits: u64) -> u64 {
    (bits >> 52) & 0x7ff
}

pub open spec fn fraction_bits(bits: u64) -> u64 {
    bits & 0x000f_ffff_ffff_ffff
}

/// The pattern is not a number.
pub open spec fn is_nan(bits: u64) -> bool {
    exponent_bits(bits) == EXPONENT_MAX && fraction_bits(bits) != 0
}

/// The value is zero, of either sign.
pub open spec fn is_zero(bits: u64) -> bool {
    exponent_bits(bits) == 0 && fraction_bits(bits) == 0
}

/// The value is less than zero.
pub open spec fn is_negative(bits: u64) -> bool {
    sign_bit(bits) && !is_nan(bits) && !is_zero(bits)
}

/// The value is zero or less.
pub open spec fn is_non_positive(bits: u64) -> bool {
    is_negative(bits) || is_zero(bits)
}

/// The pattern in which the lowest `n` bits are set and no others, for `n`
/// below 64.
pub open spec fn low_bits(n: u64) -> u64 {
    ((1u64 << n) - 1) as u64
}

/// The value is a whole number. That is so where it is zero, and where it is
/// finite, at least one in size, and the bits of the fraction that stand for
/// less than one are all clear. With a stored exponent `e` below 1075 these
/// are the lowest `1075 - e` bits.
pub open spec fn is_whole(bits: u64) -> bool {
    let e = exponent_bits(bits);
    ||| is_zero(bits)
    ||| EXPONENT_WHOLE <= e < EXPONENT_MAX
    ||| EXPONENT_BIAS <= e < EXPONENT_WHOLE && fraction_bits(bits) & low_bits(
        (EXPONENT_WHOLE - e) as u64,
    ) == 0
}

/// The value is a whole number that is not negative.
pub open spec fn is_count(bits: u64) -> bool {
    is_whole(bits) && !is_negative(bits)
}

/// Whether the value is less than zero.
pub fn negative(bits: u64) -> (r: bool)
    ensures
        r == is_negative(bits),
{
    let sign = bits >> 63 == 1;
    let e = (bits >> 52) & 0x7ff;
    let f = bits & 0x000f_ffff_ffff_ffff;
    sign && !(e == EXPONENT_MAX && f != 0) && !(e == 0 && f == 0)
}

/// Whether the value is zero or less.
pub fn non_positive(bits: u64) -> (r: bool)
    ensures
        r == is_non_positive(bits),
{
    let e = (bits >> 52) & 0x7ff;
    let f = bits & 0x000f_ffff_ffff_ffff;
    negative(bits) || (e == 0 && f == 0)
}

/// Whether the value is a whole number that is not negative.
pub fn count(bits: u64) -> (r: bool)
    ensures
        r == is_count(bits),
{
    let e = (bits >> 52) & 0x7ff;
    let f = bits & 0x000f_ffff_ffff_ffff;
    let whole = if e == 0 && f == 0 {
        true
    } else if e >= EXPONENT_MAX {
        false
    } else if e >= EXPONENT_WHOLE {
        true
    } else if e >= EXPONENT_BIAS {
        let small: u64 = EXPONENT_WHOLE - e;
        assert(1u64 << small >= 1) by (bit_vector)
            requires
                0 < small <= 52,
        ;
        f & ((1u64 << small) - 1) == 0
    } else {
        false
    };
    assert(e <= 0x7ff) by (bit_vector)
        requires
            e == (bits >> 52) & 0x7ff,
    ;
    whole && !negative(bits)
}

} // verus!
