//! The limits of the representation and its named values.
//!
//! Each binary64 constant is written as its pattern; the comment beside it
//! gives the value.

use vstd::prelude::*;
use vstd::arithmetic::power2::{lemma2_to64, lemma2_to64_rest};
use crate::binary64::{lemma_whole_units, one_in_units, units};
use crate::decimal::Decimal;

verus! {

/// The decimal digits that a binary64 mantissa can carry.
pub const MAX_SIGNIFICANT_DIGITS: u32 = 17;

/// The smallest power of ten that a binary64 value can reach.
pub const NUMBER_EXP_MIN: i32 = -324;

/// The largest power of ten that a binary64 value can reach.
pub const NUMBER_EXP_MAX: i32 = 308;

/// `0.0`
pub const ZERO_BITS: u64 = 0x0000_0000_0000_0000;

/// `1.0`
pub const ONE_BITS: u64 = 0x3ff0_0000_0000_0000;

/// `-1.0`
pub const NEG_ONE_BITS: u64 = 0xbff0_0000_0000_0000;

/// `2.0`
pub const TWO_BITS: u64 = 0x4000_0000_0000_0000;

/// `10.0`
pub const TEN_BITS: u64 = 0x4024_0000_0000_0000;

/// The binary64 value nearest to pi, `3.141592653589793`
pub const PI_BITS: u64 = 0x4009_21fb_5444_2d18;

/// The binary64 value nearest to twice pi, `6.283185307179586`
pub const TAU_BITS: u64 = 0x4019_21fb_5444_2d18;

/// The binary64 value nearest to Euler's number, `2.718281828459045`
pub const E_BITS: u64 = 0x4005_bf0a_8b14_5769;

/// `17.0`: from this exponent on, a value has more whole digits than a
/// binary64 carries.
pub const DIGITS_LIMIT: u64 = 0x4031_0000_0000_0000;

/// `21.0`: below this exponent, and above `PLAIN_ABOVE`, a value is written
/// as a plain number.
pub const PLAIN_BELOW: u64 = 0x4035_0000_0000_0000;

/// `-7.0`
pub const PLAIN_ABOVE: u64 = 0xc01c_0000_0000_0000;

/// `154.0`: below this exponent, and above `SCALED_ABOVE`, a value is written
/// with the name of its power of one thousand.
pub const SCALED_BELOW: u64 = 0x4063_4000_0000_0000;

/// `-10.0`
pub const SCALED_ABOVE: u64 = 0xc024_0000_0000_0000;

/// `308.0`
pub const NUMBER_EXP_MAX_BITS: u64 = 0x4073_4000_0000_0000;

/// `-324.0`
pub const NUMBER_EXP_MIN_BITS: u64 = 0xc074_4000_0000_0000;

/// `1.79e308`: an exponent at or above it makes the value infinite.
pub const EXP_LIMIT: u64 = 0x7fef_dcf1_58ad_bb99;

/// `-1.79e308`: an exponent at or below it makes the value zero.
pub const NEG_EXP_LIMIT: u64 = 0xffef_dcf1_58ad_bb99;

/// `-1.7899999999999998e308`: the binary64 value next above `NEG_EXP_LIMIT`.
pub const ALMOST_ZERO_EXP_LIMIT: u64 = 0xffef_dcf1_58ad_bb98;

/// Not a number: both fields the quiet NaN.
pub open spec fn nan() -> Decimal {
    Decimal { mantissa: crate::binary64::NAN, exponent: crate::binary64::NAN }
}

/// Infinity by its exponent: mantissa `1.0`, exponent the binary64 infinity.
pub open spec fn infinity() -> Decimal {
    Decimal { mantissa: ONE_BITS, exponent: crate::binary64::INFINITY }
}

/// Negative infinity by its exponent: mantissa `-1.0`, exponent the binary64 infinity.
pub open spec fn neg_infinity() -> Decimal {
    Decimal { mantissa: NEG_ONE_BITS, exponent: crate::binary64::INFINITY }
}

/// Zero: mantissa `0.0`, exponent `0.0`.
pub open spec fn zero() -> Decimal {
    Decimal { mantissa: ZERO_BITS, exponent: ZERO_BITS }
}

/// One: mantissa `1.0`, exponent `0.0`.
pub open spec fn one() -> Decimal {
    Decimal { mantissa: ONE_BITS, exponent: ZERO_BITS }
}

/// Minus one: mantissa `-1.0`, exponent `0.0`.
pub open spec fn neg_one() -> Decimal {
    Decimal { mantissa: NEG_ONE_BITS, exponent: ZERO_BITS }
}

/// Two: mantissa `2.0`, exponent `0.0`.
pub open spec fn two() -> Decimal {
    Decimal { mantissa: TWO_BITS, exponent: ZERO_BITS }
}

/// Ten: mantissa `1.0`, exponent `1.0`.
pub open spec fn ten() -> Decimal {
    Decimal { mantissa: ONE_BITS, exponent: ONE_BITS }
}

/// The largest value, which stands for positive infinity: `1e1.79e308`.
pub open spec fn max_value() -> Decimal {
    Decimal { mantissa: ONE_BITS, exponent: EXP_LIMIT }
}

/// The smallest value, which stands for negative infinity: `-1e1.79e308`.
pub open spec fn min_value() -> Decimal {
    Decimal { mantissa: NEG_ONE_BITS, exponent: EXP_LIMIT }
}

/// The smallest positive value.
pub open spec fn almost_zero() -> Decimal {
    Decimal { mantissa: ONE_BITS, exponent: ALMOST_ZERO_EXP_LIMIT }
}

/// The negative value nearest to zero.
pub open spec fn almost_negative_zero() -> Decimal {
    Decimal { mantissa: NEG_ONE_BITS, exponent: ALMOST_ZERO_EXP_LIMIT }
}

/// The circle constant pi.
pub open spec fn pi() -> Decimal {
    Decimal { mantissa: PI_BITS, exponent: ZERO_BITS }
}

/// Twice pi.
pub open spec fn tau() -> Decimal {
    Decimal { mantissa: TAU_BITS, exponent: ZERO_BITS }
}

/// Euler's number.
pub open spec fn e() -> Decimal {
    Decimal { mantissa: E_BITS, exponent: ZERO_BITS }
}

/// The patterns of the whole-number constants have the values that their names give.
pub proof fn lemma_whole_constants()
    ensures
        units(ZERO_BITS) == 0,
        units(ONE_BITS) == one_in_units(),
        units(NEG_ONE_BITS) == -one_in_units(),
        units(TWO_BITS) == 2 * one_in_units(),
        units(TEN_BITS) == 10 * one_in_units(),
        units(DIGITS_LIMIT) == 17 * one_in_units(),
        units(PLAIN_BELOW) == 21 * one_in_units(),
        units(PLAIN_ABOVE) == -7 * one_in_units(),
        units(SCALED_BELOW) == 154 * one_in_units(),
        units(SCALED_ABOVE) == -10 * one_in_units(),
        units(NUMBER_EXP_MAX_BITS) == 308 * one_in_units(),
        units(NUMBER_EXP_MIN_BITS) == -324 * one_in_units(),
{
    lemma2_to64();
    lemma2_to64_rest();
    lemma_whole_units(ONE_BITS, 1);
    lemma_whole_units(NEG_ONE_BITS, 1);
    lemma_whole_units(TWO_BITS, 2);
    lemma_whole_units(TEN_BITS, 10);
    lemma_whole_units(DIGITS_LIMIT, 17);
    lemma_whole_units(PLAIN_BELOW, 21);
    lemma_whole_units(PLAIN_ABOVE, 7);
    lemma_whole_units(SCALED_BELOW, 154);
    lemma_whole_units(SCALED_ABOVE, 10);
    lemma_whole_units(NUMBER_EXP_MAX_BITS, 308);
    lemma_whole_units(NUMBER_EXP_MIN_BITS, 324);
}

} // verus!
