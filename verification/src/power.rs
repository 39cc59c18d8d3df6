//! Powers, roots and logarithms, as far as they are decided without computing.
//!
//! A power is tried on the mantissa alone, then on logarithms, then by a
//! power of ten; which tier it is and whether its result is accepted is
//! decided here. A root halves or thirds the exponent, and what that leaves
//! is a power of a root of ten for the mantissa. The powers, roots and
//! logarithms themselves are binary64 arithmetic and are not done here.

use vstd::prelude::*;
use crate::binary64;
use crate::binary64::{
    finite, is_finite, is_sign_negative, is_whole, is_zero, le, less, less_equal, lt, negative,
    whole, whole_part, whole_part_mod, zero,
};
use crate::consts;
use crate::consts::{ONE_BITS, ZERO_BITS};
use crate::decimal::Decimal;

verus! {

/// `-706.0`: the exponential function of a number above it is not zero as a
/// binary64 value.
pub const EXP_ABOVE: u64 = 0xc086_1000_0000_0000;

/// `709.0`: the exponential function of a number below it is finite as a
/// binary64 value.
pub const EXP_BELOW: u64 = 0x4086_2800_0000_0000;

/// `9007199254740991.0`: the largest whole number up to which every whole
/// number is a binary64 value.
pub const MAX_SAFE_INTEGER: u64 = 0x433f_ffff_ffff_ffff;

/// `3.16227766016838`: the square root of ten.
pub const SQRT_TEN: u64 = 0x4009_4c58_3ada_5b54;

/// `2.154434690031884`: the cube root of ten.
pub const CBRT_TEN: u64 = 0x4001_3c48_4138_704f;

/// `4.641588833612779`: the cube root of a hundred.
pub const CBRT_HUNDRED: u64 = 0x4012_90fc_a9c7_61f8;

/// What the mantissa of a square root is multiplied by: the square root of
/// ten where the exponent is not an even whole number, else one.
pub open spec fn square_root_factor(exponent: u64) -> u64 {
    if odd_for_square_root(exponent) {
        SQRT_TEN
    } else {
        ONE_BITS
    }
}

/// What the mantissa of a cube root is multiplied by: the cube root of ten
/// where the exponent leaves one, the cube root of a hundred where it leaves
/// two, else one.
pub open spec fn cube_root_factor(exponent: u64) -> u64 {
    if left_for_cube_root(exponent) == 1 || left_for_cube_root(exponent) == -1 {
        CBRT_TEN
    } else if left_for_cube_root(exponent) != 0 {
        CBRT_HUNDRED
    } else {
        ONE_BITS
    }
}

/// The exponent is not an even whole number, so that half of it leaves a
/// square root of ten for the mantissa. An exponent that is not finite is
/// not an even whole number.
pub open spec fn odd_for_square_root(exponent: u64) -> bool {
    !(finite(exponent) && whole(exponent) && whole_part(exponent) % 2 == 0)
}

/// What the whole part of the exponent leaves when it is divided by three,
/// with the sign of the exponent: the power of the cube root of ten that is
/// left for the mantissa. An exponent that is not finite leaves nothing.
pub open spec fn left_for_cube_root(exponent: u64) -> int {
    if !finite(exponent) {
        0
    } else if negative(exponent) {
        -((whole_part(exponent) % 3) as int)
    } else {
        (whole_part(exponent) % 3) as int
    }
}

/// The number is an odd whole number, above zero or below. A negative base
/// raised to such a power is negative.
pub open spec fn odd_power(number: u64) -> bool {
    finite(number) && whole(number) && whole_part(number) % 2 == 1
}

impl Decimal {
    /// Whether a power is first tried on the mantissa alone: the product of
    /// the exponent and the power, as binary64 arithmetic gives it, is below
    /// the largest safe whole number.
    pub fn pow_is_fast(product: u64) -> (r: bool)
        ensures
            r == lt(product, MAX_SAFE_INTEGER),
    {
        less(product, MAX_SAFE_INTEGER)
    }

    /// Whether a mantissa that a tier of the power came to is accepted: it
    /// is finite and not zero.
    pub fn pow_accepts(mantissa: u64) -> (r: bool)
        ensures
            r == (finite(mantissa) && !zero(mantissa)),
    {
        is_finite(mantissa) && !is_zero(mantissa)
    }

    /// Whether a power of this decimal with the exponent `number`, computed
    /// from its magnitude, has to be negated: the sign bit of the mantissa is
    /// set and `number` is an odd power.
    pub fn pow_negates(&self, number: u64) -> (r: bool)
        ensures
            r == (negative(self.mantissa) && odd_power(number)),
    {
        if self.sign() != -1 {
            return false;
        }
        is_whole(number) && whole_part_mod(number, 2) == 1
    }

    /// The square root of a decimal with a mantissa below zero: not a number.
    pub fn sqrt_exact(&self) -> (r: Option<Decimal>)
        ensures
            r == if lt(self.mantissa, ZERO_BITS) {
                Some(consts::nan())
            } else {
                None
            },
    {
        if less(self.mantissa, ZERO_BITS) {
            Some(Decimal::nan())
        } else {
            None
        }
    }

    /// Whether the square root has a square root of ten left for its
    /// mantissa: the exponent is not an even whole number.
    pub fn sqrt_is_odd(&self) -> (r: bool)
        ensures
            r == odd_for_square_root(self.exponent),
    {
        if !is_whole(self.exponent) {
            true
        } else {
            whole_part_mod(self.exponent, 2) != 0
        }
    }

    /// The power of the cube root of ten that the cube root has left for its
    /// mantissa: -2, -1, 0, 1 or 2.
    pub fn cbrt_remainder(&self) -> (r: i32)
        ensures
            r == left_for_cube_root(self.exponent),
            -2 <= r <= 2,
    {
        if !is_finite(self.exponent) {
            return 0;
        }
        let left: u32 = whole_part_mod(self.exponent, 3);
        if is_sign_negative(self.exponent) {
            -(left as i32)
        } else {
            left as i32
        }
    }

    /// What the square root of the mantissa is multiplied by.
    pub fn sqrt_factor(&self) -> (r: u64)
        ensures
            r == square_root_factor(self.exponent),
    {
        if self.sqrt_is_odd() {
            SQRT_TEN
        } else {
            ONE_BITS
        }
    }

    /// What the cube root of the mantissa is multiplied by.
    pub fn cbrt_factor(&self) -> (r: u64)
        ensures
            r == cube_root_factor(self.exponent),
    {
        let left: i32 = self.cbrt_remainder();
        if left == 1 || left == -1 {
            CBRT_TEN
        } else if left != 0 {
            CBRT_HUNDRED
        } else {
            ONE_BITS
        }
    }

    /// The logarithm to base ten, held at zero from below, of a decimal whose
    /// mantissa is not above zero or whose exponent is below zero: the
    /// binary64 zero.
    pub fn p_log10_exact(&self) -> (r: Option<u64>)
        ensures
            r == if le(self.mantissa, ZERO_BITS) || lt(self.exponent, ZERO_BITS) {
                Some(ZERO_BITS)
            } else {
                None
            },
    {
        if less_equal(self.mantissa, ZERO_BITS) || less(self.exponent, ZERO_BITS) {
            Some(ZERO_BITS)
        } else {
            None
        }
    }

    /// The inverse hyperbolic tangent of a decimal whose magnitude is not
    /// below one: the binary64 NaN.
    pub fn atanh_exact(&self) -> (r: Option<u64>)
        ensures
            r == if self.magnitude().at_least(&consts::one()) {
                Some(binary64::NAN)
            } else {
                None
            },
    {
        if self.abs().gte(&Decimal::one()) {
            Some(binary64::NAN)
        } else {
            None
        }
    }
}

/// Whether the exponential function of `number` is computed on binary64
/// values: the number lies strictly between -706 and 709, where the result is
/// neither zero nor infinite.
pub fn exp_is_native(number: u64) -> (r: bool)
    ensures
        r == (lt(EXP_ABOVE, number) && lt(number, EXP_BELOW)),
{
    less(EXP_ABOVE, number) && less(number, EXP_BELOW)
}

} // verus!
