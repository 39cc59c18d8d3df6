//! Rounding a decimal to a whole number, as far as its exponent decides.
//!
//! A decimal with an exponent of 17 or more has no digits behind the point,
//! and one with an exponent below -1 lies between -1 and 1. Between the two
//! the decimal is rounded as a binary64 value, which is not done here.

use vstd::prelude::*;
use crate::binary64;
use crate::binary64::{
    eq, equal, finite, is_finite, is_nan, le, less, less_equal, lt, nan, negative,
};
use crate::consts;
use crate::consts::{DIGITS_LIMIT, NEG_ONE_BITS, ZERO_BITS};
use crate::decimal::{lemma_named_values_normal, Decimal};

verus! {

/// How a decimal is rounded to a whole number.
#[derive(Clone, Copy, Debug, PartialEq, Eq, Structural)]
pub enum Rounding {
    /// To the nearest whole number.
    Nearest,
    /// Towards zero.
    TowardsZero,
    /// Downwards.
    Down,
    /// Upwards.
    Up,
}

/// A decimal rounded to a whole number, where its exponent decides.
///
/// From exponent 17 on a decimal has no digits behind the point and is left
/// as it is; so is one whose exponent is a NaN. Below exponent -1 (below 0
/// when rounding towards zero) it lies strictly between -1 and 1 and rounds
/// to zero, but downwards to minus one where its mantissa has the sign bit
/// set, and upwards to one where it has not.
pub open spec fn rounded_by_exponent(d: Decimal, rounding: Rounding) -> Option<Decimal> {
    let small = match rounding {
        Rounding::TowardsZero => lt(d.exponent, ZERO_BITS),
        _ => lt(d.exponent, NEG_ONE_BITS),
    };
    if small {
        match rounding {
            Rounding::Down => if negative(d.mantissa) {
                Some(consts::neg_one())
            } else {
                Some(consts::zero())
            },
            Rounding::Up => if negative(d.mantissa) {
                Some(consts::zero())
            } else {
                Some(consts::one())
            },
            _ => Some(consts::zero()),
        }
    } else if lt(d.exponent, DIGITS_LIMIT) {
        None
    } else {
        Some(d)
    }
}

impl Decimal {
    /// The decimal rounded to the nearest whole number, where its exponent decides.
    pub fn round_exact(&self) -> (r: Option<Decimal>)
        ensures
            r == rounded_by_exponent(*self, Rounding::Nearest),
    {
        if less(self.exponent, NEG_ONE_BITS) {
            Some(Decimal::zero())
        } else if less(self.exponent, DIGITS_LIMIT) {
            None
        } else {
            Some(*self)
        }
    }

    /// The decimal rounded towards zero, where its exponent decides.
    pub fn trunc_exact(&self) -> (r: Option<Decimal>)
        ensures
            r == rounded_by_exponent(*self, Rounding::TowardsZero),
    {
        if less(self.exponent, ZERO_BITS) {
            Some(Decimal::zero())
        } else if less(self.exponent, DIGITS_LIMIT) {
            None
        } else {
            Some(*self)
        }
    }

    /// The decimal rounded downwards, where its exponent decides.
    pub fn floor_exact(&self) -> (r: Option<Decimal>)
        ensures
            r == rounded_by_exponent(*self, Rounding::Down),
    {
        if less(self.exponent, NEG_ONE_BITS) {
            if self.sign() >= 0 {
                Some(Decimal::zero())
            } else {
                Some(Decimal::neg_one())
            }
        } else if less(self.exponent, DIGITS_LIMIT) {
            None
        } else {
            Some(*self)
        }
    }

    /// The decimal rounded upwards, where its exponent decides.
    pub fn ceil_exact(&self) -> (r: Option<Decimal>)
        ensures
            r == rounded_by_exponent(*self, Rounding::Up),
    {
        if less(self.exponent, NEG_ONE_BITS) {
            if self.sign() > 0 {
                Some(Decimal::one())
            } else {
                Some(Decimal::zero())
            }
        } else if less(self.exponent, DIGITS_LIMIT) {
            None
        } else {
            Some(*self)
        }
    }

    /// The number of decimal places of a decimal that has none for certain:
    /// one whose mantissa is not finite, or whose exponent is 17 or more.
    pub fn decimal_places_exact(&self) -> (r: Option<i32>)
        ensures
            r == if !finite(self.mantissa) || le(DIGITS_LIMIT, self.exponent) {
                Some(0i32)
            } else {
                None
            },
    {
        if !is_finite(self.mantissa) || less_equal(DIGITS_LIMIT, self.exponent) {
            Some(0)
        } else {
            None
        }
    }

    /// The mantissa, rounded to some decimal places, of a decimal with a NaN
    /// field, which gives the binary64 NaN, and of one with a zero mantissa,
    /// which gives the binary64 zero.
    pub fn mantissa_with_decimal_places_exact(&self) -> (r: Option<u64>)
        ensures
            r == if nan(self.mantissa) || nan(self.exponent) {
                Some(binary64::NAN)
            } else if eq(self.mantissa, ZERO_BITS) {
                Some(ZERO_BITS)
            } else {
                None
            },
    {
        if is_nan(self.mantissa) || is_nan(self.exponent) {
            Some(binary64::NAN)
        } else if equal(self.mantissa, ZERO_BITS) {
            Some(ZERO_BITS)
        } else {
            None
        }
    }
}

/// Rounding keeps the normal form: what the exponent decides is the decimal
/// itself, zero, one or minus one.
pub proof fn law_rounding_keeps_normal(d: Decimal, rounding: Rounding)
    requires
        d.normal(),
        rounded_by_exponent(d, rounding) is Some,
    ensures
        (rounded_by_exponent(d, rounding)->0).normal(),
{
    lemma_named_values_normal();
}

} // verus!
