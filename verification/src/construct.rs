//! Decimals from numbers and from pairs, as far as no arithmetic is needed.
//!
//! A number becomes a decimal by scaling: its logarithm gives the exponent,
//! and the quotient by that power of ten the mantissa. A pair is brought
//! into normal form in the same way. Both compute with binary64 arithmetic,
//! which rounds, and both first set apart the inputs whose result is known
//! as it stands. Those are decided here, and so is the choice of the scaling
//! once the logarithm is there. A function whose name ends in `_exact`
//! answers `None` where the arithmetic has to be done.

use vstd::prelude::*;
use crate::binary64;
use crate::binary64::{
    eq, equal, finite, infinite, is_finite, is_infinite, is_nan, is_sign_negative, le, less,
    less_equal, lt, magnitude, nan, negative, to_i32, truncated_i32, zero,
};
use crate::consts;
use crate::consts::{NEG_ONE_BITS, NUMBER_EXP_MIN_BITS, ONE_BITS, TEN_BITS, TWO_BITS, ZERO_BITS};
use crate::decimal::{from_mantissa_exponent_no_normalize, lemma_named_values_normal, Decimal};

verus! {

/// The decimal of a binary64 value that has a decimal of its own: a NaN,
/// zero, one, two, minus one and the two infinities, which become the largest
/// and the smallest value.
pub open spec fn special_decimal(value: u64) -> Option<Decimal> {
    if nan(value) {
        Some(consts::nan())
    } else if eq(value, ZERO_BITS) {
        Some(consts::zero())
    } else if eq(value, ONE_BITS) {
        Some(consts::one())
    } else if eq(value, TWO_BITS) {
        Some(consts::two())
    } else if eq(value, NEG_ONE_BITS) {
        Some(consts::neg_one())
    } else if infinite(value) {
        if negative(value) {
            Some(consts::min_value())
        } else {
            Some(consts::max_value())
        }
    } else {
        None
    }
}

/// The absolute value of the mantissa lies in `[1, 10)`, as the normal form
/// of a value that is not zero asks.
pub open spec fn in_normal_range(mantissa: u64) -> bool {
    le(ONE_BITS, magnitude(mantissa)) && lt(magnitude(mantissa), TEN_BITS)
}

/// The normal form of a pair that needs no scaling: the pair itself where
/// the absolute value of the mantissa lies in `[1, 10)`, and zero where the
/// mantissa is zero.
pub open spec fn unscaled_normal_form(mantissa: u64, exponent: u64) -> Option<Decimal> {
    if in_normal_range(mantissa) {
        Some(Decimal { mantissa, exponent })
    } else if eq(mantissa, ZERO_BITS) {
        Some(consts::zero())
    } else {
        None
    }
}

/// The decimal of a pair that needs no scaling: not a number where a field
/// is not finite, else the normal form where that needs no scaling.
pub open spec fn unscaled_decimal(mantissa: u64, exponent: u64) -> Option<Decimal> {
    if !finite(mantissa) || !finite(exponent) {
        Some(consts::nan())
    } else {
        unscaled_normal_form(mantissa, exponent)
    }
}

/// How a mantissa is brought into `[1, 10)`.
#[derive(Clone, Copy, Debug, PartialEq, Eq, Structural)]
pub enum Scaling {
    /// The mantissa lies at the lower end of the binary64 values, at
    /// `10^-324`, which is no binary64 value itself: it is multiplied by ten
    /// and divided by the value of `10^-323`.
    Minimal,
    /// The mantissa is divided by this power of ten.
    ByPower(i32),
}

/// The scaling of a number that becomes a decimal, given the floor of the
/// logarithm of its absolute value to base ten as binary64 arithmetic gives
/// it: minimal where that is -324, else by the power of its whole part.
pub open spec fn scaling_of_number(log: u64) -> Scaling {
    if eq(log, NUMBER_EXP_MIN_BITS) {
        Scaling::Minimal
    } else {
        Scaling::ByPower(truncated_i32(log) as i32)
    }
}

/// The scaling of a mantissa that is brought into normal form, given the
/// floor of the logarithm of its absolute value to base ten as binary64
/// arithmetic gives it: minimal where its whole part is -324, else by the
/// power of its whole part.
pub open spec fn scaling_of_mantissa(log: u64) -> Scaling {
    if truncated_i32(log) == consts::NUMBER_EXP_MIN {
        Scaling::Minimal
    } else {
        Scaling::ByPower(truncated_i32(log) as i32)
    }
}

impl Decimal {
    /// The decimal of `value` where it has a decimal of its own.
    pub fn new_exact(value: u64) -> (r: Option<Decimal>)
        ensures
            r == special_decimal(value),
    {
        if is_nan(value) {
            Some(Decimal::nan())
        } else if equal(value, ZERO_BITS) {
            Some(Decimal::zero())
        } else if equal(value, ONE_BITS) {
            Some(Decimal::one())
        } else if equal(value, TWO_BITS) {
            Some(Decimal::two())
        } else if equal(value, NEG_ONE_BITS) {
            Some(Decimal::neg_one())
        } else if is_infinite(value) && !is_sign_negative(value) {
            Some(Decimal::max_value())
        } else if is_infinite(value) && is_sign_negative(value) {
            Some(Decimal::min_value())
        } else {
            None
        }
    }

    /// The normal form of the decimal where that needs no scaling.
    pub fn normalize_exact(&self) -> (r: Option<Decimal>)
        ensures
            r == unscaled_normal_form(self.mantissa, self.exponent),
    {
        let size: u64 = binary64::abs(self.mantissa);
        if less_equal(ONE_BITS, size) && less(size, TEN_BITS) {
            Some(*self)
        } else if equal(self.mantissa, ZERO_BITS) {
            Some(Decimal::zero())
        } else {
            None
        }
    }
}

/// The decimal of a pair where that needs no scaling.
pub fn from_mantissa_exponent_exact(mantissa: u64, exponent: u64) -> (r: Option<Decimal>)
    ensures
        r == unscaled_decimal(mantissa, exponent),
{
    if !is_finite(mantissa) || !is_finite(exponent) {
        return Some(Decimal::nan());
    }
    from_mantissa_exponent_no_normalize(mantissa, exponent).normalize_exact()
}

/// How a number that becomes a decimal is scaled, given the floor of the
/// logarithm of its absolute value.
pub fn new_scaling(log: u64) -> (r: Scaling)
    ensures
        r == scaling_of_number(log),
{
    if equal(log, NUMBER_EXP_MIN_BITS) {
        Scaling::Minimal
    } else {
        Scaling::ByPower(to_i32(log))
    }
}

/// How a mantissa that is brought into normal form is scaled, given the
/// floor of the logarithm of its absolute value.
pub fn normalize_scaling(log: u64) -> (r: Scaling)
    ensures
        r == scaling_of_mantissa(log),
{
    let power: i32 = to_i32(log);
    if power == consts::NUMBER_EXP_MIN {
        Scaling::Minimal
    } else {
        Scaling::ByPower(power)
    }
}

/// Bringing into normal form changes nothing the second time: a normal form
/// that was reached without scaling is its own normal form.
pub proof fn law_normalize_exact_idempotent(mantissa: u64, exponent: u64)
    requires
        unscaled_normal_form(mantissa, exponent) is Some,
    ensures
        ({
            let d = unscaled_normal_form(mantissa, exponent)->0;
            unscaled_normal_form(d.mantissa, d.exponent) == Some(d)
        }),
{
}

/// A pair in normal form is its own normal form: it needs no scaling and
/// stays as it is, bit for bit, whatever the sign of its mantissa. Zero stays
/// zero, where a zero of either sign becomes the zero with both signs clear.
pub proof fn law_normal_pairs_stay(d: Decimal)
    requires
        d.normal(),
    ensures
        unscaled_normal_form(d.mantissa, d.exponent) is Some,
        (unscaled_normal_form(d.mantissa, d.exponent)->0)@ == d@,
        !zero(d.mantissa) ==> unscaled_normal_form(d.mantissa, d.exponent) == Some(d),
        zero(d.mantissa) ==> unscaled_normal_form(d.mantissa, d.exponent) == Some(consts::zero()),
        finite(d.exponent) ==> unscaled_decimal(d.mantissa, d.exponent) == unscaled_normal_form(
            d.mantissa,
            d.exponent,
        ),
{
    consts::lemma_whole_constants();
    crate::decimal::lemma_normal_mantissa_finite(d);
    binary64::lemma_unit_count_zero(d.mantissa);
    binary64::lemma_unit_count_zero(d.exponent);
    binary64::lemma_order_by_key(consts::ONE_BITS, magnitude(d.mantissa));
    binary64::lemma_order_by_key(magnitude(d.mantissa), consts::TEN_BITS);
    assert(binary64::unit_count(magnitude(d.mantissa)) == binary64::unit_count(d.mantissa));
}

/// Building a decimal from a pair changes nothing the second time, where no
/// scaling is needed: what a pair becomes without scaling, the NaN among it,
/// becomes itself.
pub proof fn law_unscaled_decimal_idempotent(mantissa: u64, exponent: u64)
    requires
        unscaled_decimal(mantissa, exponent) is Some,
    ensures
        ({
            let d = unscaled_decimal(mantissa, exponent)->0;
            unscaled_decimal(d.mantissa, d.exponent) == Some(d)
        }),
{
}

/// What needs no scaling is in normal form: a number with a decimal of its
/// own becomes a named value, and a pair that needs no scaling is in range
/// or zero. The one decimal that is given and is not in normal form is the NaN.
pub proof fn law_unscaled_results_normal(value: u64, mantissa: u64, exponent: u64)
    ensures
        special_decimal(value) is Some ==> (special_decimal(value)->0).normal() || special_decimal(
            value,
        ) == Some(consts::nan()),
        unscaled_normal_form(mantissa, exponent) is Some ==> (unscaled_normal_form(
            mantissa,
            exponent,
        )->0).normal(),
        unscaled_decimal(mantissa, exponent) is Some ==> (unscaled_decimal(
            mantissa,
            exponent,
        )->0).normal() || unscaled_decimal(mantissa, exponent) == Some(consts::nan()),
{
    lemma_named_values_normal();
    consts::lemma_whole_constants();
}

} // verus!
