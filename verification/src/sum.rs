//! The sum of two decimals, as far as it is decided without adding.
//!
//! A zero mantissa leaves the other operand. Exponents that are more than 17
//! apart leave the operand with the larger one: the other is below the last
//! digit that a mantissa holds. What is left is aligned to the larger
//! exponent and added, which rounds and is not done here.

use vstd::prelude::*;
use vstd::arithmetic::power2::lemma_pow2_pos;
use crate::binary64;
use crate::binary64::{
    eq, equal, le, less, less_equal, lt, magnitude, negated, to_i32, truncated_i32, zero,
};
use crate::consts;
use crate::consts::{DIGITS_LIMIT, ZERO_BITS};
use crate::decimal::Decimal;

verus! {

/// The sum of two decimals of which one has a zero mantissa: the other one.
pub open spec fn sum_with_zero(a: Decimal, b: Decimal) -> Option<Decimal> {
    if eq(a.mantissa, ZERO_BITS) {
        Some(b)
    } else if eq(b.mantissa, ZERO_BITS) {
        Some(a)
    } else {
        None
    }
}

/// What is left to do for a sum.
#[derive(Clone, Copy, Debug, PartialEq, Eq)]
pub enum Sum {
    /// The sum is this decimal.
    Is(Decimal),
    /// The sum is that of `big` and `small`, of which `big` has the exponent
    /// that is not the smaller: the mantissa of `small` is brought to the
    /// exponent of `big` by the power of ten `shift`, and the mantissas are
    /// added.
    Of { big: Decimal, small: Decimal, shift: i32 },
}

/// The sum of two decimals as far as it is decided without adding.
///
/// `gap` is the difference of the exponents, the left one less the right
/// one, as binary64 arithmetic gives it. A zero mantissa leaves the other
/// operand. A gap of more than 17 leaves the operand with the larger
/// exponent: the other one is below the last digit that a mantissa holds.
/// Else the mantissas are to be added at the larger exponent; the whole part
/// of the gap, counted from the larger exponent to the smaller one, is the
/// power of ten that brings the other mantissa there.
pub open spec fn sum_plan(a: Decimal, b: Decimal, gap: u64) -> Sum {
    if sum_with_zero(a, b) is Some {
        Sum::Is(sum_with_zero(a, b)->0)
    } else if lt(DIGITS_LIMIT, magnitude(gap)) {
        if le(b.exponent, a.exponent) {
            Sum::Is(a)
        } else {
            Sum::Is(b)
        }
    } else if lt(b.exponent, a.exponent) {
        Sum::Of { big: a, small: b, shift: truncated_i32(negated(gap)) as i32 }
    } else {
        Sum::Of { big: b, small: a, shift: truncated_i32(gap) as i32 }
    }
}

impl Decimal {
    /// The sum of the two where one of them has a zero mantissa.
    pub fn add_exact(&self, rhs: &Decimal) -> (r: Option<Decimal>)
        ensures
            r == sum_with_zero(*self, *rhs),
    {
        if equal(self.mantissa, ZERO_BITS) {
            Some(*rhs)
        } else if equal(rhs.mantissa, ZERO_BITS) {
            Some(*self)
        } else {
            None
        }
    }

    /// What is left to do for the sum of the two, given the difference of
    /// their exponents (the left one less the right one) as binary64
    /// arithmetic gives it.
    pub fn add_plan(&self, rhs: &Decimal, gap: u64) -> (r: Sum)
        ensures
            r == sum_plan(*self, *rhs, gap),
            r matches Sum::Of { shift, .. } ==> -17 <= shift <= 17,
    {
        proof {
            consts::lemma_whole_constants();
            binary64::lemma_whole_part_bounds(gap, 18);
            binary64::lemma_order_by_key(DIGITS_LIMIT, magnitude(gap));
            lemma_pow2_pos(1074);
        }
        if let Some(sum) = self.add_exact(rhs) {
            return Sum::Is(sum);
        }
        if less(DIGITS_LIMIT, binary64::abs(gap)) {
            if less_equal(rhs.exponent, self.exponent) {
                return Sum::Is(*self);
            }
            return Sum::Is(*rhs);
        }
        if less(rhs.exponent, self.exponent) {
            Sum::Of { big: *self, small: *rhs, shift: to_i32(binary64::neg(gap)) }
        } else {
            Sum::Of { big: *rhs, small: *self, shift: to_i32(gap) }
        }
    }
}

/// Zero is the identity of addition, on either side and whatever the
/// difference of the exponents: the sum of a decimal and zero is decided
/// without adding and stands for what the decimal stands for; where the
/// decimal has no NaN field, the two are equal. Zero before a decimal gives the
/// decimal bit for bit, and so does zero behind one whose mantissa is not zero.
///
/// This holds of every decimal but one with a zero mantissa and an exponent
/// that is not zero, whose sum with zero is zero.
pub proof fn law_add_zero_identity(x: Decimal, gap: u64)
    requires
        zero(x.mantissa) ==> zero(x.exponent),
    ensures
        sum_plan(x, consts::zero(), gap) matches Sum::Is(sum) && sum@ == x@ && (!x.unordered()
            ==> sum.same_value(&x)) && (!zero(x.mantissa) ==> sum == x),
        sum_plan(consts::zero(), x, gap) == Sum::Is(x),
{
    binary64::lemma_unit_count_zero(x.mantissa);
    binary64::lemma_unit_count_zero(x.exponent);
}

/// A decimal with a zero mantissa and an exponent that is not zero has no
/// identity in zero: its sum with zero is zero, which it is not equal to.
pub proof fn law_add_zero_replaces_raw_zero(x: Decimal, gap: u64)
    requires
        zero(x.mantissa),
        !zero(x.exponent),
    ensures
        sum_plan(x, consts::zero(), gap) == Sum::Is(consts::zero()),
        !consts::zero().same_value(&x),
{
    binary64::lemma_unit_count_zero(x.mantissa);
    binary64::lemma_unit_count_zero(x.exponent);
}

} // verus!
