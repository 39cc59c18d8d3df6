//! Equality and the order of decimals.
//!
//! Two decimals are equal when both fields are equal as binary64 values. The
//! order goes by the sign of the mantissa first, then by the exponent (a
//! larger exponent is further from zero), then by the mantissa. A decimal
//! with a NaN field is unordered and equal to nothing.

use vstd::prelude::*;
use std::cmp::Ordering;
use crate::binary64::{
    equal, greater, is_nan, is_zero, less,
    lemma_unit_count_zero, lemma_units_order,
    eq, lt, nan, negative, units, zero,
};
use vstd::arithmetic::power2::lemma_pow2_pos;
use crate::consts::{
    lemma_whole_constants, max_value, min_value, EXP_LIMIT, NEG_ONE_BITS, ONE_BITS,
};
use crate::decimal::{lemma_normal_mantissa_finite, Decimal};

verus! {

/// The order of two triples, first components first.
pub open spec fn triple_order(a: (int, int, int), b: (int, int, int)) -> Ordering {
    if a.0 < b.0 {
        Ordering::Less
    } else if a.0 > b.0 {
        Ordering::Greater
    } else if a.1 < b.1 {
        Ordering::Less
    } else if a.1 > b.1 {
        Ordering::Greater
    } else if a.2 < b.2 {
        Ordering::Less
    } else if a.2 > b.2 {
        Ordering::Greater
    } else {
        Ordering::Equal
    }
}

impl Decimal {
    /// A field is a NaN, so that the decimal compares with nothing.
    pub open spec fn unordered(&self) -> bool {
        nan(self.mantissa) || nan(self.exponent)
    }

    /// The place of a decimal in the order: the sign, then the exponent
    /// counted away from zero in the direction of the sign, then the
    /// mantissa. A zero mantissa makes a zero, whatever the exponent.
    pub open spec fn rank(&self) -> (int, int, int) {
        if zero(self.mantissa) {
            (0, 0, 0)
        } else if negative(self.mantissa) {
            (-1, -units(self.exponent), units(self.mantissa))
        } else {
            (1, units(self.exponent), units(self.mantissa))
        }
    }

    /// How `self` stands to `other`.
    ///
    /// `None` when either has a NaN field. Everything else goes by the
    /// ranks, a mantissa that is a binary64 infinity among them.
    pub open spec fn order(&self, other: &Decimal) -> Option<Ordering> {
        if self.unordered() || other.unordered() {
            None
        } else {
            Some(triple_order(self.rank(), other.rank()))
        }
    }

    /// Both fields are equal as binary64 values.
    pub open spec fn same_value(&self, other: &Decimal) -> bool {
        eq(self.mantissa, other.mantissa) && eq(self.exponent, other.exponent)
    }

    /// `self` is the lesser of the two.
    pub open spec fn below(&self, other: &Decimal) -> bool {
        self.order(other) == Some(Ordering::Less)
    }

    /// `self` is the greater of the two.
    pub open spec fn above(&self, other: &Decimal) -> bool {
        self.order(other) == Some(Ordering::Greater)
    }

    /// The two are ordered, and `self` is not the greater.
    pub open spec fn at_most(&self, other: &Decimal) -> bool {
        self.order(other) == Some(Ordering::Less) || self.order(other) == Some(Ordering::Equal)
    }

    /// The two are ordered, and `self` is not the lesser.
    pub open spec fn at_least(&self, other: &Decimal) -> bool {
        self.order(other) == Some(Ordering::Greater) || self.order(other) == Some(Ordering::Equal)
    }

    /// Exactly one of less, equal and greater holds of the two.
    pub open spec fn exactly_one_holds(&self, other: &Decimal) -> bool {
        &&& self.below(other) || self.same_value(other) || self.above(other)
        &&& !(self.below(other) && self.same_value(other))
        &&& !(self.above(other) && self.same_value(other))
        &&& !(self.below(other) && self.above(other))
    }

    /// The order and equality do not fit the two: both mantissas are zero
    /// and the exponents differ, so that the order finds them equal and
    /// equality does not. This does not happen in normal form.
    pub open spec fn misfits(&self, other: &Decimal) -> bool {
        zero(self.mantissa) && zero(other.mantissa) && !eq(self.exponent, other.exponent)
    }

    /// `self` where it is the greater, else `other`.
    pub open spec fn greater_of(&self, other: &Decimal) -> Decimal {
        if self.above(other) {
            *self
        } else {
            *other
        }
    }

    /// `self` where it is the lesser, else `other`.
    pub open spec fn lesser_of(&self, other: &Decimal) -> Decimal {
        if self.below(other) {
            *self
        } else {
            *other
        }
    }
}

impl PartialEq for Decimal {
    fn eq(&self, other: &Decimal) -> (r: bool) {
        equal(self.mantissa, other.mantissa) && equal(self.exponent, other.exponent)
    }
}

impl vstd::std_specs::cmp::PartialEqSpecImpl for Decimal {
    open spec fn obeys_eq_spec() -> bool {
        true
    }

    open spec fn eq_spec(&self, other: &Decimal) -> bool {
        self.same_value(other)
    }
}

impl Eq for Decimal {

}

impl PartialOrd for Decimal {
    fn partial_cmp(&self, other: &Decimal) -> (r: Option<Ordering>) {
        proof {
            lemma_unit_count_zero(self.mantissa);
            lemma_unit_count_zero(other.mantissa);
            lemma_units_order(self.mantissa, other.mantissa);
            lemma_units_order(self.exponent, other.exponent);
        }
        if is_nan(self.mantissa) || is_nan(self.exponent) || is_nan(other.mantissa) || is_nan(
            other.exponent,
        ) {
            None
        } else if is_zero(self.mantissa) {
            if is_zero(other.mantissa) {
                Some(Ordering::Equal)
            } else if less(other.mantissa, 0) {
                Some(Ordering::Greater)
            } else {
                Some(Ordering::Less)
            }
        } else if is_zero(other.mantissa) {
            if less(self.mantissa, 0) {
                Some(Ordering::Less)
            } else {
                Some(Ordering::Greater)
            }
        } else if greater(self.mantissa, 0) {
            if greater(self.exponent, other.exponent) || less(other.mantissa, 0) {
                Some(Ordering::Greater)
            } else if less(self.exponent, other.exponent) {
                Some(Ordering::Less)
            } else if greater(self.mantissa, other.mantissa) {
                Some(Ordering::Greater)
            } else if less(self.mantissa, other.mantissa) {
                Some(Ordering::Less)
            } else {
                Some(Ordering::Equal)
            }
        } else if greater(self.exponent, other.exponent) || greater(other.mantissa, 0) {
            Some(Ordering::Less)
        } else if greater(self.mantissa, other.mantissa) || less(self.exponent, other.exponent) {
            Some(Ordering::Greater)
        } else if less(self.mantissa, other.mantissa) {
            Some(Ordering::Less)
        } else {
            Some(Ordering::Equal)
        }
    }
}

impl vstd::std_specs::cmp::PartialOrdSpecImpl for Decimal {
    open spec fn obeys_partial_cmp_spec() -> bool {
        true
    }

    open spec fn partial_cmp_spec(&self, other: &Decimal) -> Option<Ordering> {
        self.order(other)
    }
}

impl Decimal {
    /// How `self` stands to `decimal`; `None` when either has a NaN field.
    pub fn compare(&self, decimal: &Decimal) -> (r: Option<Ordering>)
        ensures
            r == self.order(decimal),
    {
        self.partial_cmp(decimal)
    }

    /// Whether both fields are equal as binary64 values.
    pub fn equals(&self, decimal: &Decimal) -> (r: bool)
        ensures
            r == self.same_value(decimal),
    {
        self.eq(decimal)
    }

    /// Whether a field differs as a binary64 value.
    pub fn neq(&self, decimal: &Decimal) -> (r: bool)
        ensures
            r == !self.same_value(decimal),
    {
        !self.eq(decimal)
    }

    /// Whether a field differs as a binary64 value: the negation of `equals`.
    pub fn not_equals(&self, decimal: &Decimal) -> (r: bool)
        ensures
            r == !self.same_value(decimal),
    {
        self.neq(decimal)
    }

    /// Whether `self` is the lesser.
    pub fn lt(&self, decimal: &Decimal) -> (r: bool)
        ensures
            r == self.below(decimal),
    {
        self < decimal
    }

    /// Whether `self` is the lesser or the two are equal in the order.
    pub fn lte(&self, decimal: &Decimal) -> (r: bool)
        ensures
            r == self.at_most(decimal),
    {
        self <= decimal
    }

    /// Whether `self` is the greater.
    pub fn gt(&self, decimal: &Decimal) -> (r: bool)
        ensures
            r == self.above(decimal),
    {
        self > decimal
    }

    /// Whether `self` is the greater or the two are equal in the order.
    pub fn gte(&self, decimal: &Decimal) -> (r: bool)
        ensures
            r == self.at_least(decimal),
    {
        self >= decimal
    }

    /// Whether `self` is the lesser or the two are equal in the order.
    pub fn less_than_or_equal_to(&self, other: &Decimal) -> (r: bool)
        ensures
            r == self.at_most(other),
    {
        self.lte(other)
    }

    /// Whether `self` is the lesser.
    pub fn less_than(&self, other: &Decimal) -> (r: bool)
        ensures
            r == self.below(other),
    {
        self.lt(other)
    }

    /// Whether `self` is the greater or the two are equal in the order.
    pub fn greater_than_or_equal_to(&self, other: &Decimal) -> (r: bool)
        ensures
            r == self.at_least(other),
    {
        self.gte(other)
    }

    /// Whether `self` is the greater.
    pub fn greater_than(&self, other: &Decimal) -> (r: bool)
        ensures
            r == self.above(other),
    {
        self.gt(other)
    }

    /// `self` where it is the greater, else `other`.
    pub fn max(&self, other: &Decimal) -> (r: Decimal)
        ensures
            r == self.greater_of(other),
    {
        if self > other {
            *self
        } else {
            *other
        }
    }

    /// `self` where it is the lesser, else `other`.
    pub fn min(&self, other: &Decimal) -> (r: Decimal)
        ensures
            r == self.lesser_of(other),
    {
        if self < other {
            *self
        } else {
            *other
        }
    }

    /// `self` held between `min` and `max`: the lesser of `self` and `max`,
    /// then the greater of that and `min`.
    pub fn clamp(&self, min: &Decimal, max: &Decimal) -> (r: Decimal)
        ensures
            r == self.lesser_of(max).greater_of(min),
    {
        self.min(max).max(min)
    }
}

impl Decimal {
    /// The larger of the two magnitudes: what a relative tolerance is a
    /// fraction of.
    pub fn tolerance_scale(&self, decimal: &Decimal) -> (r: Decimal)
        ensures
            r == self.magnitude().greater_of(&decimal.magnitude()),
    {
        self.abs().max(&decimal.abs())
    }

    /// Whether a difference is within a bound: its magnitude is at most the
    /// bound. Two decimals are equal within a tolerance when their
    /// difference is within the tolerance times their `tolerance_scale`.
    pub fn within_tolerance(&self, bound: &Decimal) -> (r: bool)
        ensures
            r == self.magnitude().at_most(bound),
    {
        self.abs().lte(bound)
    }

    /// How `self` stands to `decimal` where `close` tells whether the two
    /// are equal within the tolerance: equal where they are, else by the order.
    pub fn cmp_tolerance(&self, decimal: &Decimal, close: bool) -> (r: Option<Ordering>)
        ensures
            r == if close {
                Some(Ordering::Equal)
            } else {
                self.order(decimal)
            },
    {
        if close {
            Some(Ordering::Equal)
        } else {
            self.partial_cmp(decimal)
        }
    }

    /// How `self` stands to `decimal` where `close` tells whether the two
    /// are equal within the tolerance.
    pub fn compare_tolerance(&self, decimal: &Decimal, close: bool) -> (r: Option<Ordering>)
        ensures
            r == if close {
                Some(Ordering::Equal)
            } else {
                self.order(decimal)
            },
    {
        self.cmp_tolerance(decimal, close)
    }

    /// Whether `self` is the lesser and the two are not equal within the tolerance.
    pub fn lt_tolerance(&self, decimal: &Decimal, close: bool) -> (r: bool)
        ensures
            r == (!close && self.below(decimal)),
    {
        !close && self.lt(decimal)
    }

    /// Whether `self` is the lesser or the two are equal within the tolerance.
    pub fn lte_tolerance(&self, decimal: &Decimal, close: bool) -> (r: bool)
        ensures
            r == (close || self.below(decimal)),
    {
        close || self.lt(decimal)
    }

    /// Whether `self` is the greater and the two are not equal within the tolerance.
    pub fn gt_tolerance(&self, decimal: &Decimal, close: bool) -> (r: bool)
        ensures
            r == (!close && self.above(decimal)),
    {
        !close && self.gt(decimal)
    }

    /// Whether `self` is the greater or the two are equal within the tolerance.
    pub fn gte_tolerance(&self, decimal: &Decimal, close: bool) -> (r: bool)
        ensures
            r == (close || self.above(decimal)),
    {
        close || self.gt(decimal)
    }
}

/// A zero difference is within every bound that is a number and not below
/// zero: a decimal is equal to itself within any tolerance that is not negative.
pub proof fn law_zero_within_tolerance(difference: Decimal, bound: Decimal)
    requires
        !difference.unordered(),
        zero(difference.mantissa),
        !bound.unordered(),
        zero(bound.mantissa) || !negative(bound.mantissa),
    ensures
        difference.magnitude().at_most(&bound),
{
    lemma_unit_count_zero(bound.mantissa);
}

/// Within a zero bound are the zero differences and no others: with a zero
/// tolerance, two decimals are equal when their difference is zero.
pub proof fn law_zero_tolerance(difference: Decimal, bound: Decimal)
    requires
        !bound.unordered(),
        zero(bound.mantissa),
    ensures
        difference.magnitude().at_most(&bound) <==> !difference.unordered() && zero(
            difference.mantissa,
        ),
{
    lemma_unit_count_zero(difference.mantissa);
}

/// Equality and the order see what the fields stand for and nothing else:
/// decimals with the same views compare alike, and two decimals are equal
/// exactly when they have the same view without a NaN.
pub proof fn law_order_by_view(x: Decimal, y: Decimal, x2: Decimal, y2: Decimal)
    requires
        x@ == x2@,
        y@ == y2@,
    ensures
        x.order(&y) == x2.order(&y2),
        x.same_value(&y) == x2.same_value(&y2),
        x.same_value(&y) <==> x@ == y@ && !x.unordered(),
{
    lemma_unit_count_zero(x.mantissa);
    lemma_unit_count_zero(y.mantissa);
    lemma_unit_count_zero(x2.mantissa);
    lemma_unit_count_zero(y2.mantissa);
    lemma_units_order(x.mantissa, x2.mantissa);
    lemma_units_order(y.mantissa, y2.mantissa);
}

/// Of two decimals without a NaN field, exactly one of less, equal and
/// greater holds, unless the order and equality do not fit the two.
pub proof fn law_order_total(x: Decimal, y: Decimal)
    requires
        !x.unordered(),
        !y.unordered(),
        !x.misfits(&y),
    ensures
        x.exactly_one_holds(&y),
{
    lemma_unit_count_zero(x.mantissa);
    lemma_unit_count_zero(y.mantissa);
    lemma_units_order(x.mantissa, y.mantissa);
    lemma_units_order(x.exponent, y.exponent);
}

/// Where the order and equality do not fit two decimals, it is not exactly
/// one of less, equal and greater that holds of them: two zero mantissas with
/// different exponents are neither less nor greater, and not equal.
pub proof fn law_order_misfits(x: Decimal, y: Decimal)
    requires
        !x.unordered(),
        !y.unordered(),
        x.misfits(&y),
    ensures
        !x.exactly_one_holds(&y),
        !x.normal() || !y.normal(),
{
    lemma_unit_count_zero(x.mantissa);
    lemma_unit_count_zero(y.mantissa);
    lemma_units_order(x.mantissa, y.mantissa);
    lemma_units_order(x.exponent, y.exponent);
    lemma_unit_count_zero(x.exponent);
    lemma_unit_count_zero(y.exponent);
}

/// Among decimals in normal form without a NaN field the order is total:
/// exactly one of less, equal and greater holds of any two.
pub proof fn law_order_total_normal(x: Decimal, y: Decimal)
    requires
        x.normal(),
        y.normal(),
        !x.unordered(),
        !y.unordered(),
    ensures
        x.exactly_one_holds(&y),
        x.same_value(&y) <==> x.order(&y) == Some(Ordering::Equal),
        x.below(&y) <==> y.above(&x),
{
    lemma_unit_count_zero(x.mantissa);
    lemma_unit_count_zero(y.mantissa);
    lemma_units_order(x.exponent, y.exponent);
    lemma_units_order(y.exponent, x.exponent);
    lemma_units_order(x.mantissa, y.mantissa);
    lemma_units_order(y.mantissa, x.mantissa);
    lemma_normal_mantissa_finite(x);
    lemma_normal_mantissa_finite(y);
}

/// The two values that stand for the infinities are the ends of the order:
/// every decimal whose exponent is below the limit lies strictly between them.
pub proof fn law_sentinels_are_extremes(d: Decimal)
    requires
        !d.unordered(),
        lt(d.exponent, EXP_LIMIT),
    ensures
        min_value().below(&d),
        d.below(&max_value()),
        d.above(&min_value()),
        max_value().above(&d),
{
    lemma_whole_constants();
    lemma_pow2_pos(1074);
    lemma_unit_count_zero(d.mantissa);
    lemma_unit_count_zero(ONE_BITS);
    lemma_unit_count_zero(NEG_ONE_BITS);
    lemma_units_order(d.exponent, EXP_LIMIT);
    lemma_units_order(EXP_LIMIT, d.exponent);
}

/// The greater and the lesser of two decimals follow the order: where one is
/// the lesser, it is the minimum and the other is the maximum; where neither
/// is, both are the second.
pub proof fn law_max_min_follow_order(x: Decimal, y: Decimal)
    ensures
        x.below(&y) ==> x.greater_of(&y) == y && x.lesser_of(&y) == x,
        x.above(&y) ==> x.greater_of(&y) == x && x.lesser_of(&y) == y,
        !x.below(&y) && !x.above(&y) ==> x.greater_of(&y) == y && x.lesser_of(&y) == y,
        x.greater_of(&y) == x || x.greater_of(&y) == y,
        x.lesser_of(&y) == x || x.lesser_of(&y) == y,
{
}

/// The order has one direction: where `x` is less than `y`, `y` is greater
/// than `x`, and where the order finds them equal, it does so from both sides.
pub proof fn law_order_antisymmetric(x: Decimal, y: Decimal)
    ensures
        x.below(&y) <==> y.above(&x),
        x.order(&y) == Some(Ordering::Equal) <==> y.order(&x) == Some(Ordering::Equal),
        x.order(&y) is None <==> y.order(&x) is None,
{
    lemma_unit_count_zero(x.mantissa);
    lemma_unit_count_zero(y.mantissa);
    lemma_units_order(x.mantissa, y.mantissa);
    lemma_units_order(x.exponent, y.exponent);
    lemma_units_order(y.mantissa, x.mantissa);
    lemma_units_order(y.exponent, x.exponent);
}

/// The order is transitive.
pub proof fn law_order_transitive(x: Decimal, y: Decimal, z: Decimal)
    requires
        x.at_most(&y),
        y.at_most(&z),
    ensures
        x.at_most(&z),
        x.below(&y) || y.below(&z) ==> x.below(&z),
{
}

/// A decimal without a NaN field is equal to itself in the order, whatever
/// its fields are otherwise.
pub proof fn law_order_reflexive(x: Decimal)
    requires
        !x.unordered(),
    ensures
        x.order(&x) == Some(Ordering::Equal),
        x.same_value(&x),
{
}

} // verus!
