//! The decimal value, its raw constructors and its named values.

use vstd::prelude::*;
use crate::binary64;
use crate::binary64::{one_in_units, unit_count, value, Value};
use crate::consts;

verus! {

/// A number `mantissa * 10^exponent`, each field the pattern of a binary64 value.
///
/// The pair is in normal form when the mantissa is zero and so is the
/// exponent, or when the mantissa's absolute value lies in `[1, 10)`. Nothing
/// enforces the normal form: a raw pair is a value like any other.
#[derive(Clone, Copy, Debug)]
pub struct Decimal {
    /// The significant digits, as the pattern of a binary64 value.
    pub mantissa: u64,
    /// The power of ten, as the pattern of a binary64 value.
    pub exponent: u64,
}

impl View for Decimal {
    type V = (Value, Value);

    /// What the two fields stand for: the mantissa first, then the exponent.
    /// The view forgets which zero and which NaN a field is.
    open spec fn view(&self) -> (Value, Value) {
        (value(self.mantissa), value(self.exponent))
    }
}

/// The pair of the two patterns, as it is given.
pub fn from_mantissa_exponent_no_normalize(mantissa: u64, exponent: u64) -> (d: Decimal)
    ensures
        d.mantissa == mantissa,
        d.exponent == exponent,
{
    Decimal { mantissa, exponent }
}

impl core::ops::Neg for Decimal {
    type Output = Decimal;

    /// The decimal with the sign of its mantissa flipped. The exponent stays,
    /// and so does the normal form.
    fn neg(self) -> (r: Decimal) {
        Decimal { mantissa: binary64::neg(self.mantissa), exponent: self.exponent }
    }
}

impl vstd::std_specs::ops::NegSpecImpl for Decimal {
    open spec fn obeys_neg_spec() -> bool {
        true
    }

    open spec fn neg_req(self) -> bool {
        true
    }

    open spec fn neg_spec(self) -> Decimal {
        self.negated()
    }
}

impl Default for Decimal {
    fn default() -> (d: Decimal)
        ensures
            d == consts::zero(),
    {
        Decimal::zero()
    }
}

impl Decimal {
    /// The decimal with the sign bit of its mantissa flipped.
    pub open spec fn negated(self) -> Decimal {
        Decimal { mantissa: binary64::negated(self.mantissa), exponent: self.exponent }
    }

    /// The decimal with the sign bit of its mantissa cleared.
    pub open spec fn magnitude(self) -> Decimal {
        Decimal { mantissa: binary64::magnitude(self.mantissa), exponent: self.exponent }
    }

    /// The pair is in normal form: it is zero with a zero exponent, or the
    /// absolute value of its mantissa lies in `[1, 10)`.
    pub open spec fn normal(&self) -> bool {
        ||| binary64::zero(self.mantissa) && binary64::zero(self.exponent)
        ||| one_in_units() <= unit_count(self.mantissa) < 10 * one_in_units()
    }

    /// Tells whether the pair is in normal form.
    pub fn is_normal(&self) -> (r: bool)
        ensures
            r == self.normal(),
    {
        let m: u64 = binary64::abs(self.mantissa);
        proof {
            consts::lemma_whole_constants();
            binary64::lemma_unit_count_zero(self.mantissa);
            binary64::lemma_order_by_key(m, consts::ONE_BITS);
            binary64::lemma_order_by_key(m, consts::TEN_BITS);
            vstd::arithmetic::power2::lemma_pow2_pos(1074);
        }
        let zero: bool = m == 0 && binary64::is_zero(self.exponent);
        zero || (consts::ONE_BITS <= m && m < consts::TEN_BITS)
    }

    /// The absolute value: the mantissa loses its sign, the exponent stays.
    pub fn abs(&self) -> (r: Decimal)
        ensures
            r == self.magnitude(),
    {
        from_mantissa_exponent_no_normalize(binary64::abs(self.mantissa), self.exponent)
    }

    /// The sign bit of the mantissa as a number: 1 where it is clear, -1
    /// where it is set. A zero has the sign of its mantissa's sign bit.
    pub fn _sign(&self) -> (r: i32)
        ensures
            r == if binary64::negative(self.mantissa) {
                -1i32
            } else {
                1i32
            },
    {
        if !binary64::is_sign_negative(self.mantissa) {
            1
        } else {
            -1
        }
    }

    /// The sign bit of the mantissa as a number: 1 or -1.
    pub fn sign(&self) -> (r: i32)
        ensures
            r == if binary64::negative(self.mantissa) {
                -1i32
            } else {
                1i32
            },
    {
        self._sign()
    }

    /// The sign bit of the mantissa as a number: 1 or -1.
    pub fn sgn(&self) -> (r: i32)
        ensures
            r == if binary64::negative(self.mantissa) {
                -1i32
            } else {
                1i32
            },
    {
        self._sign()
    }

    /// Whether the sign bit of the mantissa is clear.
    pub fn is_sign_positive(&self) -> (r: bool)
        ensures
            r == !binary64::negative(self.mantissa),
    {
        !binary64::is_sign_negative(self.mantissa)
    }

    /// Whether the sign bit of the mantissa is set.
    pub fn is_sign_negative(&self) -> (r: bool)
        ensures
            r == binary64::negative(self.mantissa),
    {
        binary64::is_sign_negative(self.mantissa)
    }

    /// Whether the sign bit of the mantissa is clear.
    pub fn is_positive(&self) -> (r: bool)
        ensures
            r == !binary64::negative(self.mantissa),
    {
        !binary64::is_sign_negative(self.mantissa)
    }

    /// Whether the sign bit of the mantissa is set.
    pub fn is_negative(&self) -> (r: bool)
        ensures
            r == binary64::negative(self.mantissa),
    {
        binary64::is_sign_negative(self.mantissa)
    }

    /// Zero.
    pub fn zero() -> (d: Decimal)
        ensures
            d == consts::zero(),
    {
        Decimal { mantissa: consts::ZERO_BITS, exponent: consts::ZERO_BITS }
    }

    /// One.
    pub fn one() -> (d: Decimal)
        ensures
            d == consts::one(),
    {
        Decimal { mantissa: consts::ONE_BITS, exponent: consts::ZERO_BITS }
    }

    /// Two.
    pub fn two() -> (d: Decimal)
        ensures
            d == consts::two(),
    {
        Decimal { mantissa: consts::TWO_BITS, exponent: consts::ZERO_BITS }
    }

    /// Ten.
    pub fn ten() -> (d: Decimal)
        ensures
            d == consts::ten(),
    {
        Decimal { mantissa: consts::ONE_BITS, exponent: consts::ONE_BITS }
    }

    /// Minus one.
    pub fn neg_one() -> (d: Decimal)
        ensures
            d == consts::neg_one(),
    {
        Decimal { mantissa: consts::NEG_ONE_BITS, exponent: consts::ZERO_BITS }
    }

    /// Minus one.
    pub fn minus_one() -> (d: Decimal)
        ensures
            d == consts::neg_one(),
    {
        Decimal::neg_one()
    }

    /// The largest value, which stands for positive infinity.
    pub fn max_value() -> (d: Decimal)
        ensures
            d == consts::max_value(),
    {
        Decimal { mantissa: consts::ONE_BITS, exponent: consts::EXP_LIMIT }
    }

    /// The smallest value, which stands for negative infinity.
    pub fn min_value() -> (d: Decimal)
        ensures
            d == consts::min_value(),
    {
        Decimal { mantissa: consts::NEG_ONE_BITS, exponent: consts::EXP_LIMIT }
    }

    /// The smallest positive value.
    pub fn almost_zero() -> (d: Decimal)
        ensures
            d == consts::almost_zero(),
    {
        Decimal { mantissa: consts::ONE_BITS, exponent: consts::ALMOST_ZERO_EXP_LIMIT }
    }

    /// The negative value nearest to zero.
    pub fn almost_negative_zero() -> (d: Decimal)
        ensures
            d == consts::almost_negative_zero(),
    {
        Decimal { mantissa: consts::NEG_ONE_BITS, exponent: consts::ALMOST_ZERO_EXP_LIMIT }
    }

    /// Not a number.
    pub fn nan() -> (d: Decimal)
        ensures
            d == consts::nan(),
    {
        Decimal { mantissa: binary64::NAN, exponent: binary64::NAN }
    }

    /// Infinity by its exponent.
    pub fn infinity() -> (d: Decimal)
        ensures
            d == consts::infinity(),
    {
        Decimal { mantissa: consts::ONE_BITS, exponent: binary64::INFINITY }
    }

    /// Negative infinity by its exponent.
    pub fn neg_infinity() -> (d: Decimal)
        ensures
            d == consts::neg_infinity(),
    {
        Decimal { mantissa: consts::NEG_ONE_BITS, exponent: binary64::INFINITY }
    }

    /// The circle constant pi.
    pub fn pi() -> (d: Decimal)
        ensures
            d == consts::pi(),
    {
        Decimal { mantissa: consts::PI_BITS, exponent: consts::ZERO_BITS }
    }

    /// Twice pi.
    pub fn tau() -> (d: Decimal)
        ensures
            d == consts::tau(),
    {
        Decimal { mantissa: consts::TAU_BITS, exponent: consts::ZERO_BITS }
    }

    /// Euler's number.
    pub fn e() -> (d: Decimal)
        ensures
            d == consts::e(),
    {
        Decimal { mantissa: consts::E_BITS, exponent: consts::ZERO_BITS }
    }
}

/// The mantissa of a decimal in normal form is finite.
pub proof fn lemma_normal_mantissa_finite(x: Decimal)
    requires
        x.normal(),
    ensures
        binary64::finite(x.mantissa),
{
    consts::lemma_whole_constants();
    binary64::lemma_order_by_key(binary64::magnitude(x.mantissa), consts::TEN_BITS);
}

/// Every named value but the NaN is in normal form.
pub proof fn lemma_named_values_normal()
    ensures
        consts::zero().normal(),
        consts::one().normal(),
        consts::neg_one().normal(),
        consts::two().normal(),
        consts::ten().normal(),
        consts::max_value().normal(),
        consts::min_value().normal(),
        consts::almost_zero().normal(),
        consts::almost_negative_zero().normal(),
        consts::infinity().normal(),
        consts::neg_infinity().normal(),
        consts::pi().normal(),
        consts::tau().normal(),
        consts::e().normal(),
{
    consts::lemma_whole_constants();
    vstd::arithmetic::power2::lemma_pow2_pos(1074);
    binary64::lemma_order_by_key(consts::ONE_BITS, consts::TWO_BITS);
    binary64::lemma_order_by_key(consts::ONE_BITS, consts::PI_BITS);
    binary64::lemma_order_by_key(consts::PI_BITS, consts::TEN_BITS);
    binary64::lemma_order_by_key(consts::ONE_BITS, consts::TAU_BITS);
    binary64::lemma_order_by_key(consts::TAU_BITS, consts::TEN_BITS);
    binary64::lemma_order_by_key(consts::ONE_BITS, consts::E_BITS);
    binary64::lemma_order_by_key(consts::E_BITS, consts::TEN_BITS);
}

/// Negation and the absolute value keep the normal form, and negating twice
/// gives the decimal back, bit for bit.
pub proof fn law_sign_changes_keep_normal(x: Decimal)
    ensures
        x.negated().negated() == x,
        x.negated().magnitude() == x.magnitude(),
        x.magnitude().magnitude() == x.magnitude(),
        !binary64::negative(x.magnitude().mantissa),
        x.normal() ==> x.negated().normal() && x.magnitude().normal(),
{
}

} // verus!
