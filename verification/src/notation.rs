//! Which form a decimal is written in.
//!
//! Every text form begins with the same test: a decimal with a NaN field, one
//! whose exponent is at a limit, and one with a zero mantissa are written as
//! a fixed word. What is left is a number, and each form has its own ranges
//! of exponents for its notations. The digits themselves come from the
//! formatting of binary64 values, which is not part of this crate.

use vstd::prelude::*;
use crate::binary64::{
    below_whole, eq, equal, floor, floor_i64, greater, is_nan, le, less, less_equal, lt, nan,
    one_in_units, units, lemma_floor_below, lemma_floor_of_whole, lemma_units_order,
};
use crate::consts::{
    lemma_whole_constants, DIGITS_LIMIT, EXP_LIMIT, NEG_EXP_LIMIT, PLAIN_ABOVE, PLAIN_BELOW,
    SCALED_ABOVE, SCALED_BELOW,
};
use crate::decimal::Decimal;
use crate::scale::{MAX_SCALE, MIN_SCALE};

verus! {

/// A value that every text form writes as a fixed word.
#[derive(Clone, Copy, Debug, PartialEq, Eq, Structural)]
pub enum Token {
    /// A field is a NaN: "NaN".
    NotANumber,
    /// The exponent is at the upper limit and the mantissa is positive: "Infinity".
    Infinity,
    /// The exponent is at the upper limit and the mantissa is not positive: "-Infinity".
    NegativeInfinity,
    /// The exponent is at the lower limit, or the mantissa is zero: "0".
    Zero,
}

/// The form in which a decimal is written.
#[derive(Clone, Copy, Debug, PartialEq, Eq, Structural)]
pub enum Notation {
    /// A fixed word.
    Token(Token),
    /// The value as one plain number.
    Plain,
    /// The mantissa with its point moved `shift` digits to the right, then
    /// the name of `1000^scale`.
    Scaled { scale: i32, shift: i32 },
    /// The digits of the mantissa without the point, then zeros up to the
    /// number of whole digits.
    Padded,
    /// The mantissa, an "e", and the exponent with its sign.
    Scientific,
}

impl Decimal {
    /// The fixed word for the value, where it has one.
    pub open spec fn token(&self) -> Option<Token> {
        if nan(self.mantissa) || nan(self.exponent) {
            Some(Token::NotANumber)
        } else if le(EXP_LIMIT, self.exponent) {
            if lt(0, self.mantissa) {
                Some(Token::Infinity)
            } else {
                Some(Token::NegativeInfinity)
            }
        } else if le(self.exponent, NEG_EXP_LIMIT) || eq(self.mantissa, 0) {
            Some(Token::Zero)
        } else {
            None
        }
    }

    /// The default form: a number is plain where its exponent lies strictly
    /// between -7 and 21, and scientific elsewhere.
    pub open spec fn display_form(&self) -> Notation {
        match self.token() {
            Some(t) => Notation::Token(t),
            None => if lt(self.exponent, PLAIN_BELOW) && lt(PLAIN_ABOVE, self.exponent) {
                Notation::Plain
            } else {
                Notation::Scientific
            },
        }
    }

    /// The whole part of the exponent, split by three: the power of one
    /// thousand, and the digits that are left for the mantissa.
    pub open spec fn scale_split(&self) -> (int, int) {
        (floor(self.exponent) / 3, floor(self.exponent) % 3)
    }

    /// The short-scale form: a number is scaled where its exponent lies
    /// strictly between -10 and 154 and its power of one thousand has a name,
    /// and scientific elsewhere.
    pub open spec fn short_form(&self) -> Notation {
        match self.token() {
            Some(t) => Notation::Token(t),
            None => if lt(self.exponent, SCALED_BELOW) && lt(SCALED_ABOVE, self.exponent)
                && self.scale_split().0 >= MIN_SCALE {
                Notation::Scaled {
                    scale: self.scale_split().0 as i32,
                    shift: self.scale_split().1 as i32,
                }
            } else {
                Notation::Scientific
            },
        }
    }

    /// The exponential form: every number is scientific.
    pub open spec fn exponential_form(&self) -> Notation {
        match self.token() {
            Some(t) => Notation::Token(t),
            None => Notation::Scientific,
        }
    }

    /// The fixed form: a number is padded from exponent 17 on, and plain below.
    pub open spec fn fixed_form(&self) -> Notation {
        match self.token() {
            Some(t) => Notation::Token(t),
            None => if le(DIGITS_LIMIT, self.exponent) {
                Notation::Padded
            } else {
                Notation::Plain
            },
        }
    }

    /// The form with `places` significant digits: plain where the exponent is
    /// above -7 and below `places`, and scientific elsewhere. This form has no
    /// words of its own: the notation that it picks writes them.
    pub open spec fn precision_form(&self, places: u32) -> Notation {
        if le(self.exponent, PLAIN_ABOVE) {
            Notation::Scientific
        } else if !nan(self.exponent) && units(self.exponent) < places * one_in_units() {
            Notation::Plain
        } else {
            Notation::Scientific
        }
    }

    /// The fixed word for the value, where it has one.
    pub fn classify(&self) -> (r: Option<Token>)
        ensures
            r == self.token(),
    {
        if is_nan(self.mantissa) || is_nan(self.exponent) {
            Some(Token::NotANumber)
        } else if less_equal(EXP_LIMIT, self.exponent) {
            if greater(self.mantissa, 0) {
                Some(Token::Infinity)
            } else {
                Some(Token::NegativeInfinity)
            }
        } else if less_equal(self.exponent, NEG_EXP_LIMIT) || equal(self.mantissa, 0) {
            Some(Token::Zero)
        } else {
            None
        }
    }

    /// The notation of the default form.
    pub fn display_notation(&self) -> (r: Notation)
        ensures
            r == self.display_form(),
    {
        match self.classify() {
            Some(t) => Notation::Token(t),
            None => if less(self.exponent, PLAIN_BELOW) && greater(self.exponent, PLAIN_ABOVE) {
                Notation::Plain
            } else {
                Notation::Scientific
            },
        }
    }

    /// The notation of the short-scale form. A scaled notation comes with a
    /// scale that has a name and a shift of 0, 1 or 2 digits.
    pub fn short_notation(&self) -> (r: Notation)
        ensures
            r == self.short_form(),
            r matches Notation::Scaled { scale, shift } ==> MIN_SCALE <= scale <= MAX_SCALE && 0
                <= shift <= 2,
    {
        match self.classify() {
            Some(t) => Notation::Token(t),
            None => {
                if less(self.exponent, SCALED_BELOW) && greater(self.exponent, SCALED_ABOVE) {
                    proof {
                        lemma_whole_constants();
                        lemma_units_order(self.exponent, SCALED_BELOW);
                        lemma_units_order(SCALED_ABOVE, self.exponent);
                        lemma_floor_below(units(self.exponent), 154);
                        lemma_floor_below(units(self.exponent), -10);
                    }
                    let (scale, shift) = scale_factor(self.exponent);
                    if scale >= MIN_SCALE {
                        Notation::Scaled { scale, shift }
                    } else {
                        Notation::Scientific
                    }
                } else {
                    Notation::Scientific
                }
            },
        }
    }

    /// The notation of the exponential form.
    pub fn exponential_notation(&self) -> (r: Notation)
        ensures
            r == self.exponential_form(),
    {
        match self.classify() {
            Some(t) => Notation::Token(t),
            None => Notation::Scientific,
        }
    }

    /// The notation of the fixed form.
    pub fn fixed_notation(&self) -> (r: Notation)
        ensures
            r == self.fixed_form(),
    {
        match self.classify() {
            Some(t) => Notation::Token(t),
            None => if less_equal(DIGITS_LIMIT, self.exponent) {
                Notation::Padded
            } else {
                Notation::Plain
            },
        }
    }

    /// The notation of the form with `places` significant digits.
    pub fn precision_notation(&self, places: u32) -> (r: Notation)
        ensures
            r == self.precision_form(places),
    {
        if less_equal(self.exponent, PLAIN_ABOVE) {
            Notation::Scientific
        } else if below_whole(self.exponent, places) {
            Notation::Plain
        } else {
            Notation::Scientific
        }
    }
}

/// The power of one thousand in `10^exponent`, and the powers of ten that
/// are left: the whole part of the exponent, divided by three, and the
/// remainder, which is 0, 1 or 2.
fn scale_factor(exponent: u64) -> (r: (i32, i32))
    requires
        !nan(exponent),
        -10 * one_in_units() <= units(exponent) < 154 * one_in_units(),
    ensures
        r.0 == floor(exponent) / 3,
        r.1 == floor(exponent) % 3,
        -4 <= r.0 <= 51,
        0 <= r.1 <= 2,
{
    proof {
        lemma_whole_constants();
        lemma_units_order(exponent, SCALED_BELOW);
        lemma_units_order(SCALED_ABOVE, exponent);
        lemma_units_order(exponent, SCALED_ABOVE);
        lemma_floor_below(units(exponent), 154);
        lemma_floor_below(units(exponent), -10);
    }
    let whole: i64 = match floor_i64(exponent) {
        Some(k) => k,
        None => 0,
    };
    let lifted: i64 = whole + 12;
    let scale: i64 = lifted / 3 - 4;
    let shift: i64 = lifted % 3;
    (scale as i32, shift as i32)
}

/// A number with a whole exponent from -9 to 153 is scaled by that exponent
/// divided by three, and the remainder moves the point of its mantissa.
pub proof fn law_whole_exponents_scale(d: Decimal, n: int)
    requires
        d.token() is None,
        !nan(d.exponent),
        units(d.exponent) == n * one_in_units(),
        -9 <= n <= 153,
    ensures
        d.short_form() == (Notation::Scaled { scale: (n / 3) as i32, shift: (n % 3) as i32 }),
        MIN_SCALE <= n / 3 <= MAX_SCALE,
        0 <= n % 3 <= 2,
{
    lemma_whole_constants();
    lemma_floor_of_whole(d.exponent, n);
    vstd::arithmetic::power2::lemma_pow2_pos(1074);
    assert(n * one_in_units() < 154 * one_in_units()) by (nonlinear_arith)
        requires
            n < 154,
            one_in_units() > 0,
    ;
    assert(-10 * one_in_units() < n * one_in_units()) by (nonlinear_arith)
        requires
            -10 < n,
            one_in_units() > 0,
    ;
}

} // verus!
