//! Exact core of an extended-range decimal number.
//!
//! A [`Decimal`] is a pair of IEEE 754 binary64 values, a mantissa and a
//! power-of-ten exponent, and stands for `mantissa * 10^exponent`. This crate
//! holds everything about such a pair that is decided without rounding: the
//! representation and its named values, classification, equality and the
//! order, the layouts in words and bytes, the choice of a notation and the
//! layout of the text forms, the outer grammar of a text, and of the
//! arithmetic every case and every choice that needs no rounding. Every binary64
//! value is carried as its 64-bit pattern, so that each function is a
//! function on integers and strings.
//!
//! Operations that round (sums, products, powers, logarithms, the digits of a
//! number) are built on top of this core by its users.
//!
//! - [`binary64`]: patterns of binary64 values and the numbers that they stand for
//! - [`consts`]: the limits of the representation and the named values
//! - [`decimal`]: the decimal, its sign, its normal form
//! - [`order`]: equality, the order, and comparing within a tolerance
//! - [`numeric`]: the order against the numbers that decimals stand for
//! - [`layout`]: words and bytes
//! - [`notation`]: which form a decimal is written in
//! - [`scale`]: the names of the powers of one thousand
//! - [`text`]: padding and the strings of the text forms
//! - [`literal`]: the outer grammar of a decimal's text
//! - [`construct`]: decimals from numbers and from pairs
//! - [`sum`]: the sum of two decimals
//! - [`number`]: the binary64 value of a decimal
//! - [`rounding`]: rounding to a whole number
//! - [`power`]: powers, roots and logarithms

pub mod binary64;
pub mod consts;
pub mod construct;
pub mod decimal;
pub mod layout;
pub mod literal;
pub mod notation;
pub mod number;
pub mod numeric;
pub mod order;
pub mod power;
pub mod rounding;
pub mod scale;
pub mod sum;
pub mod text;

pub use crate::decimal::{from_mantissa_exponent_no_normalize, Decimal};
pub use crate::construct::{from_mantissa_exponent_exact, new_scaling, normalize_scaling, Scaling};
pub use crate::number::snap_to_whole;
pub use crate::power::exp_is_native;
pub use crate::rounding::Rounding;
pub use crate::sum::Sum;
pub use crate::literal::{parse_literal, Literal};
pub use crate::notation::{Notation, Token};
pub use crate::scale::short_scale_term;
pub use crate::text::{
    pad_end, padded_text, rounding_shift, scaled_text, scientific_text, strip_points,
    zeros_after_point,
};
