//! The binary64 value of a decimal, as far as it is decided without multiplying.
//!
//! The value is the product of the mantissa and the power of ten of the
//! exponent. An exponent out of the range of binary64 values decides the
//! value alone. Else the whole part of the exponent is the power of ten, the
//! product is taken with binary64 arithmetic, which is not done here, and a
//! product that is very near a whole number is taken for it.

use vstd::prelude::*;
use vstd::arithmetic::div_mod::{lemma_fundamental_div_mod, lemma_fundamental_div_mod_converse};
use vstd::arithmetic::power2::{
    pow2, lemma2_to64, lemma2_to64_rest, lemma_pow2_adds, lemma_pow2_pos,
    lemma_pow2_strictly_increases, lemma_pow2_unfold,
};
use crate::binary64;
use crate::binary64::{
    eq, equal, exponent_field, finite, fraction_field, is_finite, is_nan, is_sign_negative,
    lemma_unit_count_increases, less, lt, magnitude, nan, negative, one_in_units, to_i32,
    truncated_i32, unit_count, units, FRACTION_SPAN, SIGN_BIT,
};
use crate::consts;
use crate::consts::{NUMBER_EXP_MAX_BITS, NUMBER_EXP_MIN_BITS, ZERO_BITS};
use crate::decimal::Decimal;

verus! {

/// The smallest positive binary64 value, `5e-324`.
pub const MIN_POSITIVE: u64 = 0x0000_0000_0000_0001;

/// The negative binary64 value nearest to zero, `-5e-324`.
pub const MAX_NEGATIVE: u64 = 0x8000_0000_0000_0001;

/// `2^50`: a value is taken for a whole number that it is no more than one
/// part in this many of itself away from. That is four steps of rounding at
/// the size of the value, which a product of two rounded factors stays within.
pub const SNAP_PARTS: u64 = 0x0004_0000_0000_0000;

/// `0.5`: below it no value is near a whole number but zero itself.
pub const HALF: u64 = 0x3fe0_0000_0000_0000;

/// The exponent decides the binary64 value of a decimal alone: it is not
/// finite, above 308, or at -324 or below.
pub open spec fn exponent_decides(exponent: u64) -> bool {
    ||| !finite(exponent)
    ||| lt(NUMBER_EXP_MAX_BITS, exponent)
    ||| lt(exponent, NUMBER_EXP_MIN_BITS)
    ||| eq(exponent, NUMBER_EXP_MIN_BITS)
}

/// The binary64 value of a decimal whose exponent is out of a binary64
/// value's range or at its lower end.
///
/// An exponent that is not finite gives a NaN, and so does a mantissa that
/// is a NaN. Above 308 the value is the infinity of the mantissa's sign,
/// below -324 it is zero, and at -324 it is the binary64 value nearest to
/// zero with the mantissa's sign. The sign of a mantissa is its sign bit.
pub open spec fn number_out_of_range(d: Decimal) -> Option<u64> {
    if !exponent_decides(d.exponent) {
        None
    } else if !finite(d.exponent) || nan(d.mantissa) {
        Some(binary64::NAN)
    } else if lt(NUMBER_EXP_MAX_BITS, d.exponent) {
        if negative(d.mantissa) {
            Some(binary64::NEG_INFINITY)
        } else {
            Some(binary64::INFINITY)
        }
    } else if lt(d.exponent, NUMBER_EXP_MIN_BITS) {
        Some(ZERO_BITS)
    } else if negative(d.mantissa) {
        Some(MAX_NEGATIVE)
    } else {
        Some(MIN_POSITIVE)
    }
}

/// The whole part of the exponent of a decimal whose binary64 value is the
/// product of its mantissa and a power of ten: the power of ten.
pub open spec fn number_power(d: Decimal) -> int {
    truncated_i32(d.exponent)
}

/// How far the value is from the whole number `w`, in units of `2^-1074`.
pub open spec fn distance(number: u64, w: int) -> int {
    let d = units(number) - w * one_in_units();
    if d < 0 {
        -d
    } else {
        d
    }
}

/// The value is near the whole number `w`: no more than one part in `2^50` of
/// itself away from it, and less than a half, so that no other whole number
/// is as near.
pub open spec fn near_whole(number: u64, w: int) -> bool {
    distance(number, w) * SNAP_PARTS <= unit_count(number) && 2 * distance(number, w)
        < one_in_units()
}

/// The absolute value of an integer.
spec fn size(x: int) -> int {
    if x < 0 {
        -x
    } else {
        x
    }
}

/// A common step scales distances and leaves their comparisons as they are.
proof fn lemma_scaled_near(sig: int, d: int, step: int, v: int)
    requires
        step > 0,
    ensures
        size(sig * step - v * (d * step)) == size(sig - v * d) * step,
        size(sig * step - v * (d * step)) * SNAP_PARTS <= sig * step <==> size(sig - v * d)
            * SNAP_PARTS <= sig,
        2 * size(sig * step - v * (d * step)) < d * step <==> 2 * size(sig - v * d) < d,
{
    let g = sig - v * d;
    assert(sig * step - v * (d * step) == g * step) by (nonlinear_arith)
        requires
            g == sig - v * d,
    ;
    assert(size(g * step) == size(g) * step) by (nonlinear_arith)
        requires
            step > 0,
    ;
    let a = size(g);
    assert(a * step * SNAP_PARTS <= sig * step <==> a * SNAP_PARTS <= sig) by (nonlinear_arith)
        requires
            step > 0,
    ;
    assert(2 * (a * step) < d * step <==> 2 * a < d) by (nonlinear_arith)
        requires
            step > 0,
    ;
}

/// A number that is less than half a `d` away from a multiple of `d` lies
/// just above that multiple or just below it.
proof fn lemma_between_multiples(sig: int, d: int, k: int, lo: int, v: int)
    requires
        sig == k * d + lo,
        0 <= lo < d,
        2 * size(sig - v * d) < d,
    ensures
        (v == k && size(sig - v * d) == lo) || (v == k + 1 && size(sig - v * d) == d - lo),
{
    assert(sig - v * d == (k - v) * d + lo) by (nonlinear_arith)
        requires
            sig == k * d + lo,
    ;
    assert(v <= k - 1 ==> (k - v) * d >= d) by (nonlinear_arith)
        requires
            d > 0,
    ;
    assert(v >= k + 2 ==> (k - v) * d <= -2 * d) by (nonlinear_arith)
        requires
            d > 0,
    ;
    assert(v == k ==> (k - v) * d == 0) by (nonlinear_arith);
    assert(v == k + 1 ==> (k - v) * d == -d) by (nonlinear_arith);
}

/// The distance of a value from a whole number is that of its absolute value
/// from the whole number with the value's sign taken off.
proof fn lemma_distance_by_count(number: u64, w: int)
    ensures
        distance(number, w) == size(
            unit_count(number) - (if negative(number) {
                -w
            } else {
                w
            }) * one_in_units(),
        ),
{
    let u = one_in_units() as int;
    assert((-w) * u == -(w * u)) by (nonlinear_arith);
}

/// The pattern of exponent field `e` and fraction `frac` counts the
/// significand at the step of its exponent.
proof fn lemma_pattern_units(p: u64, e: int, frac: int)
    requires
        1 <= e,
        0 <= frac < FRACTION_SPAN,
        p == e * FRACTION_SPAN + frac,
        p < SIGN_BIT,
    ensures
        unit_count(p) == (FRACTION_SPAN + frac) * pow2((e - 1) as nat),
        !negative(p),
{
    assert(magnitude(p) == p);
    lemma_fundamental_div_mod_converse(p as int, FRACTION_SPAN as int, e, frac);
}

/// The whole number `w` with the sign of the value taken off.
pub open spec fn unsigned(number: u64, w: int) -> int {
    if negative(number) {
        -w
    } else {
        w
    }
}

/// What the parts of a pattern between a half and `2^52` are: `e` and `f` its
/// fields, `d` the power of two that stands for one at its exponent, `k` the
/// whole part of its significand and `lo` what is left of it.
pub open spec fn parts(m: u64, e: int, f: int, d: int, k: int, lo: int) -> bool {
    &&& m < SIGN_BIT
    &&& 1022 <= e <= 1074
    &&& 0 <= f < FRACTION_SPAN
    &&& m == e * FRACTION_SPAN + f
    &&& d == pow2((1075 - e) as nat)
    &&& 0 <= lo < d
    &&& FRACTION_SPAN + f == k * d + lo
}

/// The parts of a pattern give its count of units, and the units in one.
proof fn lemma_parts(m: u64, e: int, f: int, d: int, k: int, lo: int)
    requires
        parts(m, e, f, d, k, lo),
    ensures
        pow2((e - 1) as nat) > 0,
        unit_count(m) == (FRACTION_SPAN + f) * pow2((e - 1) as nat),
        one_in_units() == d * pow2((e - 1) as nat),
        d > 0,
        k >= 0,
        (k + 1) * d <= 2 * FRACTION_SPAN,
        k * d <= FRACTION_SPAN + f,
{
    let drop = (1075 - e) as nat;
    lemma2_to64();
    lemma2_to64_rest();
    lemma_pow2_pos(drop);
    lemma_pow2_pos((e - 1) as nat);
    lemma_pattern_units(m, e, f);
    lemma_pow2_adds(drop, (e - 1) as nat);
    assert(drop + (e - 1) as nat == 1074);
    lemma_pow2_adds(drop, (53 - drop) as nat);
    lemma_pow2_pos((53 - drop) as nat);
    let q = pow2((53 - drop) as nat) as int;
    let sig = FRACTION_SPAN + f;
    assert(d * q == 2 * FRACTION_SPAN);
    assert(k >= 0 && (k + 1) * d <= 2 * FRACTION_SPAN && k * d <= sig) by (nonlinear_arith)
        requires
            sig == k * d + lo,
            0 <= lo < d,
            0 <= sig < 2 * FRACTION_SPAN,
            d * q == 2 * FRACTION_SPAN,
            d > 0,
            q > 0,
    ;
}

/// Taking what is left of the significand off a pattern gives the pattern of
/// the whole part.
proof fn lemma_down_pattern(m: u64, e: int, f: int, d: int, k: int, lo: int)
    requires
        parts(m, e, f, d, k, lo),
        lo < FRACTION_SPAN,
    ensures
        lo <= f,
        unit_count((m - lo) as u64) == k * one_in_units(),
        (m - lo) as u64 <= m,
{
    let drop = (1075 - e) as nat;
    lemma_parts(m, e, f, d, k, lo);
    let step = pow2((e - 1) as nat) as int;
    // The low bits of the significand are those of the fraction.
    if drop == 53 {
        lemma2_to64_rest();
        assert(k == 0) by (nonlinear_arith)
            requires
                FRACTION_SPAN + f == k * d + lo,
                0 <= lo < d,
                d == 2 * FRACTION_SPAN,
                0 <= f < FRACTION_SPAN,
        ;
        assert(k * d == 0) by (nonlinear_arith)
            requires
                k == 0,
        ;
        assert(false);
    }
    lemma_pow2_adds(drop, (52 - drop) as nat);
    lemma2_to64_rest();
    let q = pow2((52 - drop) as nat) as int;
    assert(d * q == FRACTION_SPAN);
    // f = (k - q) * d + lo with lo below d, so lo is what f leaves.
    assert(f == (k - q) * d + lo) by (nonlinear_arith)
        requires
            FRACTION_SPAN + f == k * d + lo,
            d * q == FRACTION_SPAN,
    ;
    assert(k - q >= 0) by (nonlinear_arith)
        requires
            f == (k - q) * d + lo,
            0 <= f,
            0 <= lo < d,
    ;
    assert((k - q) * d >= 0) by (nonlinear_arith)
        requires
            k - q >= 0,
            d > 0,
    ;
    assert(lo <= f);
    lemma_pattern_units((m - lo) as u64, e, f - lo);
    assert((FRACTION_SPAN + (f - lo)) * step == k * (d * step)) by (nonlinear_arith)
        requires
            FRACTION_SPAN + f == k * d + lo,
    ;
}

/// Filling the significand of a pattern up to the next whole number gives
/// the pattern of that whole number, also where it is the next power of two.
proof fn lemma_up_pattern(m: u64, e: int, f: int, d: int, k: int, lo: int)
    requires
        parts(m, e, f, d, k, lo),
    ensures
        f + (d - lo) <= FRACTION_SPAN,
        unit_count((m + (d - lo)) as u64) == (k + 1) * one_in_units(),
        m + (d - lo) <= binary64::WHOLE_FROM,
{
    lemma_parts(m, e, f, d, k, lo);
    let step = pow2((e - 1) as nat) as int;
    let hi = d - lo;
    assert(FRACTION_SPAN + f + hi == (k + 1) * d) by (nonlinear_arith)
        requires
            FRACTION_SPAN + f == k * d + lo,
            hi == d - lo,
    ;
    if f + hi < FRACTION_SPAN {
        lemma_pattern_units((m + hi) as u64, e, f + hi);
        assert((FRACTION_SPAN + (f + hi)) * step == (k + 1) * (d * step)) by (nonlinear_arith)
            requires
                FRACTION_SPAN + f + hi == (k + 1) * d,
        ;
    } else {
        lemma_pattern_units((m + hi) as u64, e + 1, 0);
        lemma_pow2_unfold(e as nat);
        assert(FRACTION_SPAN * (2 * step) == (k + 1) * (d * step)) by (nonlinear_arith)
            requires
                FRACTION_SPAN + f + hi == (k + 1) * d,
                f + hi == FRACTION_SPAN,
        ;
    }
}

/// A value between a half and `2^52` is near the whole part of its
/// significand where what is left is small, near the next whole number where
/// what is missing is small, and near no other.
pub proof fn lemma_near_by_parts(number: u64, e: int, f: int, d: int, k: int, lo: int, w: int)
    requires
        parts(magnitude(number), e, f, d, k, lo),
    ensures
        near_whole(number, w) <==> {
            ||| unsigned(number, w) == k && lo * SNAP_PARTS <= FRACTION_SPAN + f && 2 * lo < d
            ||| unsigned(number, w) == k + 1 && (d - lo) * SNAP_PARTS <= FRACTION_SPAN + f && 2 * (d
                - lo) < d
        },
{
    let m = magnitude(number);
    lemma_parts(m, e, f, d, k, lo);
    let step = pow2((e - 1) as nat) as int;
    let sig = (FRACTION_SPAN + f) as int;
    let v = unsigned(number, w);
    assert(unit_count(number) == unit_count(m));
    lemma_distance_by_count(number, w);
    lemma_scaled_near(sig, d, step, v);
    if 2 * size(sig - v * d) < d {
        lemma_between_multiples(sig, d, k, lo, v);
    }
    assert(v == k ==> sig - v * d == lo) by (nonlinear_arith)
        requires
            sig == k * d + lo,
    ;
    assert(v == k + 1 ==> sig - v * d == lo - d) by (nonlinear_arith)
        requires
            sig == k * d + lo,
    ;
}

/// A small number is at most the quotient of a division exactly when its
/// product with the divisor is at most the dividend.
proof fn lemma_at_most_quotient(a: int, b: int)
    requires
        0 <= a,
        0 <= b,
    ensures
        a <= b / (SNAP_PARTS as int) <==> a * SNAP_PARTS <= b,
{
    let p = SNAP_PARTS as int;
    lemma_fundamental_div_mod(b, p);
    let q = b / p;
    let r = b % p;
    assert(a <= q ==> a * p <= p * q) by (nonlinear_arith)
        requires
            p > 0,
    ;
    assert(a >= q + 1 ==> a * p >= p * q + p) by (nonlinear_arith)
        requires
            p > 0,
    ;
}

/// A value at or above `2^52` is near the whole number that it is, and a
/// value below a half is near zero only where it is zero. A pattern that is
/// not finite counts as the whole number that its fields spell.
proof fn lemma_near_outside(number: u64, w: int)
    requires
        magnitude(number) >= binary64::WHOLE_FROM || magnitude(number) < HALF,
        near_whole(number, w),
    ensures
        units(number) == w * one_in_units(),
{
    let u = one_in_units() as int;
    let c = unit_count(number) as int;
    lemma_pow2_pos(1074);
    lemma_pow2_unfold(1074);
    if magnitude(number) >= binary64::WHOLE_FROM {
        binary64::lemma_large_whole_is_whole(number);
        let w0 = units(number) / u;
        lemma_fundamental_div_mod(units(number), u);
        assert(w == w0) by (nonlinear_arith)
            requires
                2 * size(u * w0 - w * u) < u,
                u > 0,
        ;
        assert(w0 * u == u * w0) by (nonlinear_arith);
    } else {
        lemma2_to64_rest();
        assert(exponent_field(HALF) == 1022 && fraction_field(HALF) == 0);
        lemma_pow2_adds(52, 1021);
        assert(unit_count(HALF) == pow2(1073));
        lemma_unit_count_increases(magnitude(number), HALF);
        assert(unit_count(magnitude(number)) == c);
        lemma_distance_by_count(number, w);
        let v = unsigned(number, w);
        assert(v == 0 && c == 0) by (nonlinear_arith)
            requires
                size(c - v * u) * 0x0004_0000_0000_0000 <= c,
                2 * size(c - v * u) < u,
                0 <= c,
                2 * c < u,
        ;
        assert(w * u == 0) by (nonlinear_arith)
            requires
                w == 0,
        ;
    }
}

/// The whole number that the value is near, where there is one, else the
/// value itself. The sign stays, and a value that is not finite stays as it is.
pub fn snap_to_whole(number: u64) -> (r: u64)
    ensures
        forall|w: int| near_whole(number, w) ==> units(r) == w * one_in_units(),
        (forall|w: int| !near_whole(number, w)) ==> r == number,
        negative(r) == negative(number),
        finite(r) == finite(number),
        !finite(number) ==> r == number,
{
    let m: u64 = binary64::abs(number);
    let sign: u64 = if number >= SIGN_BIT {
        SIGN_BIT
    } else {
        0
    };
    if m >= binary64::WHOLE_FROM || m < HALF {
        proof {
            assert forall|w: int| near_whole(number, w) implies units(number) == w
                * one_in_units() by {
                lemma_near_outside(number, w);
            }
        }
        return number;
    }
    let e: u64 = m / FRACTION_SPAN;
    let f: u64 = m % FRACTION_SPAN;
    let significand: u64 = FRACTION_SPAN + f;
    let drop: u64 = 1075 - e;
    proof {
        binary64::lemma_shift_is_power(drop);
        lemma_pow2_pos(drop as nat);
    }
    let d: u64 = 1u64 << drop;
    let k: u64 = significand / d;
    let lo: u64 = significand % d;
    let hi: u64 = d - lo;
    let tolerance: u64 = significand / SNAP_PARTS;
    proof {
        lemma_fundamental_div_mod(significand as int, d as int);
        assert(significand == k * d + lo) by (nonlinear_arith)
            requires
                significand == d * k + lo,
        ;
        assert(parts(m, e as int, f as int, d as int, k as int, lo as int));
        lemma_parts(m, e as int, f as int, d as int, k as int, lo as int);
        lemma_at_most_quotient(lo as int, significand as int);
        lemma_at_most_quotient(hi as int, significand as int);
        lemma2_to64_rest();
        if drop < 53 {
            lemma_pow2_strictly_increases(drop as nat, 53);
        }
    }
    let down: bool = lo <= tolerance && 2 * lo < d;
    let up: bool = hi <= tolerance && 2 * hi < d;
    let r: u64 = if down {
        proof {
            lemma_down_pattern(m, e as int, f as int, d as int, k as int, lo as int);
        }
        sign + (m - lo)
    } else if up {
        proof {
            lemma_up_pattern(m, e as int, f as int, d as int, k as int, lo as int);
        }
        sign + (m + hi)
    } else {
        number
    };
    proof {
        let ghost kw: int = if negative(number) {
            -(k as int)
        } else {
            k as int
        };
        let ghost kw1: int = if negative(number) {
            -(k + 1)
        } else {
            k + 1
        };
        let u = one_in_units() as int;
        assert(kw * u == (if negative(number) {
            -(k * u)
        } else {
            k * u
        })) by (nonlinear_arith)
            requires
                kw == (if negative(number) {
                    -(k as int)
                } else {
                    k as int
                }),
        ;
        assert(kw1 * u == (if negative(number) {
            -((k + 1) * u)
        } else {
            (k + 1) * u
        })) by (nonlinear_arith)
            requires
                kw1 == (if negative(number) {
                    -(k + 1)
                } else {
                    k + 1
                }),
        ;
        lemma_near_by_parts(number, e as int, f as int, d as int, k as int, lo as int, kw);
        lemma_near_by_parts(number, e as int, f as int, d as int, k as int, lo as int, kw1);
        assert forall|w: int| near_whole(number, w) implies units(r) == w * u by {
            lemma_near_by_parts(number, e as int, f as int, d as int, k as int, lo as int, w);
            assert(w == kw || w == kw1);
        }
    }
    r
}

/// The ends of the range of powers of ten, in units.
proof fn lemma_range_ends()
    ensures
        units(NUMBER_EXP_MAX_BITS) == 308 * one_in_units(),
        units(NUMBER_EXP_MIN_BITS) == -324 * one_in_units(),
        !nan(NUMBER_EXP_MAX_BITS),
        !nan(NUMBER_EXP_MIN_BITS),
{
    consts::lemma_whole_constants();
}

/// An absolute value below 324 has a whole part below 324, and one below 309
/// a whole part below 309.
proof fn lemma_whole_part_in_range(exponent: u64)
    ensures
        unit_count(exponent) < 324 * one_in_units() ==> binary64::whole_part(exponent) < 324,
        unit_count(exponent) < 309 * one_in_units() ==> binary64::whole_part(exponent) < 309,
{
    binary64::lemma_whole_part_bounds(exponent, 324);
    binary64::lemma_whole_part_bounds(exponent, 309);
}

/// An exponent strictly above -324 and at most 308, in units.
proof fn lemma_units_in_range(exponent: u64)
    requires
        finite(exponent),
        !lt(NUMBER_EXP_MAX_BITS, exponent),
        !lt(exponent, NUMBER_EXP_MIN_BITS),
        !eq(exponent, NUMBER_EXP_MIN_BITS),
    ensures
        -324 * one_in_units() < units(exponent) <= 308 * one_in_units(),
{
    lemma_range_ends();
}

/// The absolute value of a value within bounds is within them.
proof fn lemma_count_in_range(exponent: u64)
    requires
        -324 * one_in_units() < units(exponent) <= 308 * one_in_units(),
    ensures
        negative(exponent) ==> unit_count(exponent) < 324 * one_in_units(),
        !negative(exponent) ==> unit_count(exponent) < 309 * one_in_units(),
{
    lemma_pow2_pos(1074);
}

/// A whole part within bounds is the value as a 32-bit integer.
proof fn lemma_truncated_in_range(exponent: u64)
    requires
        finite(exponent),
        negative(exponent) ==> binary64::whole_part(exponent) < 324,
        !negative(exponent) ==> binary64::whole_part(exponent) < 309,
    ensures
        -324 < truncated_i32(exponent) <= 308,
{
}

/// The whole part of an exponent strictly above -324 and at most 308 lies
/// from -323 to 308.
proof fn lemma_power_in_range(exponent: u64)
    requires
        finite(exponent),
        !lt(NUMBER_EXP_MAX_BITS, exponent),
        !lt(exponent, NUMBER_EXP_MIN_BITS),
        !eq(exponent, NUMBER_EXP_MIN_BITS),
    ensures
        -324 < truncated_i32(exponent) <= 308,
{
    lemma_units_in_range(exponent);
    lemma_count_in_range(exponent);
    lemma_whole_part_in_range(exponent);
    lemma_truncated_in_range(exponent);
}

impl Decimal {
    /// The binary64 value of the decimal where its exponent decides it.
    pub fn to_number_exact(&self) -> (r: Option<u64>)
        ensures
            r == number_out_of_range(*self),
    {
        let finite_exponent: bool = is_finite(self.exponent);
        let above: bool = less(NUMBER_EXP_MAX_BITS, self.exponent);
        let below: bool = less(self.exponent, NUMBER_EXP_MIN_BITS);
        let at_end: bool = equal(self.exponent, NUMBER_EXP_MIN_BITS);
        if finite_exponent && !above && !below && !at_end {
            None
        } else if !finite_exponent || is_nan(self.mantissa) {
            Some(binary64::NAN)
        } else if above {
            if is_sign_negative(self.mantissa) {
                Some(binary64::NEG_INFINITY)
            } else {
                Some(binary64::INFINITY)
            }
        } else if below {
            Some(ZERO_BITS)
        } else if is_sign_negative(self.mantissa) {
            Some(MAX_NEGATIVE)
        } else {
            Some(MIN_POSITIVE)
        }
    }

    /// The power of ten that the mantissa is multiplied by for the binary64
    /// value of the decimal, where the exponent does not decide the value: the
    /// whole part of the exponent, from -323 to 308.
    pub fn to_number_power(&self) -> (r: i32)
        requires
            number_out_of_range(*self) is None,
        ensures
            r == number_power(*self),
            -324 < r <= 308,
    {
        proof {
            lemma_power_in_range(self.exponent);
        }
        to_i32(self.exponent)
    }

    /// The binary64 value of the decimal, given the product of its mantissa
    /// and the power of ten of its exponent as binary64 arithmetic gives it.
    ///
    /// A product that is not finite is the value, and so is every product of
    /// a decimal with an exponent below zero. For the others, a product that
    /// is near a whole number is taken for that whole number: the rounding
    /// of the mantissa and of the product is not to show, so that a whole
    /// number that became a decimal comes back as it was.
    pub fn to_number_snapped(&self, product: u64) -> (r: u64)
        ensures
            !finite(product) || lt(self.exponent, ZERO_BITS) ==> r == product,
            finite(product) && !lt(self.exponent, ZERO_BITS) ==> {
                &&& forall|w: int| near_whole(product, w) ==> units(r) == w * one_in_units()
                &&& (forall|w: int| !near_whole(product, w)) ==> r == product
                &&& negative(r) == negative(product)
                &&& finite(r)
            },
    {
        if less(self.exponent, ZERO_BITS) {
            product
        } else {
            snap_to_whole(product)
        }
    }
}

} // verus!
