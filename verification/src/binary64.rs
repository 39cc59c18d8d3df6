//! IEEE 754 binary64 values, read through their 64-bit patterns.
//!
//! A pattern is a sign bit, an 11-bit biased exponent and a 52-bit fraction.
//! Every pattern that is not a NaN stands for a multiple of `2^-1074`; the
//! count of those units is the mathematical model that the contracts of this
//! module use. Infinity counts as the power of two just above every finite
//! value, which keeps it at the top of the order.

use vstd::prelude::*;
use vstd::arithmetic::div_mod::{
    lemma_basic_div, lemma_fundamental_div_mod, lemma_fundamental_div_mod_converse,
    lemma_mul_mod_noop_general, lemma_small_mod,
};
use vstd::arithmetic::power2::{
    pow2, lemma2_to64, lemma2_to64_rest, lemma_pow2_adds, lemma_pow2_pos, lemma_pow2_unfold,
    lemma_pow2_strictly_increases,
};
use vstd::bits::lemma_u64_shl_is_mul;

verus! {

/// The sign bit.
pub const SIGN_BIT: u64 = 0x8000_0000_0000_0000;

/// The pattern of positive infinity: exponent field all ones, fraction zero.
pub const INFINITY: u64 = 0x7ff0_0000_0000_0000;

/// The pattern of negative infinity.
pub const NEG_INFINITY: u64 = 0xfff0_0000_0000_0000;

/// The pattern of the quiet NaN that arithmetic produces.
pub const NAN: u64 = 0x7ff8_0000_0000_0000;

/// The number of fraction patterns: `2^52`.
pub const FRACTION_SPAN: u64 = 0x0010_0000_0000_0000;

/// The pattern of `2^52`. A finite value of at least this magnitude is a
/// whole number, and a value below it has a floor of at most 52 bits.
pub const WHOLE_FROM: u64 = 0x4330_0000_0000_0000;

/// The exponent field of `1.0`.
pub const EXPONENT_BIAS: u64 = 1023;

/// The pattern without its sign bit.
pub open spec fn magnitude(bits: u64) -> u64 {
    if bits >= SIGN_BIT {
        (bits - SIGN_BIT) as u64
    } else {
        bits
    }
}

/// The pattern with its sign bit flipped.
pub open spec fn negated(bits: u64) -> u64 {
    if bits >= SIGN_BIT {
        (bits - SIGN_BIT) as u64
    } else {
        (bits + SIGN_BIT) as u64
    }
}

/// The sign bit is set. This holds of negative zero and of half the NaNs too.
pub open spec fn negative(bits: u64) -> bool {
    bits >= SIGN_BIT
}

/// The pattern is a NaN: exponent field all ones and a fraction that is not zero.
pub open spec fn nan(bits: u64) -> bool {
    magnitude(bits) > INFINITY
}

/// The pattern is positive or negative infinity.
pub open spec fn infinite(bits: u64) -> bool {
    magnitude(bits) == INFINITY
}

/// The pattern is neither a NaN nor an infinity.
pub open spec fn finite(bits: u64) -> bool {
    magnitude(bits) < INFINITY
}

/// The pattern is positive or negative zero.
pub open spec fn zero(bits: u64) -> bool {
    magnitude(bits) == 0
}

/// The biased exponent field.
pub open spec fn exponent_field(bits: u64) -> nat {
    (magnitude(bits) / FRACTION_SPAN) as nat
}

/// The fraction field.
pub open spec fn fraction_field(bits: u64) -> nat {
    (magnitude(bits) % FRACTION_SPAN) as nat
}

/// The absolute value in units of `2^-1074`.
///
/// A subnormal pattern counts its fraction; a normal one has the implicit
/// leading bit and is shifted by its exponent field.
pub open spec fn unit_count(bits: u64) -> nat {
    if exponent_field(bits) == 0 {
        fraction_field(bits)
    } else {
        ((FRACTION_SPAN + fraction_field(bits)) * pow2((exponent_field(bits) - 1) as nat)) as nat
    }
}

/// The value in units of `2^-1074`, with its sign.
pub open spec fn units(bits: u64) -> int {
    if negative(bits) {
        -(unit_count(bits) as int)
    } else {
        unit_count(bits) as int
    }
}

/// What a pattern stands for: no number, or a number of units of `2^-1074`.
/// The two zeros stand for the same number, and so do no other two patterns.
pub enum Value {
    /// Any NaN.
    NotANumber,
    /// A finite value or an infinity, in units of `2^-1074`.
    Number(int),
}

/// What the pattern stands for.
pub open spec fn value(bits: u64) -> Value {
    if nan(bits) {
        Value::NotANumber
    } else {
        Value::Number(units(bits))
    }
}

/// Both patterns are numbers, so that they can be compared.
pub open spec fn ordered(a: u64, b: u64) -> bool {
    !nan(a) && !nan(b)
}

/// `a == b` as binary64 values: both are numbers of the same value. The two
/// zeros are equal, and a NaN equals nothing.
pub open spec fn eq(a: u64, b: u64) -> bool {
    ordered(a, b) && units(a) == units(b)
}

/// `a < b` as binary64 values.
pub open spec fn lt(a: u64, b: u64) -> bool {
    ordered(a, b) && units(a) < units(b)
}

/// `a <= b` as binary64 values.
pub open spec fn le(a: u64, b: u64) -> bool {
    ordered(a, b) && units(a) <= units(b)
}

/// The units in one: `2^1074`.
pub open spec fn one_in_units() -> nat {
    pow2(1074)
}

/// The largest whole number that is not above the value.
pub open spec fn floor(bits: u64) -> int {
    units(bits) / (one_in_units() as int)
}

/// The value is a whole number.
pub open spec fn whole(bits: u64) -> bool {
    units(bits) % (one_in_units() as int) == 0
}

/// The whole part of the absolute value.
pub open spec fn whole_part(bits: u64) -> nat {
    unit_count(bits) / one_in_units()
}

/// Among patterns without a sign bit, a larger pattern is a larger value.
pub proof fn lemma_unit_count_increases(a: u64, b: u64)
    requires
        a < b < SIGN_BIT,
    ensures
        unit_count(a) < unit_count(b),
{
    let ea = exponent_field(a);
    let eb = exponent_field(b);
    let fa = fraction_field(a);
    let fb = fraction_field(b);
    assert(a == ea * FRACTION_SPAN + fa && b == eb * FRACTION_SPAN + fb);
    assert(ea <= eb);
    if ea == eb {
        if ea != 0 {
            let p = pow2((ea - 1) as nat);
            lemma_pow2_pos((ea - 1) as nat);
            assert((FRACTION_SPAN + fa) * p < (FRACTION_SPAN + fb) * p) by (nonlinear_arith)
                requires
                    fa < fb,
                    p > 0,
            ;
        }
    } else {
        let q = pow2((eb - 1) as nat);
        lemma_pow2_pos((eb - 1) as nat);
        assert(FRACTION_SPAN * q <= (FRACTION_SPAN + fb) * q) by (nonlinear_arith)
            requires
                q > 0,
                fb >= 0,
        ;
        if ea == 0 {
            assert(FRACTION_SPAN * 1 <= FRACTION_SPAN * q) by (nonlinear_arith)
                requires
                    q >= 1,
            ;
        } else {
            let p = pow2((ea - 1) as nat);
            lemma_pow2_pos((ea - 1) as nat);
            lemma_pow2_unfold(ea);
            if ea < eb - 1 {
                lemma_pow2_strictly_increases(ea, (eb - 1) as nat);
            }
            assert((FRACTION_SPAN + fa) * p < 2 * FRACTION_SPAN * p) by (nonlinear_arith)
                requires
                    fa < FRACTION_SPAN,
                    p > 0,
            ;
            assert(2 * FRACTION_SPAN * p == FRACTION_SPAN * (2 * p)) by (nonlinear_arith);
            assert(FRACTION_SPAN * (2 * p) <= FRACTION_SPAN * q) by (nonlinear_arith)
                requires
                    2 * p <= q,
            ;
        }
    }
}

/// Only the two zeros count no units.
pub proof fn lemma_unit_count_zero(bits: u64)
    ensures
        unit_count(bits) == 0 <==> zero(bits),
{
    let m = magnitude(bits);
    if m != 0 {
        lemma_unit_count_increases(0, m);
    }
    assert(unit_count(0) == 0);
    assert(unit_count(bits) == unit_count(m));
}

/// Patterns of one sign are ordered by their magnitudes, upwards for the
/// positive sign and downwards for the negative one.
pub proof fn lemma_units_order(a: u64, b: u64)
    ensures
        !negative(a) && !negative(b) ==> (units(a) < units(b) <==> a < b),
        negative(a) && negative(b) ==> (units(a) < units(b) <==> a > b),
        negative(a) && !negative(b) ==> (units(a) < units(b) <==> !(zero(a) && zero(b))),
        !negative(a) && negative(b) ==> !(units(a) < units(b)),
        units(a) == units(b) <==> a == b || (zero(a) && zero(b)),
{
    let ma = magnitude(a);
    let mb = magnitude(b);
    assert(unit_count(a) == unit_count(ma));
    assert(unit_count(b) == unit_count(mb));
    lemma_unit_count_zero(a);
    lemma_unit_count_zero(b);
    if ma < mb {
        lemma_unit_count_increases(ma, mb);
    } else if mb < ma {
        lemma_unit_count_increases(mb, ma);
    }
}

/// The place of a pattern in the order of values, as an integer read off
/// its bits: the magnitude, negated where the sign bit is set.
pub open spec fn key(bits: u64) -> int {
    if negative(bits) {
        -(magnitude(bits) as int)
    } else {
        magnitude(bits) as int
    }
}

/// Values are ordered as their keys are.
pub proof fn lemma_order_by_key(a: u64, b: u64)
    ensures
        units(a) < units(b) <==> key(a) < key(b),
        units(a) == units(b) <==> key(a) == key(b),
        units(a) <= units(b) <==> key(a) <= key(b),
{
    lemma_units_order(a, b);
    lemma_units_order(b, a);
}

/// Tells whether the pattern is a NaN.
pub fn is_nan(bits: u64) -> (r: bool)
    ensures
        r == nan(bits),
{
    abs(bits) > INFINITY
}

/// Tells whether the pattern is an infinity.
pub fn is_infinite(bits: u64) -> (r: bool)
    ensures
        r == infinite(bits),
{
    abs(bits) == INFINITY
}

/// Tells whether the pattern is a finite number.
pub fn is_finite(bits: u64) -> (r: bool)
    ensures
        r == finite(bits),
{
    abs(bits) < INFINITY
}

/// Tells whether the sign bit is set.
pub fn is_sign_negative(bits: u64) -> (r: bool)
    ensures
        r == negative(bits),
{
    bits >= SIGN_BIT
}

/// Tells whether the pattern is one of the two zeros.
pub fn is_zero(bits: u64) -> (r: bool)
    ensures
        r == zero(bits),
{
    abs(bits) == 0
}

/// The absolute value: the pattern with its sign bit cleared.
pub fn abs(bits: u64) -> (r: u64)
    ensures
        r == magnitude(bits),
        !negative(r),
        units(r) == unit_count(bits),
{
    if bits >= SIGN_BIT {
        bits - SIGN_BIT
    } else {
        bits
    }
}

/// The negation: the pattern with its sign bit flipped.
pub fn neg(bits: u64) -> (r: u64)
    ensures
        r == negated(bits),
        magnitude(r) == magnitude(bits),
        negative(r) == !negative(bits),
        units(r) == -units(bits),
{
    if bits >= SIGN_BIT {
        bits - SIGN_BIT
    } else {
        bits + SIGN_BIT
    }
}

/// `a == b` as binary64 values.
pub fn equal(a: u64, b: u64) -> (r: bool)
    ensures
        r == eq(a, b),
{
    proof {
        lemma_units_order(a, b);
    }
    if is_nan(a) || is_nan(b) {
        false
    } else {
        a == b || (is_zero(a) && is_zero(b))
    }
}

/// `a < b` as binary64 values.
pub fn less(a: u64, b: u64) -> (r: bool)
    ensures
        r == lt(a, b),
{
    proof {
        lemma_units_order(a, b);
    }
    if is_nan(a) || is_nan(b) {
        false
    } else if a >= SIGN_BIT {
        if b >= SIGN_BIT {
            a > b
        } else {
            !(is_zero(a) && is_zero(b))
        }
    } else {
        b < SIGN_BIT && a < b
    }
}

/// `a <= b` as binary64 values.
pub fn less_equal(a: u64, b: u64) -> (r: bool)
    ensures
        r == le(a, b),
{
    less(a, b) || equal(a, b)
}

/// `a > b` as binary64 values.
pub fn greater(a: u64, b: u64) -> (r: bool)
    ensures
        r == lt(b, a),
{
    less(b, a)
}

/// `a >= b` as binary64 values.
pub fn greater_equal(a: u64, b: u64) -> (r: bool)
    ensures
        r == le(b, a),
{
    less_equal(b, a)
}

/// A common factor leaves a quotient as it is, and a remainder zero or not as it is.
proof fn lemma_div_common_factor(s: int, d: int, p: int)
    requires
        0 <= s,
        0 < d,
        0 < p,
    ensures
        0 < d * p,
        (s * p) / (d * p) == s / d,
        (s * p) % (d * p) == (s % d) * p,
        (s * p) % (d * p) == 0 <==> s % d == 0,
{
    let q = s / d;
    let r = s % d;
    lemma_fundamental_div_mod(s, d);
    assert(0 < d * p) by (nonlinear_arith)
        requires
            0 < d,
            0 < p,
    ;
    assert(s * p == q * (d * p) + r * p) by (nonlinear_arith)
        requires
            s == d * q + r,
    ;
    assert(0 <= r * p < d * p) by (nonlinear_arith)
        requires
            0 <= r < d,
            0 < p,
    ;
    lemma_fundamental_div_mod_converse(s * p, d * p, q, r * p);
    assert(r * p == 0 <==> r == 0) by (nonlinear_arith)
        requires
            0 < p,
            0 <= r,
    ;
}

/// The floor of a negated count: one further down unless the count is a multiple.
proof fn lemma_floor_of_negated(x: int, d: int)
    requires
        0 <= x,
        0 < d,
    ensures
        (-x) / d == if x % d == 0 {
            -(x / d)
        } else {
            -(x / d) - 1
        },
        (-x) % d == 0 <==> x % d == 0,
{
    let q = x / d;
    let r = x % d;
    lemma_fundamental_div_mod(x, d);
    if r == 0 {
        assert(-x == (-q) * d + 0) by (nonlinear_arith)
            requires
                x == d * q + r,
                r == 0,
        ;
        lemma_fundamental_div_mod_converse(-x, d, -q, 0);
    } else {
        assert(-x == (-q - 1) * d + (d - r)) by (nonlinear_arith)
            requires
                x == d * q + r,
        ;
        lemma_fundamental_div_mod_converse(-x, d, -q - 1, d - r);
    }
}

/// A pattern below `1.0` counts fewer units than one.
proof fn lemma_below_one(bits: u64)
    requires
        magnitude(bits) < EXPONENT_BIAS * FRACTION_SPAN,
    ensures
        unit_count(bits) < one_in_units(),
{
    let e = exponent_field(bits);
    let f = fraction_field(bits);
    lemma2_to64_rest();
    assert(e < 1023);
    if e == 0 {
        lemma_pow2_strictly_increases(52, 1074);
    } else {
        let p = pow2((e - 1) as nat);
        lemma_pow2_pos((e - 1) as nat);
        lemma_pow2_adds(53, (e - 1) as nat);
        if 53 + (e - 1) < 1074 {
            lemma_pow2_strictly_increases((53 + (e - 1)) as nat, 1074);
        }
        assert((FRACTION_SPAN + f) * p < pow2(53) * p) by (nonlinear_arith)
            requires
                FRACTION_SPAN + f < pow2(53),
                p > 0,
        ;
    }
}

/// From `1.0` up to `2^52`, the whole part of a value is its significand
/// without the low bits that the exponent field leaves below the point.
proof fn lemma_whole_part(bits: u64)
    requires
        EXPONENT_BIAS * FRACTION_SPAN <= magnitude(bits) < WHOLE_FROM,
    ensures
        1023 <= exponent_field(bits) < 1075,
        pow2((1075 - exponent_field(bits)) as nat) > 0,
        unit_count(bits) / one_in_units() == (FRACTION_SPAN + fraction_field(bits)) as int / (pow2(
            (1075 - exponent_field(bits)) as nat,
        ) as int),
        unit_count(bits) % one_in_units() == 0 <==> (FRACTION_SPAN + fraction_field(bits)) as int
            % (pow2((1075 - exponent_field(bits)) as nat) as int) == 0,
{
    let e = exponent_field(bits);
    let f = fraction_field(bits);
    assert(1023 <= e < 1075);
    let drop = (1075 - e) as nat;
    let p = pow2((e - 1) as nat);
    let d = pow2(drop);
    lemma_pow2_pos((e - 1) as nat);
    lemma_pow2_pos(drop);
    lemma_pow2_adds(drop, (e - 1) as nat);
    assert(drop + (e - 1) as nat == 1074);
    lemma_div_common_factor((FRACTION_SPAN + f) as int, d as int, p as int);
}

/// A pattern from `1.0` up to `2^52` whose significand is a whole number of
/// `count`s at its exponent has the value `count`.
pub proof fn lemma_whole_units(bits: u64, count: nat)
    requires
        EXPONENT_BIAS * FRACTION_SPAN <= magnitude(bits) <= WHOLE_FROM,
        FRACTION_SPAN + fraction_field(bits) == count * pow2((1075 - exponent_field(bits)) as nat),
    ensures
        unit_count(bits) == count * one_in_units(),
{
    let e = exponent_field(bits);
    assert(1023 <= e <= 1075);
    let drop = (1075 - e) as nat;
    lemma_pow2_adds(drop, (e - 1) as nat);
    assert(drop + (e - 1) as nat == 1074);
    assert(count * pow2(drop) * pow2((e - 1) as nat) == count * (pow2(drop) * pow2((e - 1) as nat)))
        by (nonlinear_arith);
}

/// A count of units is below a whole number of ones exactly when its floor is.
pub proof fn lemma_floor_below(x: int, n: int)
    ensures
        x / (one_in_units() as int) < n <==> x < n * one_in_units(),
{
    let u = one_in_units() as int;
    lemma_pow2_pos(1074);
    lemma_fundamental_div_mod(x, u);
    let q = x / u;
    let r = x % u;
    assert(q < n ==> u * q + r < n * u) by (nonlinear_arith)
        requires
            0 <= r < u,
    ;
    assert(q >= n ==> u * q + r >= n * u) by (nonlinear_arith)
        requires
            0 <= r < u,
    ;
}

/// A value of `n` ones has the floor `n` and is whole.
pub proof fn lemma_floor_of_whole(bits: u64, n: int)
    requires
        units(bits) == n * one_in_units(),
    ensures
        floor(bits) == n,
        whole(bits),
{
    lemma_pow2_pos(1074);
    lemma_fundamental_div_mod_converse(units(bits), one_in_units() as int, n, 0);
}

/// The largest whole number that is not above the value, where the value
/// lies strictly between `-2^52` and `2^52`.
pub fn floor_i64(bits: u64) -> (r: Option<i64>)
    ensures
        r is Some <==> magnitude(bits) < WHOLE_FROM,
        r is Some ==> r->0 == floor(bits),
        r is Some ==> -0x0010_0000_0000_0000 <= r->0 < 0x0010_0000_0000_0000,
{
    let m: u64 = abs(bits);
    if m >= WHOLE_FROM {
        return None;
    }
    let e: u64 = m / FRACTION_SPAN;
    let f: u64 = m % FRACTION_SPAN;
    let mut count: u64 = 0;
    let mut part: bool = m != 0;
    if e >= EXPONENT_BIAS {
        let drop: u64 = 1075 - e;
        let significand: u64 = FRACTION_SPAN + f;
        proof {
            lemma_whole_part(bits);
            lemma2_to64();
            lemma2_to64_rest();
            lemma_pow2_pos(drop as nat);
            if drop < 52 {
                lemma_pow2_strictly_increases(drop as nat, 52);
            }
            lemma_pow2_strictly_increases(0, drop as nat);
            lemma_u64_shl_is_mul(1, drop);
        }
        let divisor: u64 = 1u64 << drop;
        assert(divisor == pow2(drop as nat) && divisor >= 2);
        count = significand / divisor;
        part = significand % divisor != 0;
        assert(count < FRACTION_SPAN) by (nonlinear_arith)
            requires
                count == significand / divisor,
                significand < 2 * FRACTION_SPAN,
                divisor >= 2,
        ;
    } else {
        proof {
            lemma_below_one(bits);
            lemma_unit_count_zero(bits);
            lemma_basic_div(unit_count(bits) as int, one_in_units() as int);
            lemma_small_mod(unit_count(bits), one_in_units());
        }
    }
    proof {
        lemma_pow2_pos(1074);
        lemma_floor_of_negated(unit_count(bits) as int, one_in_units() as int);
        assert(count == unit_count(bits) / one_in_units());
        assert(part <==> unit_count(bits) % one_in_units() != 0);
    }
    if bits >= SIGN_BIT {
        if part {
            Some(-(count as i64) - 1)
        } else {
            Some(-(count as i64))
        }
    } else {
        Some(count as i64)
    }
}

/// From `2^52` on, a value is its significand times a power of two.
proof fn lemma_large_whole(bits: u64)
    requires
        WHOLE_FROM <= magnitude(bits),
    ensures
        exponent_field(bits) >= 1075,
        whole(bits),
        whole_part(bits) == (FRACTION_SPAN + fraction_field(bits)) * pow2(
            (exponent_field(bits) - 1075) as nat,
        ),
{
    let e = exponent_field(bits);
    let significand = (FRACTION_SPAN + fraction_field(bits)) as int;
    assert(e >= 1075);
    let k = (e - 1075) as nat;
    let u = one_in_units() as int;
    lemma_pow2_pos(1074);
    lemma_pow2_pos(k);
    lemma_pow2_adds(k, 1074);
    assert(k + 1074 == (e - 1) as nat);
    let times = significand * pow2(k);
    assert(unit_count(bits) == times * u) by (nonlinear_arith)
        requires
            unit_count(bits) == significand * (pow2(k) * u),
            times == significand * pow2(k),
    ;
    assert(times >= 0) by (nonlinear_arith)
        requires
            times == significand * pow2(k),
            significand >= 0,
    ;
    lemma_fundamental_div_mod_converse(unit_count(bits) as int, u, times, 0);
    lemma_floor_of_negated(unit_count(bits) as int, u);
}

/// A one that is shifted up is a power of two.
pub proof fn lemma_shift_is_power(shift: u64)
    requires
        shift <= 53,
    ensures
        1u64 << shift == pow2(shift as nat),
{
    lemma2_to64();
    lemma2_to64_rest();
    if shift < 53 {
        lemma_pow2_strictly_increases(shift as nat, 53);
    }
    lemma_u64_shl_is_mul(1, shift);
}

/// From `2^52` on, a value is a whole number.
pub proof fn lemma_large_whole_is_whole(bits: u64)
    requires
        WHOLE_FROM <= magnitude(bits),
    ensures
        whole(bits),
{
    lemma_large_whole(bits);
}

/// Whether the value is a finite whole number.
pub fn is_whole(bits: u64) -> (r: bool)
    ensures
        r == (finite(bits) && whole(bits)),
{
    if !is_finite(bits) {
        return false;
    }
    let up: Option<i64> = floor_i64(bits);
    let down: Option<i64> = floor_i64(neg(bits));
    match (up, down) {
        (Some(a), Some(b)) => {
            proof {
                lemma_pow2_pos(1074);
                lemma_floor_of_negated(unit_count(bits) as int, one_in_units() as int);
                lemma_fundamental_div_mod(unit_count(bits) as int, one_in_units() as int);
            }
            a + b == 0
        },
        _ => {
            proof {
                lemma_large_whole(bits);
            }
            true
        },
    }
}

/// The whole part of the absolute value of a finite number, modulo `modulus`.
pub fn whole_part_mod(bits: u64, modulus: u32) -> (r: u32)
    requires
        finite(bits),
        modulus > 0,
    ensures
        r == whole_part(bits) % (modulus as nat),
{
    let m: u64 = abs(bits);
    let by: u64 = modulus as u64;
    match floor_i64(m) {
        Some(k) => {
            assert(k == whole_part(bits));
            ((k as u64) % by) as u32
        },
        None => {
            let e: u64 = m / FRACTION_SPAN;
            let significand: u64 = FRACTION_SPAN + m % FRACTION_SPAN;
            let shift: u64 = e - 1075;
            let mut power: u64 = 1 % by;
            let mut i: u64 = 0;
            proof {
                lemma2_to64();
                lemma_large_whole(bits);
            }
            while i < shift
                invariant
                    i <= shift,
                    by == modulus,
                    0 < by < 0x1_0000_0000,
                    power == pow2(i as nat) % (by as nat),
                decreases shift - i,
            {
                proof {
                    lemma_pow2_unfold((i + 1) as nat);
                    lemma_mul_mod_noop_general(pow2(i as nat) as int, 2, by as int);
                    assert(pow2((i + 1) as nat) == pow2(i as nat) * 2);
                }
                power = (power * 2) % by;
                i = i + 1;
            }
            proof {
                lemma_mul_mod_noop_general(
                    significand as int,
                    pow2(shift as nat) as int,
                    by as int,
                );
            }
            assert((significand % by) * power < 0x1_0000_0000 * 0x1_0000_0000) by (nonlinear_arith)
                requires
                    significand % by < 0x1_0000_0000,
                    power < 0x1_0000_0000,
            ;
            (((significand % by) * power) % by) as u32
        },
    }
}

/// The whole part of an absolute value is below a whole number exactly when
/// the absolute value is.
pub proof fn lemma_whole_part_bounds(bits: u64, n: int)
    ensures
        whole_part(bits) < n <==> unit_count(bits) < n * one_in_units(),
{
    lemma_floor_below(unit_count(bits) as int, n);
}

/// The whole part of the value with its sign, held within the range of a
/// 32-bit integer; zero for a NaN.
pub open spec fn truncated_i32(bits: u64) -> int {
    if nan(bits) {
        0
    } else if negative(bits) {
        if whole_part(bits) >= 0x8000_0000 {
            -0x8000_0000
        } else {
            -(whole_part(bits) as int)
        }
    } else {
        if whole_part(bits) >= 0x7fff_ffff {
            0x7fff_ffff
        } else {
            whole_part(bits) as int
        }
    }
}

/// The value as a 32-bit integer: its whole part, the nearest bound of the
/// range for a value beyond it, and zero for a NaN.
pub fn to_i32(bits: u64) -> (r: i32)
    ensures
        r == truncated_i32(bits),
{
    if is_nan(bits) {
        return 0;
    }
    let m: u64 = abs(bits);
    match floor_i64(m) {
        Some(k) => {
            assert(k == whole_part(bits));
            if bits >= SIGN_BIT {
                if k >= 0x8000_0000 {
                    i32::MIN
                } else {
                    (-k) as i32
                }
            } else {
                if k >= 0x7fff_ffff {
                    i32::MAX
                } else {
                    k as i32
                }
            }
        },
        None => {
            proof {
                lemma2_to64();
                lemma_large_whole(bits);
                lemma_pow2_pos((exponent_field(bits) - 1075) as nat);
                assert(whole_part(bits) >= FRACTION_SPAN) by (nonlinear_arith)
                    requires
                        whole_part(bits) == (FRACTION_SPAN + fraction_field(bits)) * pow2(
                            (exponent_field(bits) - 1075) as nat,
                        ),
                        pow2((exponent_field(bits) - 1075) as nat) >= 1,
                ;
            }
            if bits >= SIGN_BIT {
                i32::MIN
            } else {
                i32::MAX
            }
        },
    }
}

/// The whole part of the value, held within the range of an unsigned 32-bit
/// integer; zero for a NaN and for a value below zero.
pub open spec fn truncated_u32(bits: u64) -> int {
    if nan(bits) || negative(bits) {
        0
    } else if whole_part(bits) >= 0xffff_ffff {
        0xffff_ffff
    } else {
        whole_part(bits) as int
    }
}

/// The value as an unsigned 32-bit integer: its whole part, the upper bound
/// of the range for a value beyond it, and zero for a NaN and for a value
/// below zero.
pub fn to_u32(bits: u64) -> (r: u32)
    ensures
        r == truncated_u32(bits),
{
    if is_nan(bits) || bits >= SIGN_BIT {
        return 0;
    }
    match floor_i64(bits) {
        Some(k) => {
            assert(k == whole_part(bits));
            if k >= 0xffff_ffff {
                u32::MAX
            } else {
                k as u32
            }
        },
        None => {
            proof {
                lemma2_to64();
                lemma_large_whole(bits);
                lemma_pow2_pos((exponent_field(bits) - 1075) as nat);
                assert(whole_part(bits) >= FRACTION_SPAN) by (nonlinear_arith)
                    requires
                        whole_part(bits) == (FRACTION_SPAN + fraction_field(bits)) * pow2(
                            (exponent_field(bits) - 1075) as nat,
                        ),
                        pow2((exponent_field(bits) - 1075) as nat) >= 1,
                ;
            }
            u32::MAX
        },
    }
}

/// Whether the value is a number below the whole number `n`.
pub fn below_whole(bits: u64, n: u32) -> (r: bool)
    ensures
        r == (!nan(bits) && units(bits) < n * one_in_units()),
{
    proof {
        lemma_pow2_pos(1074);
        lemma_unit_count_zero(bits);
        assert(n > 0 ==> n * one_in_units() > 0) by (nonlinear_arith)
            requires
                one_in_units() > 0,
        ;
    }
    if is_nan(bits) {
        false
    } else if bits >= SIGN_BIT {
        n > 0 || !is_zero(bits)
    } else {
        match floor_i64(bits) {
            Some(k) => {
                proof {
                    lemma_floor_below(units(bits), n as int);
                }
                k < n as i64
            },
            None => {
                proof {
                    lemma2_to64();
                    assert(exponent_field(WHOLE_FROM) == 1075 && fraction_field(WHOLE_FROM) == 0);
                    lemma_whole_units(WHOLE_FROM, FRACTION_SPAN as nat);
                    if bits > WHOLE_FROM {
                        lemma_unit_count_increases(WHOLE_FROM, bits);
                    }
                    assert(n * one_in_units() < FRACTION_SPAN * one_in_units()) by (nonlinear_arith)
                        requires
                            n < FRACTION_SPAN,
                            one_in_units() > 0,
                    ;
                }
                false
            },
        }
    }
}

} // verus!
