//! The order against the numbers that decimals stand for.
//!
//! A decimal in normal form with a whole exponent `n` stands for its
//! mantissa times `10^n`. Two such numbers are compared by bringing both to
//! the smaller exponent, which leaves whole powers of ten. The order of
//! decimals is the order of those numbers.

use vstd::prelude::*;
use vstd::arithmetic::power2::lemma_pow2_pos;
use crate::binary64::{lemma_unit_count_zero, lemma_units_order, one_in_units, units};
use crate::decimal::{lemma_normal_mantissa_finite, Decimal};

verus! {

/// Ten to the power of `k`, and one for a `k` below zero.
pub open spec fn power_of_ten(k: int) -> int
    decreases k,
{
    if k <= 0 {
        1
    } else {
        10 * power_of_ten(k - 1)
    }
}

/// The number `d * 10^-base` in units of `2^-1074`, where `n` is the whole
/// exponent of `d` and `base` is not above it.
pub open spec fn scaled_to(d: Decimal, n: int, base: int) -> int {
    units(d.mantissa) * power_of_ten(n - base)
}

/// A power of ten is at least one, and at least ten from the first power on.
pub proof fn lemma_power_of_ten(k: int)
    ensures
        power_of_ten(k) >= 1,
        k >= 1 ==> power_of_ten(k) >= 10,
    decreases k,
{
    if k > 0 {
        lemma_power_of_ten(k - 1);
    }
}

/// The order of decimals is the order of the numbers that they stand for:
/// of two decimals in normal form with whole exponents, one is less than,
/// equal to or greater than the other exactly when its number is.
pub proof fn law_order_is_numeric(x: Decimal, nx: int, y: Decimal, ny: int)
    requires
        x.normal(),
        y.normal(),
        !x.unordered(),
        !y.unordered(),
        units(x.exponent) == nx * one_in_units(),
        units(y.exponent) == ny * one_in_units(),
    ensures
        ({
            let base = if nx <= ny {
                nx
            } else {
                ny
            };
            &&& x.below(&y) <==> scaled_to(x, nx, base) < scaled_to(y, ny, base)
            &&& x.same_value(&y) <==> scaled_to(x, nx, base) == scaled_to(y, ny, base)
            &&& x.above(&y) <==> scaled_to(x, nx, base) > scaled_to(y, ny, base)
        }),
{
    let u = one_in_units() as int;
    let a = units(x.mantissa);
    let b = units(y.mantissa);
    let base = if nx <= ny {
        nx
    } else {
        ny
    };
    let px = power_of_ten(nx - base);
    let py = power_of_ten(ny - base);
    lemma_pow2_pos(1074);
    lemma_power_of_ten(nx - base);
    lemma_power_of_ten(ny - base);
    lemma_unit_count_zero(x.mantissa);
    lemma_unit_count_zero(y.mantissa);
    lemma_unit_count_zero(x.exponent);
    lemma_unit_count_zero(y.exponent);
    lemma_units_order(x.mantissa, y.mantissa);
    lemma_units_order(x.exponent, y.exponent);
    lemma_normal_mantissa_finite(x);
    lemma_normal_mantissa_finite(y);
    assert(nx < ny <==> nx * u < ny * u) by (nonlinear_arith)
        requires
            u > 0,
    ;
    assert(nx == ny <==> nx * u == ny * u) by (nonlinear_arith)
        requires
            u > 0,
    ;
    assert(a == 0 ==> nx == 0) by (nonlinear_arith)
        requires
            a == 0 ==> nx * u == 0,
            u > 0,
    ;
    assert(b == 0 ==> ny == 0) by (nonlinear_arith)
        requires
            b == 0 ==> ny * u == 0,
            u > 0,
    ;
    if nx == ny {
        assert(a * px == a && b * py == b) by (nonlinear_arith)
            requires
                px == 1,
                py == 1,
        ;
    } else if nx > ny {
        assert(b * py == b) by (nonlinear_arith)
            requires
                py == 1,
        ;
        assert(a >= u ==> a * px >= 10 * u) by (nonlinear_arith)
            requires
                px >= 10,
                u > 0,
        ;
        assert(a <= -u ==> a * px <= -10 * u) by (nonlinear_arith)
            requires
                px >= 10,
                u > 0,
        ;
        assert(a == 0 ==> a * px == 0) by (nonlinear_arith);
    } else {
        assert(a * px == a) by (nonlinear_arith)
            requires
                px == 1,
        ;
        assert(b >= u ==> b * py >= 10 * u) by (nonlinear_arith)
            requires
                py >= 10,
                u > 0,
        ;
        assert(b <= -u ==> b * py <= -10 * u) by (nonlinear_arith)
            requires
                py >= 10,
                u > 0,
        ;
        assert(b == 0 ==> b * py == 0) by (nonlinear_arith);
    }
}

} // verus!
