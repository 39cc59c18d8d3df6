use break_infinity_extended::binary64::{
    abs, below_whole, equal, floor_i64, greater, greater_equal, is_finite, is_infinite, is_nan,
    is_sign_negative, is_whole, is_zero, less, less_equal, neg, to_i32, to_u32, whole_part_mod,
    INFINITY,
    NAN, NEG_INFINITY, SIGN_BIT, WHOLE_FROM,
};

fn samples() -> Vec<f64> {
    let positive = [
        0.0,
        5e-324,
        1e-310,
        f64::MIN_POSITIVE,
        1e-9,
        0.1,
        0.5,
        0.9999999999999999,
        1.0,
        1.0000000000000002,
        1.5,
        2.0,
        2.5,
        3.0,
        9.999999999999998,
        10.0,
        16.999999999999996,
        17.0,
        21.0,
        153.99999999999997,
        154.0,
        308.0,
        324.0,
        1e15,
        4294967295.0,
        4294967296.0,
        4503599627370495.5,
        4503599627370496.0,
        9007199254740991.0,
        1e22,
        1.79e308,
        f64::MAX,
        f64::INFINITY,
    ];
    let mut all = Vec::new();
    for x in positive {
        all.push(x);
        all.push(-x);
    }
    all.push(f64::NAN);
    all.push(-f64::NAN);
    all.push(f64::from_bits(0x7ff0_0000_0000_0001));
    all
}

#[test]
fn constants_are_the_patterns_of_their_values() {
    assert_eq!(SIGN_BIT, (-0.0f64).to_bits());
    assert_eq!(INFINITY, f64::INFINITY.to_bits());
    assert_eq!(NEG_INFINITY, f64::NEG_INFINITY.to_bits());
    assert_eq!(NAN, f64::NAN.to_bits());
    assert_eq!(WHOLE_FROM, 4503599627370496.0f64.to_bits());
}

#[test]
fn classification_matches_the_native_one() {
    for x in samples() {
        let bits = x.to_bits();
        assert_eq!(is_nan(bits), x.is_nan(), "is_nan of {x:?}");
        assert_eq!(is_infinite(bits), x.is_infinite(), "is_infinite of {x:?}");
        assert_eq!(is_finite(bits), x.is_finite(), "is_finite of {x:?}");
        assert_eq!(is_sign_negative(bits), x.is_sign_negative(), "sign of {x:?}");
        assert_eq!(is_zero(bits), x == 0.0, "is_zero of {x:?}");
    }
}

#[test]
fn comparisons_match_the_native_ones() {
    for a in samples() {
        for b in samples() {
            let (x, y) = (a.to_bits(), b.to_bits());
            assert_eq!(equal(x, y), a == b, "{a:?} == {b:?}");
            assert_eq!(less(x, y), a < b, "{a:?} < {b:?}");
            assert_eq!(less_equal(x, y), a <= b, "{a:?} <= {b:?}");
            assert_eq!(greater(x, y), a > b, "{a:?} > {b:?}");
            assert_eq!(greater_equal(x, y), a >= b, "{a:?} >= {b:?}");
        }
    }
}

#[test]
fn sign_changes_match_the_native_ones() {
    for x in samples() {
        assert_eq!(abs(x.to_bits()), x.abs().to_bits(), "abs of {x:?}");
        assert_eq!(neg(x.to_bits()), (-x).to_bits(), "neg of {x:?}");
    }
}

#[test]
fn floor_matches_the_native_one_below_two_to_the_52() {
    for x in samples() {
        let expected = if x.abs() < 4503599627370496.0 {
            Some(x.floor() as i64)
        } else {
            None
        };
        assert_eq!(floor_i64(x.to_bits()), expected, "floor of {x:?}");
    }
}

#[test]
fn floor_of_chosen_values() {
    assert_eq!(floor_i64(2.5f64.to_bits()), Some(2));
    assert_eq!(floor_i64((-2.5f64).to_bits()), Some(-3));
    assert_eq!(floor_i64((-2.0f64).to_bits()), Some(-2));
    assert_eq!(floor_i64((-0.0f64).to_bits()), Some(0));
    assert_eq!(floor_i64((-5e-324f64).to_bits()), Some(-1));
    assert_eq!(floor_i64(0.9999999999999999f64.to_bits()), Some(0));
    assert_eq!(
        floor_i64(4503599627370495.5f64.to_bits()),
        Some(4503599627370495)
    );
    assert_eq!(
        floor_i64((-4503599627370495.5f64).to_bits()),
        Some(-4503599627370496)
    );
    assert_eq!(floor_i64(4503599627370496.0f64.to_bits()), None);
    assert_eq!(floor_i64(f64::NAN.to_bits()), None);
}

#[test]
fn comparison_with_whole_numbers_matches_the_native_one() {
    for x in samples() {
        for n in [0u32, 1, 2, 3, 17, 21, 154, 4294967295] {
            assert_eq!(below_whole(x.to_bits(), n), x < n as f64, "{x:?} < {n}");
        }
    }
}

#[test]
fn whole_numbers_are_told_as_the_native_fraction_tells() {
    for x in samples() {
        let expected = x.is_finite() && x.fract() == 0.0;
        assert_eq!(is_whole(x.to_bits()), expected, "{x:?}");
    }
    assert!(is_whole(6.0f64.to_bits()));
    assert!(is_whole((-0.0f64).to_bits()));
    assert!(is_whole(1e300f64.to_bits()));
    assert!(!is_whole(6.5f64.to_bits()));
    assert!(!is_whole(f64::INFINITY.to_bits()));
}

#[test]
fn the_whole_part_modulo_matches_the_native_remainder() {
    for x in samples() {
        if !x.is_finite() {
            continue;
        }
        for modulus in [1u32, 2, 3, 7, 10, 1000, 4294967295] {
            let expected = (x.abs().floor() % modulus as f64) as u32;
            assert_eq!(whole_part_mod(x.to_bits(), modulus), expected, "{x:?} mod {modulus}");
        }
    }
    assert_eq!(whole_part_mod(7.9f64.to_bits(), 3), 1);
    assert_eq!(whole_part_mod((-7.9f64).to_bits(), 3), 1);
    assert_eq!(whole_part_mod(1e22f64.to_bits(), 3), 1);
    assert_eq!(whole_part_mod(1e22f64.to_bits(), 7), 4);
    assert_eq!(whole_part_mod(9007199254740993.0f64.to_bits(), 2), 0);
    assert_eq!(whole_part_mod(9007199254740991.0f64.to_bits(), 2), 1);
}

/// A stream of patterns from a linear congruential generator: every kind of
/// pattern comes up, far more of them than any list of samples holds.
fn patterns(count: usize) -> Vec<u64> {
    let mut state: u64 = 0x9e37_79b9_7f4a_7c15;
    let mut all = Vec::with_capacity(count);
    for i in 0..count {
        state = state
            .wrapping_mul(6364136223846793005)
            .wrapping_add(1442695040888963407);
        let mut bits = state ^ (state >> 29);
        // Every fourth pattern is moved to small exponents, where whole numbers live.
        if i % 4 == 0 {
            let exponent = 1000 + (bits >> 52) % 90;
            bits = (bits & 0x800f_ffff_ffff_ffff) | (exponent << 52);
        }
        all.push(bits);
    }
    all
}

#[test]
fn comparisons_match_the_native_ones_on_many_patterns() {
    let all = patterns(20000);
    for pair in all.chunks(2) {
        let (x, y) = (pair[0], pair[1]);
        let (a, b) = (f64::from_bits(x), f64::from_bits(y));
        assert_eq!(equal(x, y), a == b, "{a:?} == {b:?}");
        assert_eq!(less(x, y), a < b, "{a:?} < {b:?}");
        assert_eq!(less_equal(x, y), a <= b, "{a:?} <= {b:?}");
        assert_eq!(greater(x, y), a > b, "{a:?} > {b:?}");
        assert_eq!(greater_equal(x, y), a >= b, "{a:?} >= {b:?}");
        assert_eq!(equal(x, x), !a.is_nan());
    }
}

#[test]
fn whole_parts_match_the_native_ones_on_many_patterns() {
    for bits in patterns(20000) {
        let x = f64::from_bits(bits);
        assert_eq!(is_nan(bits), x.is_nan());
        assert_eq!(is_finite(bits), x.is_finite());
        assert_eq!(is_whole(bits), x.is_finite() && x.fract() == 0.0, "{x:?}");
        let floor = if x.abs() < 4503599627370496.0 {
            Some(x.floor() as i64)
        } else {
            None
        };
        assert_eq!(floor_i64(bits), floor, "{x:?}");
        if x.is_finite() {
            for modulus in [2u32, 3, 1000] {
                let expected = (x.abs().floor() % modulus as f64) as u32;
                assert_eq!(whole_part_mod(bits, modulus), expected, "{x:?} mod {modulus}");
            }
        }
        for n in [0u32, 1, 1000, 4294967295] {
            assert_eq!(below_whole(bits, n), x < n as f64, "{x:?} < {n}");
        }
    }
}

#[test]
fn the_cast_to_a_32_bit_integer_matches_the_native_one() {
    for x in samples() {
        assert_eq!(to_i32(x.to_bits()), x as i32, "{x:?}");
    }
    for bits in patterns(20000) {
        let x = f64::from_bits(bits);
        assert_eq!(to_i32(bits), x as i32, "{x:?}");
    }
    for x in [2147483646.5, 2147483647.0, 2147483647.5, 2147483648.0, -2147483648.0, -2147483648.5, -2147483649.0, 1e10, -1e10] {
        assert_eq!(to_i32(f64::to_bits(x)), x as i32, "{x:?}");
    }
    assert_eq!(to_i32(f64::NAN.to_bits()), 0);
    assert_eq!(to_i32(f64::INFINITY.to_bits()), i32::MAX);
    assert_eq!(to_i32(f64::NEG_INFINITY.to_bits()), i32::MIN);
    assert_eq!(to_i32((-7.9f64).to_bits()), -7);
}

#[test]
fn the_cast_to_an_unsigned_32_bit_integer_matches_the_native_one() {
    for x in samples() {
        assert_eq!(to_u32(x.to_bits()), x as u32, "{x:?}");
    }
    for bits in patterns(20000) {
        let x = f64::from_bits(bits);
        assert_eq!(to_u32(bits), x as u32, "{x:?}");
    }
    for x in [4294967294.5, 4294967295.0, 4294967295.5, 4294967296.0, -1.0, -0.5, 1e10] {
        assert_eq!(to_u32(f64::to_bits(x)), x as u32, "{x:?}");
    }
    assert_eq!(to_u32(f64::NAN.to_bits()), 0);
    assert_eq!(to_u32(f64::INFINITY.to_bits()), u32::MAX);
    assert_eq!(to_u32(20.9f64.to_bits()), 20);
}
