//! The exact core at work under a small layer of binary64 arithmetic: numbers
//! are scaled into decimals and their digits are formatted here, everything
//! else is the library's.

use break_infinity_extended::{
    from_mantissa_exponent_no_normalize, scaled_text, scientific_text, Decimal, Notation, Scaling,
};

fn raw(mantissa: f64, exponent: f64) -> Decimal {
    from_mantissa_exponent_no_normalize(mantissa.to_bits(), exponent.to_bits())
}

fn mantissa(d: &Decimal) -> f64 {
    f64::from_bits(d.mantissa)
}

fn exponent(d: &Decimal) -> f64 {
    f64::from_bits(d.exponent)
}

fn power_of_10(power: i32) -> f64 {
    assert!((-324..=308).contains(&power));
    10.0_f64.powi(power)
}

fn normalize(mantissa: f64, exponent: f64) -> Decimal {
    if let Some(d) = raw(mantissa, exponent).normalize_exact() {
        return d;
    }
    let scale = mantissa.abs().log10().floor();
    let scaled = match break_infinity_extended::normalize_scaling(scale.to_bits()) {
        Scaling::Minimal => mantissa * 10.0 / 1e-323,
        Scaling::ByPower(power) => mantissa / power_of_10(power),
    };
    raw(scaled, exponent + scale)
}

fn new(value: f64) -> Decimal {
    if let Some(d) = Decimal::new_exact(value.to_bits()) {
        return d;
    }
    let exponent = value.abs().log10().floor();
    let mantissa = match break_infinity_extended::new_scaling(exponent.to_bits()) {
        Scaling::Minimal => value * 10.0 / 1e-323,
        Scaling::ByPower(power) => {
            ((value / power_of_10(power)) * 1_000_000_000_000_000.0).round()
                / 1_000_000_000_000_000.0
        }
    };
    normalize(mantissa, exponent)
}

fn to_number(d: &Decimal) -> f64 {
    if let Some(bits) = d.to_number_exact() {
        return f64::from_bits(bits);
    }
    let product = mantissa(d) * power_of_10(d.to_number_power());
    f64::from_bits(d.to_number_snapped(product.to_bits()))
}

fn to_exponential(d: &Decimal, places: u32) -> String {
    if let Notation::Token(token) = d.exponential_notation() {
        return token.to_exponential(places);
    }
    let num_digits = mantissa(d).abs().log10().max(1.0) as u32;
    let (shift, decimals) = break_infinity_extended::rounding_shift(places, num_digits);
    let rounded = (mantissa(d) * 10.0_f64.powi(shift)).round() * 10.0_f64.powi(-shift);
    let digits = format!("{:.*}", decimals as usize, rounded);
    let (mantissa_text, carried) = d.exponential_mantissa(digits.as_str(), places);
    let exponent = if carried {
        exponent(d) + 1.0
    } else {
        exponent(d)
    };
    scientific_text(
        mantissa_text.as_str(),
        exponent.to_bits(),
        format!("{}", exponent).as_str(),
    )
}

fn to_fixed(d: &Decimal, places: u32) -> String {
    match d.fixed_notation() {
        Notation::Token(token) => token.to_fixed(places),
        Notation::Padded => d.to_fixed_padded(format!("{}", mantissa(d)).as_str(), places),
        _ => format!("{:.*}", places as usize, to_number(d)),
    }
}

fn to_string(d: &Decimal) -> String {
    match d.display_notation() {
        Notation::Token(token) => String::from(token.text()),
        Notation::Plain => format!("{}", to_number(d)),
        _ => to_exponential(d, 16),
    }
}

fn short(d: &Decimal, places: Option<usize>) -> String {
    match d.short_notation() {
        Notation::Token(token) => String::from(token.text()),
        Notation::Scaled { scale, shift } => {
            let number = mantissa(d) * 10.0_f64.powi(shift);
            let digits = match places {
                Some(places) => format!("{number:.places$}"),
                None => format!("{number}"),
            };
            scaled_text(digits.as_str(), scale)
        }
        _ => to_exponential(d, places.map_or(16, |places| places as u32)),
    }
}

#[test]
fn formatters() {
    assert_eq!(short(&new(1e-10), Some(3)), "1.000e-10");
    assert_eq!(short(&new(1e-9), None), "1 n");
    assert_eq!(short(&new(0.000001), None), "1 µ");
    assert_eq!(short(&new(0.001), None), "1 m");
    assert_eq!(short(&new(1.0), None), "1");
    assert_eq!(short(&new(1000.0), None), "1 k");
    assert_eq!(short(&new(1000000.0), None), "1 M");
    assert_eq!(short(&new(1e9), None), "1 B");
    assert_eq!(short(&new(1e10), Some(1)), "10.0 B");
    assert_eq!(short(&new(1e11), Some(2)), "100.00 B");
    assert_eq!(short(&new(1.23456789e11), Some(3)), "123.457 B");
    assert_eq!(short(&new(1e12), None), "1 T");
    assert_eq!(short(&new(1e15), None), "1 Qa");
    assert_eq!(short(&new(1e153), None), "1 Qq");
    assert_eq!(short(&new(1e154), Some(3)), "1.000e+154");
}

#[test]
fn constants() {
    assert_eq!(Decimal::zero(), new(0.0));
    assert_eq!(Decimal::one(), new(1.0));
    assert_eq!(Decimal::two(), new(2.0));
    assert_eq!(Decimal::ten(), new(10.0));
    assert_eq!(Decimal::neg_one(), new(-1.0));
    assert_eq!(to_number(&Decimal::pi()), std::f64::consts::PI);
    assert_eq!(to_number(&Decimal::tau()), std::f64::consts::TAU);
    assert_eq!(to_number(&Decimal::e()), std::f64::consts::E);
}

#[test]
fn neg_abs() {
    assert_eq!(-new(456.7), raw(-4.567, 2.0));
    assert_eq!(-new(1.23e48), raw(-1.23, 48.0));

    assert_eq!(new(-456.7).abs(), raw(4.567, 2.0));
    assert_eq!(new(-1.23e48).abs(), raw(1.23, 48.0));
}

#[test]
fn decimal() {
    assert_eq!(to_string(&new(0.0)), "0");
    assert_eq!(to_string(&new(f64::NAN)), "NaN");
    assert_eq!(to_string(&new(f64::INFINITY)), "Infinity");
    assert_eq!(to_string(&new(f64::NEG_INFINITY)), "-Infinity");

    assert_eq!(to_string(&new(100.0)), "100");
    assert_eq!(to_string(&new(1e12)), "1000000000000");
    assert_eq!(to_string(&new(1.79e3)), "1790");
    assert_eq!(to_string(&new(1e308)), "1.0000000000000000e+308");

    // The exponent of the values nearest to zero is the lower limit -1.79e308
    // and 1e292 more, which is the binary64 value -1.7899999999999998e308. Its
    // text has these seventeen digits and 292 zeros behind them. The digits
    // 178 and 306 zeros would be the text of -1.78e308, which is another value.
    let exponent = format!("17899999999999998{}", "0".repeat(292));
    assert_eq!(
        to_string(&Decimal::almost_zero()),
        format!("1.0000000000000000e-{exponent}")
    );
    assert_eq!(
        to_string(&Decimal::almost_negative_zero()),
        format!("-1.0000000000000000e-{exponent}")
    );
}

#[test]
fn the_exponential_form_of_a_large_number() {
    assert_eq!(to_exponential(&new(1e308), 16), "1.0000000000000000e+308");
    assert_eq!(to_exponential(&new(0.0), 2), "0.00e+0");
    assert_eq!(to_exponential(&new(0.0), 0), "0e+0");
}

#[test]
fn one_plus_zero_is_one() {
    assert_eq!(new(1.0).add_exact(&new(0.0)), Some(new(1.0)));
    assert_eq!(new(1.0).add_exact(&new(0.0)), Some(Decimal::one()));
    assert_eq!(Decimal::one().add_exact(&Decimal::zero()), Some(new(1.0)));
}

fn from_mantissa_exponent(mantissa: f64, exponent: f64) -> Decimal {
    match break_infinity_extended::from_mantissa_exponent_exact(mantissa.to_bits(), exponent.to_bits())
    {
        Some(d) => d,
        None => normalize(mantissa, exponent),
    }
}

fn add(a: Decimal, b: Decimal) -> Decimal {
    let gap = exponent(&a) - exponent(&b);
    match a.add_plan(&b, gap.to_bits()) {
        break_infinity_extended::Sum::Is(sum) => sum,
        break_infinity_extended::Sum::Of { big, small, shift } => from_mantissa_exponent(
            (1e3 * mantissa(&big)) + (1e3 * mantissa(&small) * power_of_10(shift)),
            exponent(&big) - 3.0,
        ),
    }
}

fn sub(a: Decimal, b: Decimal) -> Decimal {
    add(a, -b)
}

fn mul(a: Decimal, b: Decimal) -> Decimal {
    from_mantissa_exponent(
        mantissa(&a) * mantissa(&b),
        exponent(&a) + exponent(&b),
    )
}

fn div(a: Decimal, b: Decimal) -> Decimal {
    from_mantissa_exponent(
        mantissa(&a) / mantissa(&b),
        exponent(&a) - exponent(&b),
    )
}

fn eq_tolerance(a: &Decimal, b: &Decimal, tolerance: &Decimal) -> bool {
    let bound = mul(*tolerance, a.tolerance_scale(b));
    sub(*a, *b).within_tolerance(&bound)
}

fn neq_tolerance(a: &Decimal, b: &Decimal, tolerance: &Decimal) -> bool {
    !eq_tolerance(a, b, tolerance)
}

#[test]
fn ops() {
    let a = raw(3.224, 54.0);
    let b = raw(1.24, 53.0);
    let c = raw(3.1, 52.0);

    assert_eq!(add(a, b), raw(3.348, 54.0));
    assert_eq!(sub(a, b), raw(3.1, 54.0));
    assert_eq!(mul(a, b), raw(3.9977600000000004, 107.0));
    assert_eq!(div(a, b), raw(2.6, 1.0));

    assert_eq!(add(a, c), raw(3.255, 54.0));
    assert_eq!(sub(a, c), raw(3.193, 54.0));
    assert_eq!(mul(a, c), raw(9.9944, 106.0));
    assert_eq!(div(a, c), raw(1.04, 2.0));

    assert_eq!(add(b, c), raw(1.55, 53.0));
    assert_eq!(sub(b, c), raw(9.3, 52.0));
    assert_eq!(mul(b, c), raw(3.844, 105.0));
    assert_eq!(div(b, c), raw(3.9999999999999996, 0.0));

    assert_eq!(add(new(1.0), new(0.0)), new(1.0));
    assert_eq!(add(new(1.0), new(0.0)), Decimal::one());
    assert_eq!(add(Decimal::one(), Decimal::zero()), new(1.0));
}

#[test]
fn tolerances() {
    let a = new(1.000000001);
    let b = new(1.000000002);
    let t0 = new(0.0);
    let t1 = new(0.000000001);

    assert!(!eq_tolerance(&a, &b, &t0));
    assert!(eq_tolerance(&a, &b, &t1));

    assert!(neq_tolerance(&a, &b, &t0));
    assert!(!neq_tolerance(&a, &b, &t1));

    assert!(a.lt_tolerance(&b, eq_tolerance(&a, &b, &t0)));
    assert!(!a.lt_tolerance(&b, eq_tolerance(&a, &b, &t1)));

    assert!(a.lte_tolerance(&b, eq_tolerance(&a, &b, &t0)));
    assert!(a.lte_tolerance(&b, eq_tolerance(&a, &b, &t1)));

    assert!(b.gt_tolerance(&a, eq_tolerance(&b, &a, &t0)));
    assert!(!b.gt_tolerance(&a, eq_tolerance(&b, &a, &t1)));

    assert!(b.gte_tolerance(&a, eq_tolerance(&b, &a, &t0)));
    assert!(b.gte_tolerance(&a, eq_tolerance(&b, &a, &t1)));
}

#[test]
fn a_value_is_equal_to_itself_within_any_tolerance() {
    for x in [new(1.0), new(456.7), new(-1.23e48), raw(3.224, 54.0), new(0.0)] {
        for tolerance in [new(0.0), new(1e-9), new(1.0), new(1e30)] {
            assert!(eq_tolerance(&x, &x, &tolerance));
        }
    }
}

#[test]
fn a_zero_tolerance_is_equality() {
    let values = [new(1.0), new(456.7), new(-456.7), raw(3.224, 54.0), new(0.0), new(1e-300)];
    for x in values {
        for y in values {
            assert_eq!(eq_tolerance(&x, &y, &new(0.0)), x == y);
        }
    }
}

fn parse(text: &str) -> Decimal {
    match break_infinity_extended::parse_literal(text) {
        break_infinity_extended::Literal::Word(d) => d,
        break_infinity_extended::Literal::Scientific { mantissa, exponent } => {
            from_mantissa_exponent(mantissa.parse().unwrap(), exponent.parse().unwrap())
        }
        break_infinity_extended::Literal::Plain => new(text.parse().unwrap()),
    }
}

fn close(x: &Decimal, y: &Decimal) -> bool {
    exponent(x) == exponent(y) && (mantissa(x) - mantissa(y)).abs() <= 1e-15 * mantissa(y).abs()
}

#[test]
fn the_text_of_a_value_is_read_back() {
    for value in [1e-300, 1e-9, 0.001, 1.0, 100.0, 1790.0, 1e12, 1e20, 1e21, 1e100, 1e308, -2.5e7, -1e-30] {
        let x = new(value);
        let back = parse(to_string(&x).as_str());
        assert!(close(&back, &x), "{value:?}: {back:?} for {x:?}");
    }
    for x in [raw(3.224, 54.0), raw(-9.5, 1e10), raw(1.0000000000000002, -40.0)] {
        let back = parse(to_string(&x).as_str());
        assert!(close(&back, &x), "{back:?} for {x:?}");
    }
    for x in [Decimal::max_value(), Decimal::min_value(), Decimal::zero()] {
        assert_eq!(parse(to_string(&x).as_str()), x);
    }
    assert_eq!(
        parse(to_string(&Decimal::nan()).as_str()).to_bits(),
        Decimal::nan().to_bits()
    );
}

#[test]
fn the_number_of_a_decimal_is_the_product_of_its_fields() {
    assert_eq!(to_number(&raw(4.567, 2.0)), 4.567 * 100.0);
    assert_eq!(to_number(&raw(1.5, 0.0)), 1.5);
    assert_eq!(to_number(&raw(1.5, -1.0)), 1.5 * 0.1);
    assert_eq!(to_number(&raw(-3.0, 5.0)), -300000.0);
    assert_eq!(to_number(&raw(1.0, 12.0)), 1e12);
    // The product is 115.99999999999999, which is taken for 116.
    assert_eq!(to_number(&raw(1.16, 2.0)), 116.0);
    // A mantissa next below one is taken for one.
    assert_eq!(to_number(&raw(0.9999999999999999, 0.0)), 1.0);
    assert_eq!(to_number(&raw(-0.9999999999999999, 0.0)), -1.0);
    assert_eq!(to_number(&raw(0.9999999999999999, -1.0)), 0.9999999999999999 * 0.1);
}

#[test]
fn the_smallest_numbers_become_decimals() {
    let least = new(5e-324);
    assert_eq!(f64::from_bits(least.exponent), -324.0);
    assert!(least.is_normal());
    let next = new(1e-323);
    assert_eq!(f64::from_bits(next.exponent), -323.0);
    assert!(next.is_normal());
    assert_eq!(to_number(&least), 5e-324);
}

#[test]
fn a_whole_number_comes_back_from_its_decimal() {
    assert_eq!(to_number(&new(116.0)), 116.0);
    for value in [
        3.0, 7.0, 10.0, 116.0, 999.0, 1790.0, 12345678.0, 4294967296.0, 1e15, 123456789012345.0,
        9007199254740991.0, -116.0, -12345678.0,
    ] {
        assert_eq!(to_number(&new(value)), value, "{value:?}");
    }
}

#[test]
fn rounding_up_to_ten_raises_the_exponent() {
    assert_eq!(to_exponential(&new(999900.0), 2), "1.00e+6");
    assert_eq!(to_exponential(&new(999900.0), 3), "9.999e+5");
    assert_eq!(to_exponential(&new(999900.0), 0), "1e+6");
    assert_eq!(to_exponential(&new(-999900.0), 2), "-1.00e+6");
    assert_eq!(to_exponential(&raw(9.96, -1.0), 1), "1.0e+0");
    assert_eq!(to_exponential(&raw(9.96, -2.0), 1), "1.0e-1");
    assert_eq!(to_exponential(&raw(9.94, 5.0), 1), "9.9e+5");
}

#[test]
fn a_text_with_a_field_that_is_not_finite_is_not_a_number() {
    for text in ["infe5", "-infe5", "NaNe5", "1einf", "1e-inf", "1eNaN", "infeinf"] {
        assert_eq!(parse(text).to_bits(), Decimal::nan().to_bits(), "{text:?}");
    }
    assert_eq!(parse("1.5e5"), raw(1.5, 5.0));
    assert_eq!(parse("0e5"), Decimal::zero());
}

#[test]
fn the_fixed_form_of_a_large_negative_value() {
    assert_eq!(to_fixed(&raw(-1.5, 20.0), 0), "-150000000000000000000");
    assert_eq!(to_fixed(&raw(1.5, 20.0), 2), "150000000000000000000.00");
    assert_eq!(to_fixed(&raw(1.5, 2.0), 1), "150.0");
    assert_eq!(to_fixed(&new(0.0), 2), "0.00");
}

#[test]
fn a_tiny_negative_value_comes_back_from_its_text() {
    let x = raw(-1.0, -400.0);
    assert_eq!(to_string(&x), "-1.0000000000000000e-400");
    assert_eq!(parse(to_string(&x).as_str()).to_bits(), x.to_bits());
    let y = raw(1.0, 400.0);
    assert_eq!(to_string(&y), "1.0000000000000000e+400");
    assert_eq!(parse(to_string(&y).as_str()).to_bits(), y.to_bits());
    let z = raw(-2.5, 1e10);
    assert_eq!(parse(to_string(&z).as_str()).to_bits(), z.to_bits());
}

#[test]
fn building_a_decimal_twice_changes_nothing() {
    for (m, e) in [
        (1024.0, 0.0),
        (-1024.0, 0.0),
        (0.5, 3.0),
        (-0.001, -7.0),
        (123456.789, 100.0),
        (1.0, 5.0),
        (-9.99, -400.0),
        (0.0, 9.0),
        (f64::NAN, 1.0),
        (1.0, f64::INFINITY),
    ] {
        let once = from_mantissa_exponent(m, e);
        let twice = from_mantissa_exponent(f64::from_bits(once.mantissa), f64::from_bits(once.exponent));
        assert_eq!(twice.to_bits(), once.to_bits(), "({m:?}, {e:?})");
    }
    assert_eq!(from_mantissa_exponent(1024.0, 0.0), raw(1.024, 3.0));
    assert_eq!(from_mantissa_exponent(-1024.0, 0.0), raw(-1.024, 3.0));
}

#[test]
fn the_value_of_a_decimal_at_the_ends_of_the_range() {
    assert_eq!(to_number(&Decimal::max_value()), f64::INFINITY);
    assert_eq!(to_number(&Decimal::min_value()), f64::NEG_INFINITY);
    assert_eq!(to_number(&raw(1.0, -324.0)), 5e-324);
    assert_eq!(to_number(&raw(-1.0, -324.0)), -5e-324);
    assert_eq!(to_number(&raw(0.0, -324.0)).to_bits(), 5e-324f64.to_bits());
    assert_eq!(to_number(&raw(-0.0, -324.0)).to_bits(), (-5e-324f64).to_bits());
    assert_eq!(to_number(&raw(1.0, -325.0)), 0.0);
    assert!(to_number(&raw(1.0, f64::INFINITY)).is_nan());
    assert!(to_number(&raw(f64::NAN, 400.0)).is_nan());
}
