use break_infinity_extended::{
    from_mantissa_exponent_no_normalize, pad_end, padded_text, rounding_shift, scaled_text,
    scientific_text, short_scale_term, strip_points, zeros_after_point, Decimal, Token,
};

fn raw(mantissa: f64, exponent: f64) -> Decimal {
    from_mantissa_exponent_no_normalize(mantissa.to_bits(), exponent.to_bits())
}

fn pad(string: &str, max_length: u32, fill: &str) -> String {
    pad_end(String::from(string), max_length, String::from(fill))
}

#[test]
fn pad_end_fills_up_to_the_length() {
    assert_eq!(pad("abc", 6, "12"), "abc121");
    assert_eq!(pad("abc", 5, "12"), "abc12");
    assert_eq!(pad("abc", 4, "12"), "abc1");
    assert_eq!(pad("abc", 10, "12345"), "abc1234512");
    assert_eq!(pad(".", 4, "0"), ".000");
    assert_eq!(pad("", 3, "xy"), "xyx");
    assert_eq!(pad("7", 12, "ab"), "7abababababa");
}

#[test]
fn pad_end_leaves_a_long_string_alone() {
    assert_eq!(pad("abc", 3, "12"), "abc");
    assert_eq!(pad("abc", 2, "12"), "abc");
    assert_eq!(pad("abc", 0, "12"), "abc");
    assert_eq!(pad("", 0, ""), "");
}

#[test]
fn pad_end_fills_with_spaces_for_an_empty_fill() {
    assert_eq!(pad("abc", 6, ""), "abc   ");
    assert_eq!(pad("", 1, ""), " ");
}

#[test]
fn pad_end_counts_the_string_in_characters() {
    assert_eq!(pad("µµ", 4, "0"), "µµ00");
    assert_eq!(pad("µµ", 2, "0"), "µµ");
}

#[test]
fn pad_end_takes_a_whole_fill_of_any_characters() {
    assert_eq!(pad("a", 3, "é"), "aéé");
    assert_eq!(pad("a", 5, "é€"), "aé€é€");
}

#[test]
fn pad_end_counts_the_fill_in_characters() {
    assert_eq!(pad("a", 4, "µ"), "aµµµ");
    assert_eq!(pad("a", 2, "éé"), "aé");
    assert_eq!(pad("a", 3, "éb€"), "aéb");
    assert_eq!(pad("a", 4, "éb€xyz"), "aéb€");
    assert_eq!(pad("a", 3, "€uro"), "a€u");
    assert_eq!(pad("µ", 6, "€é"), "µ€é€é€");
}

#[test]
fn strip_points_takes_the_points_out() {
    assert_eq!(strip_points("1.5"), "15");
    assert_eq!(strip_points("-3.224"), "-3224");
    assert_eq!(strip_points("7"), "7");
    assert_eq!(strip_points(""), "");
    assert_eq!(strip_points("..."), "");
    assert_eq!(strip_points(".1.2."), "12");
}

#[test]
fn zeros_after_point_has_a_point_only_with_zeros() {
    assert_eq!(zeros_after_point(0), "");
    assert_eq!(zeros_after_point(1), ".0");
    assert_eq!(zeros_after_point(3), ".000");
    assert_eq!(zeros_after_point(16), ".0000000000000000");
    assert_eq!(zeros_after_point(300).len(), 301);
}

#[test]
fn token_words() {
    assert_eq!(Token::NotANumber.text(), "NaN");
    assert_eq!(Token::Infinity.text(), "Infinity");
    assert_eq!(Token::NegativeInfinity.text(), "-Infinity");
    assert_eq!(Token::Zero.text(), "0");
}

#[test]
fn tokens_in_the_exponential_form() {
    assert_eq!(Token::NotANumber.to_exponential(3), "NaN");
    assert_eq!(Token::Infinity.to_exponential(3), "Infinity");
    assert_eq!(Token::NegativeInfinity.to_exponential(3), "-Infinity");
    assert_eq!(Token::Zero.to_exponential(0), "0e+0");
    assert_eq!(Token::Zero.to_exponential(3), "0.000e+0");
    assert_eq!(Token::NotANumber.to_exponential(u32::MAX), "NaN");
}

#[test]
fn tokens_in_the_fixed_form() {
    assert_eq!(Token::NotANumber.to_fixed(2), "NaN");
    assert_eq!(Token::Infinity.to_fixed(2), "Infinity");
    assert_eq!(Token::NegativeInfinity.to_fixed(2), "-Infinity");
    assert_eq!(Token::Zero.to_fixed(0), "0");
    assert_eq!(Token::Zero.to_fixed(2), "0.00");
}

#[test]
fn scientific_text_signs_the_exponent() {
    assert_eq!(
        scientific_text("1.0000000000000000", 308.0f64.to_bits(), "308"),
        "1.0000000000000000e+308"
    );
    assert_eq!(scientific_text("1.000", (-10.0f64).to_bits(), "-10"), "1.000e-10");
    assert_eq!(scientific_text("2", 0.0f64.to_bits(), "0"), "2e+0");
    assert_eq!(scientific_text("2", (-0.0f64).to_bits(), "-0"), "2e+-0");
    assert_eq!(scientific_text("-9.5", 0.5f64.to_bits(), "0.5"), "-9.5e+0.5");
    assert_eq!(scientific_text("1", f64::NAN.to_bits(), "NaN"), "1eNaN");
}

#[test]
fn padded_text_fills_the_whole_digits_with_zeros() {
    assert_eq!(padded_text("1.5", 18, 0), "150000000000000000");
    assert_eq!(padded_text("1.5", 18, 2), "150000000000000000.00");
    assert_eq!(padded_text("3.224", 20, 0), "32240000000000000000");
    assert_eq!(padded_text("1", 18, 1), "100000000000000000.0");
    assert_eq!(padded_text("1.2345", 3, 0), "12345");
}

#[test]
fn padded_text_does_not_count_the_minus_sign() {
    assert_eq!(padded_text("-1.5", 5, 0), "-15000");
    assert_eq!(padded_text("-1.5", 21, 0), "-150000000000000000000");
    assert_eq!(padded_text("-1.5", 21, 2), "-150000000000000000000.00");
    assert_eq!(padded_text("-3.224", 3, 0), "-3224");
    assert_eq!(padded_text("-", 2, 0), "-00");
    assert_eq!(padded_text("", 2, 1), "00.0");
}

#[test]
fn the_fixed_form_pads_to_the_digits_before_the_point() {
    assert_eq!(raw(-1.5, 20.0).to_fixed_padded("-1.5", 0), "-150000000000000000000");
    assert_eq!(raw(1.5, 20.0).to_fixed_padded("1.5", 0), "150000000000000000000");
    assert_eq!(raw(1.0, 17.0).to_fixed_padded("1", 0), "100000000000000000");
    assert_eq!(raw(1.0, 17.9).to_fixed_padded("1", 1), "100000000000000000.0");
    assert_eq!(raw(3.224, 18.0).to_fixed_padded("3.224", 2), "3224000000000000000.00");
    assert_eq!(raw(1.2345, 2.0).to_fixed_padded("1.2345", 0), "12345");
    assert_eq!(raw(1.5, -3.0).to_fixed_padded("1.5", 0), "15");
    assert_eq!(raw(1.5, f64::NAN).to_fixed_padded("1.5", 0), "15");
}

#[test]
fn one_digit_stands_before_the_point_of_the_exponential_form() {
    let keep = |text: &str| (String::from(text), false);
    let d = raw(9.999, 5.0);
    assert_eq!(d.exponential_mantissa("10.00", 2), (String::from("1.00"), true));
    assert_eq!(d.exponential_mantissa("10", 0), (String::from("1"), true));
    assert_eq!(d.exponential_mantissa("10.0000", 4), (String::from("1.0000"), true));
    assert_eq!(d.exponential_mantissa("9.99", 2), keep("9.99"));
    assert_eq!(d.exponential_mantissa("9", 0), keep("9"));
    assert_eq!(d.exponential_mantissa("", 0), keep(""));
    let negative = raw(-9.999, 5.0);
    assert_eq!(negative.exponential_mantissa("-10.00", 2), (String::from("-1.00"), true));
    assert_eq!(negative.exponential_mantissa("-9.99", 2), keep("-9.99"));
    assert_eq!(negative.exponential_mantissa("-9", 0), keep("-9"));
    // A mantissa that is ten or more as it is given was not rounded up to ten.
    assert_eq!(raw(12.5, 5.0).exponential_mantissa("12.50", 2), keep("12.50"));
    assert_eq!(raw(10.0, 5.0).exponential_mantissa("10.00", 2), keep("10.00"));
    assert_eq!(raw(-123.4, 5.0).exponential_mantissa("-123.4", 1), keep("-123.4"));
}

#[test]
fn scaled_text_puts_a_space_before_a_name() {
    assert_eq!(scaled_text("1", 3), "1 B");
    assert_eq!(scaled_text("1", 4), "1 T");
    assert_eq!(scaled_text("1", -3), "1 n");
    assert_eq!(scaled_text("1", 0), "1");
    assert_eq!(scaled_text("123.457", 3), "123.457 B");
    assert_eq!(scaled_text("10.0", 51), "10.0 Qq");
}

#[test]
fn short_scale_terms() {
    let expected = [
        (-3, "n"),
        (-2, "µ"),
        (-1, "m"),
        (0, ""),
        (1, "k"),
        (2, "M"),
        (3, "B"),
        (4, "T"),
        (5, "Qa"),
        (6, "Qi"),
        (7, "Sx"),
        (8, "Sp"),
        (9, "Oc"),
        (10, "No"),
        (11, "Dc"),
        (12, "UDc"),
        (13, "DDc"),
        (14, "TDc"),
        (15, "QaDc"),
        (16, "QiDc"),
        (17, "SxDc"),
        (18, "SpDc"),
        (19, "OcDc"),
        (20, "NDc"),
        (21, "Vi"),
        (22, "UVi"),
        (23, "DVi"),
        (24, "TVi"),
        (25, "QaVi"),
        (26, "QiVi"),
        (27, "SxVi"),
        (28, "SpVi"),
        (29, "OcVi"),
        (30, "NVi"),
        (31, "Tg"),
        (32, "UTg"),
        (33, "DTg"),
        (34, "TTg"),
        (35, "QaTg"),
        (36, "QiTg"),
        (37, "SxTg"),
        (38, "SpTg"),
        (39, "OcTg"),
        (40, "NTg"),
        (41, "Qd"),
        (42, "UQd"),
        (43, "DQd"),
        (44, "TQd"),
        (45, "QaQd"),
        (46, "QiQd"),
        (47, "SxQd"),
        (48, "SpQd"),
        (49, "OcQd"),
        (50, "NQd"),
        (51, "Qq"),
    ];
    for (scale, term) in expected {
        assert_eq!(short_scale_term(scale), term, "the name of 1000^{scale}");
    }
}

#[test]
fn the_power_at_which_a_mantissa_is_rounded() {
    assert_eq!(rounding_shift(2, 1), (2, 2));
    assert_eq!(rounding_shift(16, 1), (16, 16));
    assert_eq!(rounding_shift(0, 1), (0, 0));
    assert_eq!(rounding_shift(0, 2), (-1, 0));
    assert_eq!(rounding_shift(3, 5), (-1, 0));
    assert_eq!(rounding_shift(5, 3), (3, 3));
    assert_eq!(rounding_shift(5, 0), (6, 6));
    assert_eq!(rounding_shift(u32::MAX, 0), (i32::MAX, 2147483647));
    assert_eq!(rounding_shift(u32::MAX, 1), (i32::MAX, 2147483647));
    assert_eq!(rounding_shift(2147483646, 1), (2147483646, 2147483646));
    assert_eq!(rounding_shift(2147483647, 1), (i32::MAX, 2147483647));
    assert_eq!(rounding_shift(0, u32::MAX), (-i32::MAX, 0));
    assert_eq!(rounding_shift(0, 2147483648), (-i32::MAX, 0));
    assert_eq!(rounding_shift(0, 2147483647), (-2147483646, 0));
}
