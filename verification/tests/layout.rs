use break_infinity_extended::{from_mantissa_exponent_no_normalize, Decimal};

fn raw(mantissa: f64, exponent: f64) -> Decimal {
    from_mantissa_exponent_no_normalize(mantissa.to_bits(), exponent.to_bits())
}

fn pairs() -> Vec<Decimal> {
    vec![
        Decimal::zero(),
        Decimal::one(),
        Decimal::nan(),
        Decimal::max_value(),
        Decimal::min_value(),
        Decimal::infinity(),
        Decimal::pi(),
        raw(3.224, 54.0),
        raw(-1.24, -53.0),
        raw(1234.5, 0.25),
        raw(-0.0, -0.0),
        raw(0.0, 5.0),
        raw(f64::INFINITY, f64::NEG_INFINITY),
        Decimal::from_bits(&[0x7ff0_0000_0000_0001, 0xfff8_0000_dead_beef]),
        Decimal::from_bits(&[0x0123_4567_89ab_cdef, 0xfedc_ba98_7654_3210]),
        Decimal::from_bits(&[u64::MAX, 0]),
    ]
}

#[test]
fn bits_hold_the_mantissa_first() {
    let d = raw(3.224, 54.0);
    assert_eq!(d.to_bits(), [3.224f64.to_bits(), 54.0f64.to_bits()]);
    let back = Decimal::from_bits(&[3.224f64.to_bits(), 54.0f64.to_bits()]);
    assert_eq!(back.mantissa, 3.224f64.to_bits());
    assert_eq!(back.exponent, 54.0f64.to_bits());
}

#[test]
fn bytes_are_those_of_the_two_fields() {
    for d in pairs() {
        let m = f64::from_bits(d.mantissa);
        let e = f64::from_bits(d.exponent);

        let mut big = [0u8; 16];
        big[0..8].copy_from_slice(&m.to_be_bytes());
        big[8..16].copy_from_slice(&e.to_be_bytes());
        assert_eq!(d.to_be_bytes(), big);

        let mut little = [0u8; 16];
        little[0..8].copy_from_slice(&m.to_le_bytes());
        little[8..16].copy_from_slice(&e.to_le_bytes());
        assert_eq!(d.to_le_bytes(), little);
    }
}

#[test]
fn the_bytes_of_one() {
    let one = Decimal::one();
    assert_eq!(
        one.to_be_bytes(),
        [0x3f, 0xf0, 0, 0, 0, 0, 0, 0, 0, 0, 0, 0, 0, 0, 0, 0]
    );
    assert_eq!(
        one.to_le_bytes(),
        [0, 0, 0, 0, 0, 0, 0xf0, 0x3f, 0, 0, 0, 0, 0, 0, 0, 0]
    );
}

#[test]
fn every_pair_survives_a_round_trip_bit_for_bit() {
    for d in pairs() {
        assert_eq!(Decimal::from_bits(&d.to_bits()).to_bits(), d.to_bits());
        assert_eq!(Decimal::from_be_bytes(&d.to_be_bytes()).to_bits(), d.to_bits());
        assert_eq!(Decimal::from_le_bytes(&d.to_le_bytes()).to_bits(), d.to_bits());
    }
}

#[test]
fn every_run_of_bytes_survives_a_round_trip() {
    let mut bytes = [0u8; 16];
    for (i, b) in bytes.iter_mut().enumerate() {
        *b = (i as u8).wrapping_mul(37).wrapping_add(201);
    }
    assert_eq!(Decimal::from_be_bytes(&bytes).to_be_bytes(), bytes);
    assert_eq!(Decimal::from_le_bytes(&bytes).to_le_bytes(), bytes);
    let all = [0xffu8; 16];
    assert_eq!(Decimal::from_be_bytes(&all).to_be_bytes(), all);
    assert_eq!(Decimal::from_le_bytes(&all).to_le_bytes(), all);
}

#[test]
fn the_two_byte_orders_mirror_each_field() {
    let d = Decimal::from_bits(&[0x0123_4567_89ab_cdef, 0xfedc_ba98_7654_3210]);
    assert_eq!(
        d.to_be_bytes(),
        [
            0x01, 0x23, 0x45, 0x67, 0x89, 0xab, 0xcd, 0xef, 0xfe, 0xdc, 0xba, 0x98, 0x76, 0x54,
            0x32, 0x10
        ]
    );
    assert_eq!(
        d.to_le_bytes(),
        [
            0xef, 0xcd, 0xab, 0x89, 0x67, 0x45, 0x23, 0x01, 0x10, 0x32, 0x54, 0x76, 0x98, 0xba,
            0xdc, 0xfe
        ]
    );
    assert_eq!(Decimal::from_be_bytes(&d.to_le_bytes()).to_bits(), [
        0xefcd_ab89_6745_2301,
        0x1032_5476_98ba_dcfe
    ]);
}
