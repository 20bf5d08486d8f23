//! The decisions on bit patterns, held against the floating-point numbers they stand for.

use jasn::number::{
    index_in, is_nan, is_negative, is_zero, magnitude, negate, number_equal, number_less,
    number_less_equal, truncate,
};

fn samples() -> Vec<f64> {
    vec![
        0.0,
        -0.0,
        1.0,
        -1.0,
        0.5,
        -0.5,
        1.5,
        2.0,
        3.999,
        -3.999,
        255.0,
        1e10,
        -1e10,
        4503599627370496.0,
        9007199254740993.0,
        18446744073709551615.0,
        18446744073709551616.0,
        1e300,
        -1e300,
        5e-324,
        -5e-324,
        2.2250738585072014e-308,
        f64::MAX,
        f64::MIN,
        f64::INFINITY,
        f64::NEG_INFINITY,
        f64::NAN,
        -f64::NAN,
        f64::from_bits(0x7ff0_0000_0000_0001),
        f64::from_bits(0xfff8_0000_0000_0001),
    ]
}

#[test]
fn classification_agrees_with_the_numbers() {
    for value in samples() {
        let bits = value.to_bits();
        assert_eq!(is_nan(bits), value.is_nan(), "is_nan of {:?}", value);
        assert_eq!(is_zero(bits), value == 0.0, "is_zero of {:?}", value);
        assert_eq!(is_negative(bits), value.is_sign_negative(), "is_negative of {:?}", value);
        assert_eq!(magnitude(bits), value.abs().to_bits(), "magnitude of {:?}", value);
    }
}

#[test]
fn equality_agrees_with_the_numbers() {
    for left in samples() {
        for right in samples() {
            assert_eq!(
                number_equal(left.to_bits(), right.to_bits()),
                left == right,
                "{:?} == {:?}",
                left,
                right
            );
        }
    }
}

#[test]
fn ordering_agrees_with_the_numbers() {
    for left in samples() {
        for right in samples() {
            assert_eq!(
                number_less(left.to_bits(), right.to_bits()),
                left < right,
                "{:?} < {:?}",
                left,
                right
            );
            assert_eq!(
                number_less_equal(left.to_bits(), right.to_bits()),
                left <= right,
                "{:?} <= {:?}",
                left,
                right
            );
        }
    }
}

#[test]
fn negation_flips_the_sign() {
    for value in samples() {
        assert_eq!(negate(value.to_bits()), (-value).to_bits(), "negation of {:?}", value);
    }
    assert_eq!(negate(1.0f64.to_bits()), 0xbff0_0000_0000_0000);
}

#[test]
fn truncation_agrees_with_the_cast() {
    for value in samples() {
        assert_eq!(truncate(value.to_bits()), value as u64, "truncation of {:?}", value);
    }
    assert_eq!(truncate(3.999f64.to_bits()), 3);
    assert_eq!(truncate(0.999f64.to_bits()), 0);
    assert_eq!(truncate(4503599627370497.0f64.to_bits()), 4503599627370497);
    assert_eq!(truncate(1e19f64.to_bits()), 10000000000000000000);
    assert_eq!(truncate(f64::NAN.to_bits()), 0);
    assert_eq!(truncate(f64::INFINITY.to_bits()), u64::MAX);
    assert_eq!(truncate((-7.0f64).to_bits()), 0);
}

#[test]
fn an_index_lies_below_the_length() {
    assert_eq!(index_in(0.0f64.to_bits(), 3), Some(0));
    assert_eq!(index_in(2.7f64.to_bits(), 3), Some(2));
    assert_eq!(index_in(3.0f64.to_bits(), 3), None);
    assert_eq!(index_in(0.0f64.to_bits(), 0), None);
    assert_eq!(index_in((-1.0f64).to_bits(), 3), None);
    assert_eq!(index_in((-1.5f64).to_bits(), 3), None);
    assert_eq!(index_in((-3.0f64).to_bits(), 3), None);
    assert_eq!(index_in(f64::NEG_INFINITY.to_bits(), 3), None);
    assert_eq!(index_in(f64::NAN.to_bits(), 3), None);
    assert_eq!(index_in((-f64::NAN).to_bits(), 3), None);
    assert_eq!(index_in((-0.0f64).to_bits(), 3), Some(0));
    assert_eq!(index_in((-0.5f64).to_bits(), 3), Some(0));
    assert_eq!(index_in((-0.999f64).to_bits(), 3), Some(0));
    assert_eq!(index_in((-0.0f64).to_bits(), 0), None);
    assert_eq!(index_in(f64::INFINITY.to_bits(), 3), None);
    assert_eq!(index_in(1e30f64.to_bits(), usize::MAX), None);
}
