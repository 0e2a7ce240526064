//! The bit-level NaN test and comparison agree with hardware floats.

use xgboost_predictor::float_bits::{is_nan_bits, lt_bits, F32_ONE_BITS, F32_ZERO_BITS};

fn samples() -> Vec<f32> {
    vec![
        0.0,
        -0.0,
        1.0,
        -1.0,
        1.5,
        -3.25,
        0.5,
        1e-10,
        -1e-10,
        1e30,
        -1e30,
        f32::MIN_POSITIVE,
        -f32::MIN_POSITIVE,
        1e-45,
        -1e-45,
        f32::MAX,
        f32::MIN,
        f32::INFINITY,
        f32::NEG_INFINITY,
        f32::NAN,
        -f32::NAN,
    ]
}

#[test]
fn lt_bits_matches_hardware() {
    for &a in &samples() {
        for &b in &samples() {
            assert_eq!(
                lt_bits(a.to_bits(), b.to_bits()),
                a < b,
                "lt_bits disagrees on {a} < {b}"
            );
        }
    }
}

#[test]
fn is_nan_bits_matches_hardware() {
    for &a in &samples() {
        assert_eq!(is_nan_bits(a.to_bits()), a.is_nan(), "is_nan_bits disagrees on {a}");
    }
}

#[test]
fn named_constants_are_the_right_floats() {
    assert_eq!(f32::from_bits(F32_ONE_BITS), 1.0);
    assert_eq!(f32::from_bits(F32_ZERO_BITS), 0.0);
}
