use partyarty::scalar::Scalar;

fn s(x: f32) -> Scalar {
    Scalar::from_bits(x.to_bits())
}

fn samples() -> Vec<f32> {
    vec![
        0.0,
        -0.0,
        1.0,
        -1.0,
        0.001,
        -0.001,
        0.5,
        2.0,
        10.0,
        -10.0,
        1.0e-40,
        -1.0e-40,
        f32::MIN_POSITIVE,
        f32::MAX,
        f32::MIN,
        f32::INFINITY,
        f32::NEG_INFINITY,
        f32::NAN,
        -f32::NAN,
        f32::EPSILON,
        3.4e38,
        -3.4e38,
        1.5,
        1.5000001,
    ]
}

#[test]
fn less_agrees_with_native_order() {
    for &a in samples().iter() {
        for &b in samples().iter() {
            assert_eq!(s(a).less(&s(b)), a < b, "{} < {}", a, b);
            assert_eq!(s(a).less_eq(&s(b)), a <= b, "{} <= {}", a, b);
            assert_eq!(s(a).greater(&s(b)), a > b, "{} > {}", a, b);
            assert_eq!(s(a).greater_eq(&s(b)), a >= b, "{} >= {}", a, b);
        }
    }
}

#[test]
fn sign_tests_agree_with_native_order() {
    for &a in samples().iter() {
        assert_eq!(s(a).is_negative(), a < 0.0);
        assert_eq!(s(a).is_positive(), a > 0.0);
        assert_eq!(s(a).nan(), a.is_nan());
    }
}

#[test]
fn min_and_max_agree_with_native_numbers() {
    for &a in samples().iter() {
        for &b in samples().iter() {
            let lo = f32::from_bits(s(a).min(s(b)).to_bits());
            let hi = f32::from_bits(s(a).max(s(b)).to_bits());
            let want_lo = a.min(b);
            let want_hi = a.max(b);
            assert!(lo == want_lo || (lo.is_nan() && want_lo.is_nan()), "min({}, {})", a, b);
            assert!(hi == want_hi || (hi.is_nan() && want_hi.is_nan()), "max({}, {})", a, b);
        }
    }
}

#[test]
fn key_orders_like_the_numbers() {
    assert_eq!(s(0.0).key(), 0);
    assert_eq!(s(-0.0).key(), 0);
    assert_eq!(s(1.0).key(), 0x3f80_0000);
    assert_eq!(s(-1.0).key(), -0x3f80_0000);
    assert_eq!(Scalar::infinity().to_bits(), f32::INFINITY.to_bits());
    assert_eq!(Scalar::zero().to_bits(), 0.0f32.to_bits());
    assert!(s(-2.0).key() < s(-1.0).key());
    assert!(s(1.0).key() < s(2.0).key());
}
