use calcr::binary64::{count, negative, non_positive};

fn samples() -> Vec<f64> {
    let mut out = vec![
        0.0,
        -0.0,
        1.0,
        -1.0,
        0.5,
        -0.5,
        1.5,
        2.0,
        3.0,
        -3.0,
        170.0,
        171.0,
        0.1,
        0.9999999999999999,
        1.0000000000000002,
        4503599627370495.5,
        4503599627370496.0,
        4503599627370497.0,
        9007199254740992.0,
        9007199254740993.0,
        1e15,
        1e15 + 0.5,
        1e300,
        -1e300,
        f64::MAX,
        f64::MIN,
        f64::MIN_POSITIVE,
        -f64::MIN_POSITIVE,
        f64::EPSILON,
        f64::INFINITY,
        f64::NEG_INFINITY,
        f64::NAN,
        -f64::NAN,
        f64::from_bits(1),
        f64::from_bits(0x8000_0000_0000_0001),
        f64::from_bits(0x000f_ffff_ffff_ffff),
        f64::from_bits(0x7ff0_0000_0000_0001),
        f64::from_bits(0xfff8_0000_0000_0000),
    ];
    // every power of two, and its neighbours, over the range of the exponent
    let mut p = 1.0f64;
    for _ in 0..70 {
        out.push(p);
        out.push(-p);
        out.push(p + 0.5);
        out.push(p * 1.5);
        out.push(p - 0.25);
        out.push(1.0 / p);
        p *= 2.0;
    }
    out
}

#[test]
fn negative_is_less_than_zero() {
    for x in samples() {
        assert_eq!(negative(x.to_bits()), x < 0.0, "{:e}", x);
    }
}

#[test]
fn non_positive_is_at_most_zero() {
    for x in samples() {
        assert_eq!(non_positive(x.to_bits()), x <= 0.0, "{:e}", x);
    }
}

#[test]
fn count_is_whole_and_not_negative() {
    for x in samples() {
        assert_eq!(count(x.to_bits()), x.fract() == 0.0 && x >= 0.0, "{:e}", x);
    }
}

#[test]
fn exact_classifications() {
    assert!(!negative(0.0f64.to_bits()));
    assert!(!negative((-0.0f64).to_bits()));
    assert!(negative((-1.0f64).to_bits()));
    assert!(negative(f64::NEG_INFINITY.to_bits()));
    assert!(!negative(f64::NAN.to_bits()));
    assert!(non_positive((-0.0f64).to_bits()));
    assert!(!non_positive(f64::MIN_POSITIVE.to_bits()));
    assert!(count(0.0f64.to_bits()));
    assert!(count((-0.0f64).to_bits()));
    assert!(count(3.0f64.to_bits()));
    assert!(!count(3.5f64.to_bits()));
    assert!(!count((-3.0f64).to_bits()));
    assert!(!count(f64::INFINITY.to_bits()));
    assert!(count(1e300f64.to_bits()));
}
