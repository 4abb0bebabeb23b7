use csv_transformer::num_order::{f64_bits_gt, f64_bits_lt, i64_gt_f64_bits, i64_lt_f64_bits};

fn sample_doubles() -> Vec<f64> {
    vec![
        0.0,
        -0.0,
        1.0,
        -1.0,
        0.5,
        -0.5,
        1.5,
        2.0,
        10.0,
        -10.0,
        500.0,
        1e-300,
        -1e-300,
        1e300,
        -1e300,
        f64::MIN_POSITIVE,
        -f64::MIN_POSITIVE,
        5e-324,   // smallest positive subnormal
        -5e-324,
        f64::MAX,
        f64::MIN,
        f64::INFINITY,
        f64::NEG_INFINITY,
        f64::NAN,
        9007199254740992.0, // 2^53
        -9007199254740992.0,
        0.1,
        0.2,
        0.30000000000000004,
        0.3,
    ]
}

#[test]
fn bit_level_ordering_agrees_with_hardware() {
    let xs = sample_doubles();
    for &a in &xs {
        for &b in &xs {
            assert_eq!(
                f64_bits_lt(a.to_bits(), b.to_bits()),
                a < b,
                "lt disagrees on {:?} < {:?}",
                a,
                b
            );
            assert_eq!(
                f64_bits_gt(a.to_bits(), b.to_bits()),
                a > b,
                "gt disagrees on {:?} > {:?}",
                a,
                b
            );
        }
    }
}

#[test]
fn integer_ordering_agrees_with_hardware_on_exact_integers() {
    // up to 2^53 every i64 has an exact double image, so the exact
    // comparison and the hardware's converted comparison must agree
    let ints: Vec<i64> = vec![
        0,
        1,
        -1,
        2,
        -2,
        10,
        -10,
        499,
        500,
        501,
        1 << 52,
        -(1 << 52),
        9007199254740992, // 2^53
        -9007199254740992,
    ];
    for &x in &ints {
        for &t in &sample_doubles() {
            assert_eq!(
                i64_lt_f64_bits(x, t.to_bits()),
                (x as f64) < t,
                "lt disagrees on {} < {:?}",
                x,
                t
            );
            assert_eq!(
                i64_gt_f64_bits(x, t.to_bits()),
                (x as f64) > t,
                "gt disagrees on {} > {:?}",
                x,
                t
            );
        }
    }
}

#[test]
fn integer_ordering_is_exact_where_conversion_rounds() {
    // 2^53 + 1 rounds to 2^53 as a double; the exact comparison still
    // sees it as strictly greater
    let t = (9007199254740992.0f64).to_bits();
    assert!(i64_gt_f64_bits(9007199254740993, t));
    assert!(!i64_lt_f64_bits(9007199254740993, t));
    assert!(!i64_gt_f64_bits(9007199254740992, t));
    // i64::MAX is far above 2^53; against its own rounded double image
    // (2^63, not representable in i64) it is strictly below
    let big = (9223372036854775807i64 as f64).to_bits();
    assert!(i64_lt_f64_bits(i64::MAX, big));
}
