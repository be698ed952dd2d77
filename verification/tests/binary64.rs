use telemetry_monitor::addition::sum_of;
use telemetry_monitor::binary64::{
    Binary64, Side, HUNDRED_BITS, ONE_BITS, TEN_BITS, ZERO_BITS,
};

fn of(value: f64) -> Binary64 {
    Binary64 { bits: value.to_bits() }
}

fn samples() -> Vec<f64> {
    let mut values = vec![
        0.0,
        -0.0,
        1.0,
        -1.0,
        0.5,
        1.5,
        2.5,
        10.0,
        100.0,
        0.1,
        0.2,
        0.3,
        1e-300,
        5e-324,
        -5e-324,
        2.2250738585072014e-308,
        2.225073858507201e-308,
        9007199254740991.0,
        9007199254740992.0,
        9007199254740993.0,
        9007199254740994.0,
        9223372036854775808.0,
        18446744073709551615.0,
        18446744073709549568.0,
        1e19,
        1e300,
        f64::MAX,
        -f64::MAX,
        f64::MIN_POSITIVE,
        f64::EPSILON,
        f64::INFINITY,
        f64::NEG_INFINITY,
        f64::NAN,
    ];
    let mut state: u64 = 0x9E37_79B9_7F4A_7C15;
    for _ in 0..400 {
        state = state.wrapping_mul(6364136223846793005).wrapping_add(1442695040888963407);
        values.push(f64::from_bits(state));
        let exponent = 1000 + (state >> 58);
        values.push(f64::from_bits((state & 0x800F_FFFF_FFFF_FFFF) | (exponent << 52)));
    }
    values
}

#[test]
fn named_patterns_are_what_they_are_named_after() {
    assert_eq!(f64::from_bits(ZERO_BITS), 0.0);
    assert_eq!(f64::from_bits(ONE_BITS), 1.0);
    assert_eq!(f64::from_bits(TEN_BITS), 10.0);
    assert_eq!(f64::from_bits(HUNDRED_BITS), 100.0);
}

#[test]
fn order_is_that_of_numbers() {
    for a in samples() {
        for b in samples() {
            assert_eq!(of(a).greater_than(&of(b)), a > b, "{a:e} {b:e}");
        }
    }
}

#[test]
fn larger_of_two_values() {
    for a in samples() {
        assert_eq!(of(a).is_not_a_number(), a.is_nan());
        for b in samples() {
            let larger = f64::from_bits(of(a).max(of(b)).bits);
            assert!(larger == a.max(b) || (larger.is_nan() && a.is_nan() && b.is_nan()));
        }
    }
}

#[test]
fn sum_is_rounded_to_the_nearest_value() {
    for a in samples() {
        for b in samples() {
            let sum = f64::from_bits(of(a).plus(of(b)).bits);
            let expected = a + b;
            if expected.is_nan() {
                assert!(sum.is_nan());
            } else {
                assert_eq!(sum.to_bits(), expected.to_bits(), "{a:e} + {b:e}");
            }
        }
    }
}

#[test]
fn sum_of_tenths_shows_the_rounding() {
    let sum = sum_of(&vec![of(0.1), of(0.2), of(0.3)]);
    assert_eq!(f64::from_bits(sum.bits), 0.6000000000000001);
    assert_eq!(sum_of(&Vec::new()).bits, 0);
    assert_eq!(sum_of(&vec![of(-0.0)]).bits, 0);
}

#[test]
fn sum_of_large_values_overflows_to_infinity() {
    assert_eq!(of(f64::MAX).plus(of(f64::MAX)), of(f64::INFINITY));
    assert_eq!(of(-f64::MAX).plus(of(-f64::MAX)), of(f64::NEG_INFINITY));
    assert!(of(f64::INFINITY).plus(of(f64::NEG_INFINITY)).is_not_a_number());
}

#[test]
fn whole_part_saturates() {
    for a in samples() {
        assert_eq!(of(a).to_u64(), a as u64, "{a:e}");
    }
    assert_eq!(of(7.99).to_u64(), 7);
    assert_eq!(of(-3.0).to_u64(), 0);
    assert_eq!(of(f64::NAN).to_u64(), 0);
    assert_eq!(of(1e30).to_u64(), u64::MAX);
}

#[test]
fn side_as_seen_from_a_whole_number() {
    let wholes: [u64; 9] = [0, 1, 2, 3, 10, 100, 9007199254740991, 9007199254740992, 1 << 60];
    for a in samples() {
        if a.is_nan() {
            continue;
        }
        for whole in wholes {
            let expected = if a < whole as f64 {
                Side::Before
            } else if a == whole as f64 {
                Side::At
            } else {
                Side::After
            };
            assert_eq!(of(a).side_of(whole), expected, "{a:e} {whole}");
        }
    }
    assert_eq!(of(9007199254740992.0).side_of(9007199254740993), Side::Before);
    assert_eq!(of(1e30).side_of(u64::MAX), Side::After);
}

#[test]
fn half_of_a_whole_number() {
    assert!(of(1.5).at_most_half(3));
    assert!(!of(1.5000000000000002).at_most_half(3));
    assert!(of(1.4999999999999998).at_most_half(3));
    assert!(of(-1.0).at_most_half(0));
    assert!(of(0.0).at_most_half(0));
    assert!(!of(5e-324).at_most_half(0));
    assert!(!of(1e300).at_most_half(1 << 65));
}
