use wetc_buyback_backend::binary64::{
    is_finite_bits, is_nan_bits, order_bits, Order, INFINITY, SIGN_BIT, ZERO,
};

fn samples() -> Vec<f64> {
    vec![
        0.0,
        -0.0,
        1.0,
        -1.0,
        0.1,
        -0.1,
        3.1,
        5.0,
        7.2,
        6.48,
        1e300,
        -1e300,
        f64::MIN_POSITIVE,
        -f64::MIN_POSITIVE,
        f64::MIN_POSITIVE / 4.0,
        -(f64::MIN_POSITIVE / 4.0),
        f64::MAX,
        f64::MIN,
        f64::EPSILON,
    ]
}

fn not_finite() -> Vec<u64> {
    let nan = f64::NAN.to_bits();
    vec![
        nan,
        nan | 1 | SIGN_BIT,
        f64::INFINITY.to_bits(),
        f64::NEG_INFINITY.to_bits(),
        INFINITY + 1,
        u64::MAX,
    ]
}

fn expected(a: f64, b: f64) -> Order {
    if a < b {
        Order::Less
    } else if a > b {
        Order::Greater
    } else {
        Order::Equal
    }
}

#[test]
fn order_of_finite_numbers_is_their_order_by_value() {
    for a in samples() {
        for b in samples() {
            assert_eq!(order_bits(a.to_bits(), b.to_bits()), expected(a, b), "{} ? {}", a, b);
        }
    }
}

#[test]
fn both_zeros_are_equal() {
    assert_eq!(order_bits(0.0f64.to_bits(), (-0.0f64).to_bits()), Order::Equal);
    assert_eq!(order_bits((-0.0f64).to_bits(), 0.0f64.to_bits()), Order::Equal);
}

#[test]
fn a_finite_number_is_greater_than_one_that_is_not() {
    for a in samples() {
        for b in not_finite() {
            assert_eq!(order_bits(a.to_bits(), b), Order::Greater, "{} ? {:x}", a, b);
            assert_eq!(order_bits(b, a.to_bits()), Order::Less, "{:x} ? {}", b, a);
        }
    }
}

#[test]
fn two_numbers_that_are_not_finite_are_equal() {
    for a in not_finite() {
        for b in not_finite() {
            assert_eq!(order_bits(a, b), Order::Equal, "{:x} ? {:x}", a, b);
        }
    }
}

#[test]
fn the_order_passes_along() {
    let mut all: Vec<u64> = samples().iter().map(|x| x.to_bits()).collect();
    all.extend(not_finite());
    for &a in &all {
        for &b in &all {
            for &c in &all {
                if order_bits(a, b) != Order::Greater && order_bits(b, c) != Order::Greater {
                    assert_ne!(order_bits(a, c), Order::Greater);
                }
            }
        }
    }
}

#[test]
fn classification_agrees_with_the_numbers() {
    let mut all = samples();
    all.extend(not_finite().into_iter().map(f64::from_bits));
    for a in all {
        assert_eq!(is_nan_bits(a.to_bits()), a.is_nan(), "{}", a);
        assert_eq!(is_finite_bits(a.to_bits()), a.is_finite(), "{}", a);
    }
}

#[test]
fn constants_are_the_patterns_they_name() {
    assert_eq!(ZERO, 0.0f64.to_bits());
    assert_eq!(INFINITY, f64::INFINITY.to_bits());
    assert_eq!(SIGN_BIT, (-0.0f64).to_bits());
}
