use fracmath::{integral, ConstOne, Fraction, FractionError, Identity, Square};

fn to_float(f: &Fraction) -> f64 {
    assert!(f.den != 0);
    f.num as f64 / f.den as f64
}

fn frac(n: i64, d: i64) -> Fraction {
    Fraction::new(n, d).unwrap()
}

#[test]
fn squares_over_unit_steps() {
    let r = integral(Square, Fraction::zero(), frac(10, 1), frac(1, 1)).unwrap();
    assert_eq!(r, Fraction { num: 285, den: 1 });
    assert_eq!(to_float(&r), 285.0);
}

#[test]
fn identity_over_unit_steps() {
    let r = integral(Identity, Fraction::zero(), frac(4, 1), frac(1, 1)).unwrap();
    assert_eq!(to_float(&r), 6.0);
}

#[test]
fn constant_over_unit_steps() {
    let r = integral(ConstOne, Fraction::zero(), frac(5, 1), frac(1, 1)).unwrap();
    assert_eq!(to_float(&r), 5.0);
}

#[test]
fn empty_interval_is_zero() {
    let m = frac(3, 2);
    let r = integral(Square, m, m, frac(1, 7)).unwrap();
    assert_eq!(r, Fraction::zero());
}

#[test]
fn empty_interval_is_zero_even_for_zero_step() {
    let m = frac(3, 2);
    let r = integral(Square, m, m, frac(0, 1)).unwrap();
    assert_eq!(r, Fraction::zero());
}

#[test]
fn reversed_interval_is_zero() {
    let r = integral(Square, frac(5, 1), frac(1, 1), frac(1, 1)).unwrap();
    assert_eq!(r, Fraction::zero());
}

#[test]
fn zero_step_is_rejected() {
    let r = integral(Square, Fraction::zero(), frac(10, 1), frac(0, 1));
    assert_eq!(r, Err(FractionError::NonPositiveStep));
}

#[test]
fn negative_step_is_rejected() {
    let r = integral(Identity, Fraction::zero(), frac(10, 1), frac(-1, 2));
    assert_eq!(r, Err(FractionError::NonPositiveStep));
}

#[test]
fn fractional_step_sums_left_endpoints() {
    let r = integral(Identity, Fraction::zero(), frac(1, 1), frac(1, 2)).unwrap();
    assert_eq!(r, Fraction { num: 1, den: 4 });
    assert_eq!(to_float(&r), 0.25);
}

#[test]
fn partial_final_interval_is_dropped() {
    let r = integral(ConstOne, Fraction::zero(), frac(5, 2), frac(1, 1)).unwrap();
    assert_eq!(to_float(&r), 3.0);
}

#[test]
fn overflow_in_integrand_is_reported() {
    let big = frac(4_000_000_000, 1);
    let max = frac(4_000_000_001, 1);
    let r = integral(Square, big, max, frac(1, 1));
    assert_eq!(r, Err(FractionError::ArithmeticOverflow));
}
