use fracmath::{Fraction, FractionError};
use fracmath::gcd;

fn to_float(f: &Fraction) -> f64 {
    assert!(f.den != 0);
    f.num as f64 / f.den as f64
}

#[test]
fn new_stores_pair_verbatim() {
    let f = Fraction::new(3, 4).unwrap();
    assert_eq!(f.num, 3);
    assert_eq!(f.den, 4);
}

#[test]
fn new_rejects_zero_denominator() {
    assert_eq!(Fraction::new(7, 0), Err(FractionError::DivisionByZero));
}

#[test]
fn zero_is_zero_over_one() {
    let z = Fraction::zero();
    assert_eq!(z, Fraction { num: 0, den: 1 });
}

#[test]
fn add_shared_denominator_adds_numerators() {
    let a = Fraction::new(1, 4).unwrap();
    let b = Fraction::new(2, 4).unwrap();
    assert_eq!(Fraction::add(a, b), Ok(Fraction { num: 3, den: 4 }));
}

#[test]
fn add_cross_multiplies_distinct_denominators() {
    let a = Fraction::new(1, 2).unwrap();
    let b = Fraction::new(1, 3).unwrap();
    assert_eq!(Fraction::add(a, b), Ok(Fraction { num: 5, den: 6 }));
}

#[test]
fn add_reports_overflow() {
    let a = Fraction::new(i64::MAX, 1).unwrap();
    let b = Fraction::new(1, 1).unwrap();
    assert_eq!(Fraction::add(a, b), Err(FractionError::ArithmeticOverflow));
}

#[test]
fn mult_multiplies_componentwise() {
    let a = Fraction::new(2, 3).unwrap();
    let b = Fraction::new(4, 5).unwrap();
    assert_eq!(Fraction::mult(a, b), Ok(Fraction { num: 8, den: 15 }));
}

#[test]
fn mult_reports_overflow() {
    let a = Fraction::new(i64::MAX, 1).unwrap();
    let b = Fraction::new(2, 1).unwrap();
    assert_eq!(Fraction::mult(a, b), Err(FractionError::ArithmeticOverflow));
}

#[test]
fn negative_flips_numerator() {
    let a = Fraction::new(3, 4).unwrap();
    assert_eq!(a.negative(), Ok(Fraction { num: -3, den: 4 }));
}

#[test]
fn negative_reports_overflow_on_minimum() {
    let a = Fraction::new(i64::MIN, 1).unwrap();
    assert_eq!(a.negative(), Err(FractionError::ArithmeticOverflow));
}

#[test]
fn add_then_sub_recovers_value() {
    let a = Fraction::new(1, 2).unwrap();
    let b = Fraction::new(1, 3).unwrap();
    let s = Fraction::add(a, b).unwrap();
    let back = Fraction::sub(s, b).unwrap();
    assert_eq!(to_float(&back), to_float(&a));
}

#[test]
fn inverse_swaps_components() {
    let a = Fraction::new(3, 4).unwrap();
    assert_eq!(a.inverse(), Ok(Fraction { num: 4, den: 3 }));
}

#[test]
fn inverse_of_zero_numerator_is_division_by_zero() {
    let a = Fraction::new(0, 5).unwrap();
    assert_eq!(a.inverse(), Err(FractionError::DivisionByZero));
}

#[test]
fn inverse_twice_is_identity() {
    let a = Fraction::new(-3, 4).unwrap();
    let once = a.inverse().unwrap();
    assert_eq!(once, Fraction { num: 4, den: -3 });
    assert_eq!(once.inverse(), Ok(a));
}

#[test]
fn div_multiplies_by_inverse() {
    let a = Fraction::new(1, 2).unwrap();
    let b = Fraction::new(3, 4).unwrap();
    assert_eq!(Fraction::div(a, b), Ok(Fraction { num: 4, den: 6 }));
}

#[test]
fn div_by_zero_valued_fraction_is_division_by_zero() {
    let a = Fraction::new(1, 2).unwrap();
    let b = Fraction::new(0, 5).unwrap();
    assert_eq!(Fraction::div(a, b), Err(FractionError::DivisionByZero));
}

#[test]
fn comp_orders_values() {
    let half = Fraction::new(1, 2).unwrap();
    let third = Fraction::new(1, 3).unwrap();
    assert_eq!(Fraction::comp(half, third), 1);
    assert_eq!(Fraction::comp(third, half), -1);
}

#[test]
fn comp_sees_equal_values_across_representations() {
    let half = Fraction::new(1, 2).unwrap();
    let two_quarters = Fraction::new(2, 4).unwrap();
    assert_eq!(Fraction::comp(half, two_quarters), 0);
}

#[test]
fn comp_self_is_zero() {
    let a = Fraction::new(-7, 3).unwrap();
    assert_eq!(Fraction::comp(a, a), 0);
}

#[test]
fn comp_is_antisymmetric() {
    let a = Fraction::new(5, -3).unwrap();
    let b = Fraction::new(2, 7).unwrap();
    assert_eq!(Fraction::comp(a, b), -Fraction::comp(b, a));
}

#[test]
fn comp_handles_negative_denominators() {
    let a = Fraction::new(1, -2).unwrap();
    let b = Fraction::new(-1, 2).unwrap();
    assert_eq!(Fraction::comp(a, b), 0);
}

#[test]
fn simplify_reduces_by_gcd() {
    let a = Fraction::new(6, 8).unwrap();
    let r = a.simplify().unwrap();
    assert_eq!(r, Fraction { num: 3, den: 4 });
    assert_eq!(to_float(&r), to_float(&a));
}

#[test]
fn simplify_leaves_negative_numerator_alone() {
    let a = Fraction::new(-4, 6).unwrap();
    assert_eq!(a.simplify(), Ok(Fraction { num: -4, den: 6 }));
}

#[test]
fn simplify_truncates_over_negative_denominator() {
    let a = Fraction::new(4, -6).unwrap();
    assert_eq!(a.simplify(), Ok(Fraction { num: 1, den: -1 }));
}

#[test]
fn simplify_reports_collapsed_denominator() {
    let a = Fraction::new(5, -1).unwrap();
    assert_eq!(a.simplify(), Err(FractionError::DivisionByZero));
}

#[test]
fn gcd_of_positive_pair() {
    assert_eq!(gcd(12, 18), 6);
    assert_eq!(gcd(7, 3), 1);
    assert_eq!(gcd(9, 9), 9);
}

#[test]
fn gcd_returns_first_argument_outside_positive_pairs() {
    assert_eq!(gcd(0, 5), 0);
    assert_eq!(gcd(5, 0), 5);
    assert_eq!(gcd(-4, 6), -4);
}
