//! Greatest-common-divisor computation by repeated subtraction, its
//! specification, and the divisibility facts that fraction reduction needs.
//!
//! For two positive arguments the result is the mathematical greatest common
//! divisor. For any other arguments the subtraction loop never runs and the
//! first argument comes back unchanged; reduction relies on that exact shape.

use vstd::prelude::*;

verus! {

/// `d` divides `n`: some integer multiple of `d` equals `n`.
pub open spec fn divides(d: int, n: int) -> bool {
    exists|k: int| n == #[trigger] (d * k)
}

/// Introduces `divides` from an explicit multiplier.
pub proof fn lemma_divides_intro(d: int, n: int, k: int)
    requires
        n == d * k,
    ensures
        divides(d, n),
{
    assert(n == d * k);
}

/// What the subtraction loop computes: for positive `x` and `y` the greatest
/// common divisor, reached by replacing the larger argument with the
/// difference; otherwise `x` itself.
pub open spec fn spec_gcd(x: int, y: int) -> int
    decreases (if x > 0 && y > 0 { x + y } else { 0 }),
{
    if x > 0 && y > 0 {
        if x > y {
            spec_gcd(x - y, y)
        } else if y > x {
            spec_gcd(x, y - x)
        } else {
            x
        }
    } else {
        x
    }
}

/// For positive arguments the result is positive and at most either argument.
pub proof fn lemma_gcd_bounds(x: int, y: int)
    requires
        x > 0,
        y > 0,
    ensures
        1 <= spec_gcd(x, y),
        spec_gcd(x, y) <= x,
        spec_gcd(x, y) <= y,
    decreases x + y,
{
    if x > y {
        lemma_gcd_bounds(x - y, y);
    } else if y > x {
        lemma_gcd_bounds(x, y - x);
    }
}

/// For positive arguments the result divides both arguments.
pub proof fn lemma_gcd_divides(x: int, y: int)
    requires
        x > 0,
        y > 0,
    ensures
        divides(spec_gcd(x, y), x),
        divides(spec_gcd(x, y), y),
    decreases x + y,
{
    let g = spec_gcd(x, y);
    if x > y {
        lemma_gcd_divides(x - y, y);
        let k1 = choose|k: int| x - y == #[trigger] (g * k);
        let k2 = choose|k: int| y == #[trigger] (g * k);
        assert(x == g * (k1 + k2)) by (nonlinear_arith)
            requires
                x - y == g * k1,
                y == g * k2,
        ;
        lemma_divides_intro(g, x, k1 + k2);
    } else if y > x {
        lemma_gcd_divides(x, y - x);
        let k1 = choose|k: int| x == #[trigger] (g * k);
        let k2 = choose|k: int| y - x == #[trigger] (g * k);
        assert(y == g * (k1 + k2)) by (nonlinear_arith)
            requires
                x == g * k1,
                y - x == g * k2,
        ;
        lemma_divides_intro(g, y, k1 + k2);
    } else {
        assert(x == g * 1);
        lemma_divides_intro(g, x, 1);
    }
}

/// A result greater than one forces the first argument to be at least that
/// large: for non-positive `x` the result is `x` itself, and for positive
/// arguments it is bounded by both.
pub proof fn lemma_gcd_gt_one(x: int, y: int)
    requires
        spec_gcd(x, y) > 1,
    ensures
        x >= spec_gcd(x, y),
{
    if x > 0 && y > 0 {
        lemma_gcd_bounds(x, y);
    }
}

/// Division that truncates toward zero, as the machine division of signed
/// integers does. Specification-level `/` rounds toward negative infinity
/// on a negative dividend, so the negative cases are spelled out.
pub open spec fn trunc_div(a: int, b: int) -> int {
    if a == 0 {
        0
    } else if a > 0 && b > 0 {
        a / b
    } else if a < 0 && b < 0 {
        (-a) / (-b)
    } else if a < 0 {
        -((-a) / b)
    } else {
        -(a / (-b))
    }
}

/// When the divisor divides the dividend exactly, truncating division
/// inverts the multiplication.
pub proof fn lemma_trunc_div_exact(a: int, b: int)
    requires
        b >= 1,
        divides(b, a),
    ensures
        trunc_div(a, b) * b == a,
{
    let k = choose|k: int| a == #[trigger] (b * k);
    if a == 0 {
    } else if a > 0 {
        vstd::arithmetic::div_mod::lemma_div_multiples_vanish(k, b);
        assert(a / b == (b * k) / b == k);
        assert(k * b == a) by (nonlinear_arith)
            requires
                a == b * k,
        ;
    } else {
        assert(-a == b * (-k)) by (nonlinear_arith)
            requires
                a == b * k,
        ;
        vstd::arithmetic::div_mod::lemma_div_multiples_vanish(-k, b);
        assert((-a) / b == (b * (-k)) / b == -k);
        assert(trunc_div(a, b) == k);
        assert(k * b == a) by (nonlinear_arith)
            requires
                a == b * k,
        ;
    }
}

/// Truncating division of a positive dividend by a divisor of at least two
/// stays non-negative, shrinks strictly, and keeps at least one when the
/// divisor is no larger than the dividend.
pub proof fn lemma_trunc_div_pos_bounds(a: int, b: int)
    requires
        a > 0,
        b >= 2,
    ensures
        0 <= trunc_div(a, b),
        trunc_div(a, b) < a,
        b <= a ==> 1 <= trunc_div(a, b),
{
    vstd::arithmetic::div_mod::lemma_div_pos_is_pos(a, b);
    vstd::arithmetic::div_mod::lemma_div_decreases(a, b);
    if b <= a {
        vstd::arithmetic::div_mod::lemma_div_by_self(b);
        vstd::arithmetic::div_mod::lemma_div_is_ordered(b, a, b);
    }
}

/// Truncating division of a negative dividend by a divisor of at least two
/// stays non-positive and shrinks strictly in magnitude.
pub proof fn lemma_trunc_div_neg_bounds(a: int, b: int)
    requires
        a < 0,
        b >= 2,
    ensures
        a < trunc_div(a, b),
        trunc_div(a, b) <= 0,
{
    vstd::arithmetic::div_mod::lemma_div_pos_is_pos(-a, b);
    vstd::arithmetic::div_mod::lemma_div_decreases(-a, b);
}

/// Greatest common divisor by repeated subtraction. For non-positive
/// arguments the loop never runs and `x` comes back unchanged.
pub fn gcd(x: i64, y: i64) -> (r: i64)
    ensures
        r as int == spec_gcd(x as int, y as int),
{
    let mut a: i64 = x;
    let mut b: i64 = y;
    while a > 0 && b > 0 && a != b
        invariant
            spec_gcd(a as int, b as int) == spec_gcd(x as int, y as int),
        decreases (if a > 0 && b > 0 { a as int + b as int } else { 0 }),
    {
        if a > b {
            a = a - b;
        } else {
            b = b - a;
        }
    }
    a
}

} // verus!
