//! The exact rational-number value type.
//!
//! A `Fraction` is a signed 64-bit numerator over a signed 64-bit
//! denominator. All operations return fresh values; none mutates in place.
//! Construction rejects a zero denominator, inversion rejects a zero
//! numerator, and every arithmetic step whose result would leave the 64-bit
//! range reports overflow instead of wrapping. Each executable operation is
//! pinned to its counterpart over the unbounded model `Rat`.

use vstd::prelude::*;
use crate::rat::{
    Rat, rat_eq, rat_zero, spec_add, spec_comp, spec_inv, spec_mult, spec_neg, spec_sub,
    lemma_rat_eq_trans,
};
use crate::gcd::{
    divides, gcd, lemma_gcd_bounds, lemma_gcd_divides, lemma_gcd_gt_one, lemma_trunc_div_exact,
    lemma_trunc_div_neg_bounds, lemma_trunc_div_pos_bounds, spec_gcd, trunc_div,
};

verus! {

/// The conditions under which an operation refuses to produce a value.
#[derive(Clone, Copy, Debug, PartialEq, Eq, Structural)]
pub enum FractionError {
    /// A denominator of zero was about to be formed or used.
    DivisionByZero,
    /// The integrator was asked to cross a non-empty interval with a step
    /// whose value is zero or negative.
    NonPositiveStep,
    /// A numerator or denominator computation left the 64-bit range.
    ArithmeticOverflow,
}

/// An exact rational number: a signed numerator over a signed denominator.
#[derive(Clone, Copy, Debug, PartialEq, Eq, Structural)]
pub struct Fraction {
    /// The numerator.
    pub num: i64,
    /// The denominator. Values built by this library keep it nonzero.
    pub den: i64,
}

impl View for Fraction {
    type V = Rat;

    open spec fn view(&self) -> Rat {
        Rat { num: self.num as int, den: self.den as int }
    }
}

/// An integer lies within the signed 64-bit range.
pub open spec fn fits_i64(n: int) -> bool {
    i64::MIN <= n <= i64::MAX
}

/// The canonical zero fraction, `0/1`.
pub open spec fn zero_fraction() -> Fraction {
    Fraction { num: 0, den: 1 }
}

impl Fraction {
    /// The denominator is nonzero, so the value denotes a rational number.
    pub open spec fn wf(&self) -> bool {
        self@.den != 0
    }

    /// Builds a fraction from a numerator and a denominator, rejecting a
    /// zero denominator.
    pub fn new(n: i64, d: i64) -> (r: Result<Fraction, FractionError>)
        ensures
            d != 0 ==> r == Ok::<Fraction, FractionError>(Fraction { num: n, den: d }),
            d == 0 ==> r == Err::<Fraction, FractionError>(FractionError::DivisionByZero),
            r matches Ok(f) ==> f.wf(),
    {
        if d == 0 {
            Err(FractionError::DivisionByZero)
        } else {
            Ok(Fraction { num: n, den: d })
        }
    }

    /// The canonical zero value, `0/1`.
    pub fn zero() -> (r: Fraction)
        ensures
            r == zero_fraction(),
            r@ == rat_zero(),
            r.wf(),
    {
        Fraction { num: 0, den: 1 }
    }

    /// The negation: the numerator flips sign, the denominator stays.
    pub fn negative(&self) -> (r: Result<Fraction, FractionError>)
        requires
            self.wf(),
        ensures
            r == spec_checked_neg(*self),
            r matches Ok(f) ==> f@ == spec_neg(self@) && f.wf(),
    {
        if self.num == i64::MIN {
            Err(FractionError::ArithmeticOverflow)
        } else {
            Ok(Fraction { num: -self.num, den: self.den })
        }
    }

    /// The multiplicative inverse: numerator and denominator swap. A zero
    /// numerator would put zero in the denominator and is rejected.
    pub fn inverse(&self) -> (r: Result<Fraction, FractionError>)
        requires
            self.wf(),
        ensures
            r == spec_checked_inverse(*self),
            r matches Ok(f) ==> f@ == spec_inv(self@) && f.wf(),
    {
        if self.num == 0 {
            Err(FractionError::DivisionByZero)
        } else {
            Ok(Fraction { num: self.den, den: self.num })
        }
    }

    /// The product: numerators and denominators multiply componentwise.
    pub fn mult(x: Fraction, y: Fraction) -> (r: Result<Fraction, FractionError>)
        requires
            x.wf(),
            y.wf(),
        ensures
            r == spec_checked_mult(x, y),
            r matches Ok(f) ==> f@ == spec_mult(x@, y@) && f.wf(),
    {
        let n = match x.num.checked_mul(y.num) {
            Some(v) => v,
            None => {
                return Err(FractionError::ArithmeticOverflow);
            },
        };
        let d = match x.den.checked_mul(y.den) {
            Some(v) => v,
            None => {
                return Err(FractionError::ArithmeticOverflow);
            },
        };
        proof {
            assert(x@.den * y@.den != 0) by (nonlinear_arith)
                requires
                    x@.den != 0,
                    y@.den != 0,
            ;
        }
        Ok(Fraction { num: n, den: d })
    }

    /// The sum. Distinct denominators are cross-multiplied; a shared
    /// denominator is kept and the numerators are added directly.
    pub fn add(x: Fraction, y: Fraction) -> (r: Result<Fraction, FractionError>)
        requires
            x.wf(),
            y.wf(),
        ensures
            r == spec_checked_add(x, y),
            r matches Ok(f) ==> f@ == spec_add(x@, y@) && f.wf(),
    {
        if x.den != y.den {
            let a = match x.num.checked_mul(y.den) {
                Some(v) => v,
                None => {
                    return Err(FractionError::ArithmeticOverflow);
                },
            };
            let b = match y.num.checked_mul(x.den) {
                Some(v) => v,
                None => {
                    return Err(FractionError::ArithmeticOverflow);
                },
            };
            let n = match a.checked_add(b) {
                Some(v) => v,
                None => {
                    return Err(FractionError::ArithmeticOverflow);
                },
            };
            let d = match x.den.checked_mul(y.den) {
                Some(v) => v,
                None => {
                    return Err(FractionError::ArithmeticOverflow);
                },
            };
            proof {
                assert(x@.den * y@.den != 0) by (nonlinear_arith)
                    requires
                        x@.den != 0,
                        y@.den != 0,
                ;
            }
            Ok(Fraction { num: n, den: d })
        } else {
            let n = match x.num.checked_add(y.num) {
                Some(v) => v,
                None => {
                    return Err(FractionError::ArithmeticOverflow);
                },
            };
            Ok(Fraction { num: n, den: x.den })
        }
    }

    /// The difference: the sum with the negated subtrahend.
    pub fn sub(x: Fraction, y: Fraction) -> (r: Result<Fraction, FractionError>)
        requires
            x.wf(),
            y.wf(),
        ensures
            r == spec_checked_sub(x, y),
            r matches Ok(f) ==> f@ == spec_sub(x@, y@) && f.wf(),
    {
        let ny = match y.negative() {
            Ok(v) => v,
            Err(e) => {
                return Err(e);
            },
        };
        Fraction::add(x, ny)
    }

    /// The quotient: the product with the inverted divisor. A divisor whose
    /// numerator is zero is rejected.
    pub fn div(x: Fraction, y: Fraction) -> (r: Result<Fraction, FractionError>)
        requires
            x.wf(),
            y.wf(),
        ensures
            r == spec_checked_div(x, y),
            r matches Ok(f) ==> f@ == spec_mult(x@, spec_inv(y@)) && f.wf(),
    {
        let iy = match y.inverse() {
            Ok(v) => v,
            Err(e) => {
                return Err(e);
            },
        };
        Fraction::mult(x, iy)
    }

    /// Three-way comparison of the denoted rational numbers: 1 when
    /// `x > y`, 0 when they are equal, -1 when `x < y`. The cross products
    /// are formed in 128-bit arithmetic, where they cannot overflow.
    pub fn comp(x: Fraction, y: Fraction) -> (r: i8)
        requires
            x.wf(),
            y.wf(),
        ensures
            r as int == spec_comp(x@, y@),
            -1 <= r <= 1,
    {
        proof {
            lemma_i64_product_fits_i128(x@.num, y@.den);
            lemma_i64_product_fits_i128(y@.num, x@.den);
            lemma_i64_product_fits_i128(x@.den, y@.den);
        }
        let l: i128 = (x.num as i128) * (y.den as i128);
        let r: i128 = (y.num as i128) * (x.den as i128);
        let dp: i128 = (x.den as i128) * (y.den as i128);
        if dp > 0 {
            if l > r {
                1
            } else if l == r {
                0
            } else {
                -1
            }
        } else {
            if l < r {
                1
            } else if l == r {
                0
            } else {
                -1
            }
        }
    }
}

/// The product of two signed 64-bit values always fits in 128 bits.
proof fn lemma_i64_product_fits_i128(a: int, b: int)
    requires
        fits_i64(a),
        fits_i64(b),
    ensures
        i128::MIN <= a * b <= i128::MAX,
{
    assert(a * b <= 0x8000_0000_0000_0000 * 0x8000_0000_0000_0000 && a * b
        >= -(0x8000_0000_0000_0000 * 0x8000_0000_0000_0000)) by (nonlinear_arith)
        requires
            -0x8000_0000_0000_0000 <= a <= 0x7fff_ffff_ffff_ffff,
            -0x8000_0000_0000_0000 <= b <= 0x7fff_ffff_ffff_ffff,
    ;
}

/// The negation succeeds unless the numerator is the minimum 64-bit value,
/// whose negation does not fit.
pub open spec fn spec_checked_neg(x: Fraction) -> Result<Fraction, FractionError> {
    if fits_i64(-x@.num) {
        Ok(Fraction { num: (-x@.num) as i64, den: x.den })
    } else {
        Err(FractionError::ArithmeticOverflow)
    }
}

/// The inversion succeeds exactly when the numerator is nonzero.
pub open spec fn spec_checked_inverse(x: Fraction) -> Result<Fraction, FractionError> {
    if x@.num == 0 {
        Err(FractionError::DivisionByZero)
    } else {
        Ok(Fraction { num: x.den, den: x.num })
    }
}

/// Both components of the product stay in the 64-bit range.
pub open spec fn mult_fits(x: Rat, y: Rat) -> bool {
    fits_i64(x.num * y.num) && fits_i64(x.den * y.den)
}

/// The product, or overflow when a component leaves the 64-bit range.
pub open spec fn spec_checked_mult(x: Fraction, y: Fraction) -> Result<Fraction, FractionError> {
    if mult_fits(x@, y@) {
        Ok(
            Fraction {
                num: (spec_mult(x@, y@).num) as i64,
                den: (spec_mult(x@, y@).den) as i64,
            },
        )
    } else {
        Err(FractionError::ArithmeticOverflow)
    }
}

/// Every intermediate value of the sum stays in the 64-bit range: for
/// distinct denominators the two cross products, their sum and the
/// denominator product; for a shared denominator the numerator sum.
pub open spec fn add_fits(x: Rat, y: Rat) -> bool {
    if x.den != y.den {
        &&& fits_i64(x.num * y.den)
        &&& fits_i64(y.num * x.den)
        &&& fits_i64(x.num * y.den + y.num * x.den)
        &&& fits_i64(x.den * y.den)
    } else {
        fits_i64(x.num + y.num)
    }
}

/// The sum, or overflow when an intermediate value leaves the 64-bit range.
pub open spec fn spec_checked_add(x: Fraction, y: Fraction) -> Result<Fraction, FractionError> {
    if add_fits(x@, y@) {
        Ok(
            Fraction { num: (spec_add(x@, y@).num) as i64, den: (spec_add(x@, y@).den) as i64 },
        )
    } else {
        Err(FractionError::ArithmeticOverflow)
    }
}

/// The difference: negation of the subtrahend, then the sum, with the
/// negation's overflow reported first.
pub open spec fn spec_checked_sub(x: Fraction, y: Fraction) -> Result<Fraction, FractionError> {
    match spec_checked_neg(y) {
        Ok(ny) => spec_checked_add(x, ny),
        Err(e) => Err(e),
    }
}

/// The quotient: inversion of the divisor, then the product, with the
/// inversion's rejection of a zero numerator reported first.
pub open spec fn spec_checked_div(x: Fraction, y: Fraction) -> Result<Fraction, FractionError> {
    match spec_checked_inverse(y) {
        Ok(iy) => spec_checked_mult(x, iy),
        Err(e) => Err(e),
    }
}

/// What repeated reduction computes: as long as the greatest common divisor
/// of numerator and denominator exceeds one, both are divided by it (with
/// machine truncation), and the first pair whose divisor is at most one
/// comes back.
pub open spec fn spec_simplify(x: Rat) -> Rat
    decreases (if x.num > 0 { x.num } else { 0 }),
        via spec_simplify_decreases
{
    let g = spec_gcd(x.num, x.den);
    if g > 1 {
        spec_simplify(Rat { num: trunc_div(x.num, g), den: trunc_div(x.den, g) })
    } else {
        x
    }
}

#[via_fn]
proof fn spec_simplify_decreases(x: Rat) {
    let g = spec_gcd(x.num, x.den);
    if g > 1 {
        lemma_gcd_gt_one(x.num, x.den);
        lemma_trunc_div_pos_bounds(x.num, g);
    }
}

/// Reduction of a value with a positive denominator keeps the denominator
/// positive and bounded, keeps a positive numerator positive and bounded,
/// leaves a non-positive numerator alone, and preserves the denoted
/// rational number.
pub proof fn lemma_simplify_pos_den(x: Rat)
    requires
        x.den > 0,
    ensures
        rat_eq(spec_simplify(x), x),
        0 < spec_simplify(x).den <= x.den,
        x.num > 0 ==> 0 < spec_simplify(x).num <= x.num,
        x.num <= 0 ==> spec_simplify(x) == x,
    decreases (if x.num > 0 { x.num } else { 0 }),
{
    let g = spec_gcd(x.num, x.den);
    if x.num <= 0 {
        assert(g == x.num);
        assert(rat_eq(x, x));
    } else {
        lemma_gcd_bounds(x.num, x.den);
        if g > 1 {
            lemma_gcd_divides(x.num, x.den);
            lemma_trunc_div_exact(x.num, g);
            lemma_trunc_div_exact(x.den, g);
            lemma_trunc_div_pos_bounds(x.num, g);
            lemma_trunc_div_pos_bounds(x.den, g);
            let y = Rat { num: trunc_div(x.num, g), den: trunc_div(x.den, g) };
            assert(y.num * g == x.num && y.den * g == x.den);
            assert(y.num >= 1 && y.den >= 1);
            assert(rat_eq(y, x)) by (nonlinear_arith)
                requires
                    y.num * g == x.num,
                    y.den * g == x.den,
                    rat_eq(y, x) == (y.num * x.den == x.num * y.den),
            ;
            lemma_simplify_pos_den(y);
            lemma_rat_eq_trans(spec_simplify(y), y, x);
            assert(spec_simplify(x) == spec_simplify(y));
        } else {
            assert(rat_eq(x, x));
        }
    }
}

/// Reduction of a value with a negative denominator preserves the denoted
/// rational number and keeps the denominator negative, provided a numerator
/// above one divides the denominator exactly.
pub proof fn lemma_simplify_neg_den(x: Rat)
    requires
        x.den < 0,
        x.num > 1 ==> divides(x.num, x.den),
    ensures
        rat_eq(spec_simplify(x), x),
        spec_simplify(x).den < 0,
        spec_simplify(x).num <= x.num,
        x.num <= 0 ==> spec_simplify(x) == x,
{
    let g = spec_gcd(x.num, x.den);
    assert(g == x.num);
    if g > 1 {
        crate::gcd::lemma_divides_intro(g, x.num, 1);
        lemma_trunc_div_exact(x.num, g);
        lemma_trunc_div_exact(x.den, g);
        let y = Rat { num: trunc_div(x.num, g), den: trunc_div(x.den, g) };
        assert(y.num * g == x.num && y.den * g == x.den);
        assert(y.num == 1) by (nonlinear_arith)
            requires
                y.num * g == g,
                g > 1,
        ;
        assert(y.den < 0) by (nonlinear_arith)
            requires
                y.den * g == x.den,
                x.den < 0,
                g > 1,
        ;
        assert(spec_gcd(y.num, y.den) == 1);
        assert(spec_simplify(y) == y);
        assert(spec_simplify(x) == y);
        assert(rat_eq(y, x)) by (nonlinear_arith)
            requires
                y.num == 1,
                y.den * g == x.den,
                x.num == g,
                rat_eq(y, x) == (y.num * x.den == x.num * y.den),
        ;
    } else {
        assert(rat_eq(x, x));
    }
}

/// Reduction, or the report that it ran into a zero denominator. A zero
/// denominator arises only when a numerator above one stands over a smaller
/// negative denominator, where the truncating division reaches zero.
pub open spec fn spec_checked_simplify(x: Fraction) -> Result<Fraction, FractionError> {
    let s = spec_simplify(x@);
    if s.den == 0 {
        Err(FractionError::DivisionByZero)
    } else {
        Ok(Fraction { num: s.num as i64, den: s.den as i64 })
    }
}

impl Fraction {
    /// Repeatedly divides numerator and denominator by their greatest
    /// common divisor until that divisor is at most one, and rejects the
    /// result if the truncating division drove the denominator to zero.
    pub fn simplify(&self) -> (r: Result<Fraction, FractionError>)
        requires
            self.wf(),
        ensures
            r == spec_checked_simplify(*self),
            r matches Ok(f) ==> f@ == spec_simplify(self@),
            self@.den > 0 ==> (r matches Ok(f) ==> f.wf() && f@.den > 0),
    {
        let mut n: i64 = self.num;
        let mut d: i64 = self.den;
        let mut g: i64 = gcd(n, d);
        while g > 1
            invariant
                g as int == spec_gcd(n as int, d as int),
                spec_simplify(Rat { num: n as int, den: d as int }) == spec_simplify(self@),
            decreases (if n > 0 { n as int } else { 0 }),
        {
            proof {
                lemma_gcd_gt_one(n as int, d as int);
                lemma_trunc_div_pos_bounds(n as int, g as int);
                if d > 0 {
                    lemma_trunc_div_pos_bounds(d as int, g as int);
                } else if d < 0 {
                    lemma_trunc_div_neg_bounds(d as int, g as int);
                }
            }
            let n2 = n.checked_div(g).unwrap();
            let d2 = d.checked_div(g).unwrap();
            proof {
                assert(n2 as int == trunc_div(n as int, g as int));
                assert(d2 as int == trunc_div(d as int, g as int));
            }
            n = n2;
            d = d2;
            g = gcd(n, d);
        }
        proof {
            if self@.den > 0 {
                lemma_simplify_pos_den(self@);
            }
        }
        if d == 0 {
            Err(FractionError::DivisionByZero)
        } else {
            Ok(Fraction { num: n, den: d })
        }
    }
}

/// Reduction preserves the denoted value: the reduced fraction and the
/// original denote the same rational number, and the reduced denominator is
/// nonzero. The one corner left out is a numerator above one over a negative
/// denominator it does not divide, where the divisor search returns the bare
/// numerator and the truncating division moves the value.
pub proof fn lemma_simplify_preserves_value(a: Fraction)
    requires
        a.wf(),
        !(a@.num > 1 && a@.den < 0 && !divides(a@.num, a@.den)),
    ensures
        rat_eq(spec_simplify(a@), a@),
        spec_simplify(a@).den != 0,
{
    if a@.den > 0 {
        lemma_simplify_pos_den(a@);
    } else {
        lemma_simplify_neg_den(a@);
    }
}

/// Adding a fraction and then subtracting the same fraction recovers a value
/// equal, as a rational number, to the original.
pub proof fn lemma_add_sub_recovers(a: Fraction, b: Fraction)
    requires
        a.wf(),
        b.wf(),
    ensures
        rat_eq(spec_sub(spec_add(a@, b@), b@), a@),
{
    crate::rat::lemma_add_sub_roundtrip(a@, b@);
}

/// Inverting a fraction with a nonzero numerator twice gives back exactly
/// the original value.
pub proof fn lemma_inverse_involution(a: Fraction)
    requires
        a.wf(),
        a@.num != 0,
    ensures
        spec_checked_inverse(a) is Ok,
        spec_checked_inverse(spec_checked_inverse(a)->Ok_0) == Ok::<Fraction, FractionError>(a),
        spec_inv(spec_inv(a@)) == a@,
{
    let b = spec_checked_inverse(a)->Ok_0;
    assert(b.num == a.den && b.den == a.num);
    assert(spec_checked_inverse(b)->Ok_0 == a);
}

/// A fraction compares as equal to itself.
pub proof fn lemma_comp_self(a: Fraction)
    requires
        a.wf(),
    ensures
        spec_comp(a@, a@) == 0,
{
    crate::rat::lemma_comp_reflexive(a@);
}

/// Comparison is antisymmetric: swapping the operands flips the sign.
pub proof fn lemma_comp_antisym(a: Fraction, b: Fraction)
    requires
        a.wf(),
        b.wf(),
    ensures
        spec_comp(a@, b@) == -spec_comp(b@, a@),
{
    crate::rat::lemma_comp_antisymmetric(a@, b@);
}

} // verus!
