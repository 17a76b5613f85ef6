//! Left-endpoint Riemann summation in exact fraction arithmetic.
//!
//! `integral` sums `f(x) * step` for `x = min, min + step, min + 2*step, ...`
//! while `x < max`, reducing the running value after every addition, exactly
//! as the recursive definition `sum(min) = simplify(f(min)*step + rest)`
//! prescribes. A step that cannot move `min` toward `max` is rejected up
//! front, and overflow or a collapsed denominator anywhere in the chain is
//! reported in place of a value.

use vstd::prelude::*;
use crate::rat::{Rat, rat_eq, rat_zero, spec_add, spec_comp};
use crate::fraction::{
    spec_checked_add, spec_checked_mult, spec_checked_simplify, spec_simplify,
    lemma_simplify_pos_den, zero_fraction, Fraction, FractionError,
};
use vstd::arithmetic::div_mod::{
    lemma_div_pos_is_pos, lemma_fundamental_div_mod, lemma_fundamental_div_mod_converse,
    lemma_mod_division_less_than_divisor,
};

verus! {

/// A pure mapping from fractions to fractions, the shape of function the
/// integrator sums. The specification-level result pins the executable
/// evaluation down completely.
pub trait Integrand {
    /// The value the integrand takes at `x`, or the arithmetic error its
    /// evaluation runs into.
    spec fn spec_eval(&self, x: Fraction) -> Result<Fraction, FractionError>;

    /// Evaluates the integrand at `x`.
    fn eval(&self, x: Fraction) -> (r: Result<Fraction, FractionError>)
        requires
            x.wf(),
        ensures
            r == self.spec_eval(x),
            r matches Ok(v) ==> v.wf(),
    ;
}

/// The squaring integrand, `x` to `x * x`.
pub struct Square;

impl Integrand for Square {
    open spec fn spec_eval(&self, x: Fraction) -> Result<Fraction, FractionError> {
        spec_checked_mult(x, x)
    }

    fn eval(&self, x: Fraction) -> (r: Result<Fraction, FractionError>) {
        Fraction::mult(x, x)
    }
}

/// The identity integrand, `x` to `x`.
pub struct Identity;

impl Integrand for Identity {
    open spec fn spec_eval(&self, x: Fraction) -> Result<Fraction, FractionError> {
        Ok(x)
    }

    fn eval(&self, x: Fraction) -> (r: Result<Fraction, FractionError>) {
        Ok(x)
    }
}

/// The constant integrand, `x` to `1/1`.
pub struct ConstOne;

impl Integrand for ConstOne {
    open spec fn spec_eval(&self, x: Fraction) -> Result<Fraction, FractionError> {
        Ok(Fraction { num: 1, den: 1 })
    }

    fn eval(&self, x: Fraction) -> (r: Result<Fraction, FractionError>) {
        Ok(Fraction { num: 1, den: 1 })
    }
}

/// How many steps of size `step` remain before a point at `min` reaches
/// `max`: the cross-multiplied distance `(max - min) / step` rounded up, and
/// zero once the distance is no longer positive. Meaningful when all three
/// denominators and the step's value are positive.
pub open spec fn steps_left(min: Rat, max: Rat, step: Rat) -> int {
    let a = (max.num * min.den - min.num * max.den) * step.den;
    let b = min.den * max.den * step.num;
    if a <= 0 {
        0
    } else {
        (a + b - 1) / b
    }
}

/// The ceiling quotient `(a + b - 1) / b` brackets `a` between consecutive
/// multiples of `b`.
proof fn lemma_ceil_bounds(a: int, b: int)
    requires
        b > 0,
    ensures
        ((a + b - 1) / b - 1) * b < a <= ((a + b - 1) / b) * b,
{
    let c = (a + b - 1) / b;
    lemma_fundamental_div_mod(a + b - 1, b);
    lemma_mod_division_less_than_divisor(a + b - 1, b);
    let r = (a + b - 1) % b;
    assert(a == b * c + r - b + 1);
    assert((c - 1) * b == c * b - b && c * b == b * c) by (nonlinear_arith);
}

/// Bracketing `a` between consecutive multiples of `b` determines the
/// ceiling quotient.
proof fn lemma_ceil_from_bounds(a: int, b: int, c: int)
    requires
        b > 0,
        (c - 1) * b < a <= c * b,
    ensures
        (a + b - 1) / b == c,
{
    let r = a + b - 1 - c * b;
    assert((c - 1) * b == c * b - b) by (nonlinear_arith);
    assert(0 <= r < b);
    lemma_fundamental_div_mod_converse(a + b - 1, b, c, r);
}

/// Quotients with equal cross products have equal ceilings.
proof fn lemma_ceil_equal_ratio(a1: int, b1: int, a2: int, b2: int)
    requires
        b1 > 0,
        b2 > 0,
        a1 * b2 == a2 * b1,
    ensures
        (a1 + b1 - 1) / b1 == (a2 + b2 - 1) / b2,
{
    let c = (a1 + b1 - 1) / b1;
    lemma_ceil_bounds(a1, b1);
    assert((c - 1) * b2 < a2) by (nonlinear_arith)
        requires
            (c - 1) * b1 < a1,
            a1 * b2 == a2 * b1,
            b1 > 0,
            b2 > 0,
    ;
    assert(a2 <= c * b2) by (nonlinear_arith)
        requires
            a1 <= c * b1,
            a1 * b2 == a2 * b1,
            b1 > 0,
            b2 > 0,
    ;
    lemma_ceil_from_bounds(a2, b2, c);
}

/// Moving the dividend down by one divisor moves the ceiling down by one.
proof fn lemma_ceil_minus(a: int, b: int)
    requires
        b > 0,
    ensures
        ((a - b) + b - 1) / b == (a + b - 1) / b - 1,
{
    let c = (a + b - 1) / b;
    lemma_ceil_bounds(a, b);
    assert((c - 2) * b < a - b <= (c - 1) * b) by (nonlinear_arith)
        requires
            (c - 1) * b < a <= c * b,
    ;
    lemma_ceil_from_bounds(a - b, b, c - 1);
}

/// The measure depends only on the rational number `min` denotes, not on its
/// representation.
proof fn lemma_steps_left_respects_value(m1: Rat, m2: Rat, max: Rat, step: Rat)
    requires
        m1.den > 0,
        m2.den > 0,
        max.den > 0,
        step.den > 0,
        step.num > 0,
        rat_eq(m1, m2),
    ensures
        steps_left(m1, max, step) == steps_left(m2, max, step),
{
    let d1 = max.num * m1.den - m1.num * max.den;
    let d2 = max.num * m2.den - m2.num * max.den;
    let a1 = d1 * step.den;
    let b1 = m1.den * max.den * step.num;
    let a2 = d2 * step.den;
    let b2 = m2.den * max.den * step.num;
    assert(b1 > 0 && b2 > 0) by (nonlinear_arith)
        requires
            m1.den > 0,
            m2.den > 0,
            max.den > 0,
            step.num > 0,
            b1 == m1.den * max.den * step.num,
            b2 == m2.den * max.den * step.num,
    ;
    assert(d1 * m2.den == d2 * m1.den) by (nonlinear_arith)
        requires
            m1.num * m2.den == m2.num * m1.den,
            d1 == max.num * m1.den - m1.num * max.den,
            d2 == max.num * m2.den - m2.num * max.den,
    ;
    assert(a1 * m2.den == a2 * m1.den) by (nonlinear_arith)
        requires
            d1 * m2.den == d2 * m1.den,
            a1 == d1 * step.den,
            a2 == d2 * step.den,
    ;
    assert(a1 * b2 == a2 * b1) by (nonlinear_arith)
        requires
            a1 * m2.den == a2 * m1.den,
            b1 == m1.den * max.den * step.num,
            b2 == m2.den * max.den * step.num,
    ;
    assert(a1 > 0 <==> a2 > 0) by (nonlinear_arith)
        requires
            a1 * b2 == a2 * b1,
            b1 > 0,
            b2 > 0,
    ;
    if a1 > 0 {
        lemma_ceil_equal_ratio(a1, b1, a2, b2);
    }
}

/// Taking one step moves the measure strictly down (and never below zero),
/// and the reduced new point keeps a positive denominator. This is what lets
/// the summation terminate.
proof fn lemma_steps_left_decreases(min: Rat, max: Rat, step: Rat)
    requires
        min.den > 0,
        max.den > 0,
        step.den > 0,
        spec_comp(min, max) == -1,
        spec_comp(step, rat_zero()) == 1,
    ensures
        spec_simplify(spec_add(min, step)).den > 0,
        0 <= steps_left(spec_simplify(spec_add(min, step)), max, step) < steps_left(
            min,
            max,
            step,
        ),
{
    let d = max.num * min.den - min.num * max.den;
    let a = d * step.den;
    let b = min.den * max.den * step.num;
    assert(step.num > 0);
    assert(b > 0) by (nonlinear_arith)
        requires
            min.den > 0,
            max.den > 0,
            step.num > 0,
            b == min.den * max.den * step.num,
    ;
    assert(min.den * max.den > 0) by (nonlinear_arith)
        requires
            min.den > 0,
            max.den > 0,
    ;
    assert(d > 0);
    assert(a > 0) by (nonlinear_arith)
        requires
            d > 0,
            step.den > 0,
            a == d * step.den,
    ;
    let c = (a + b - 1) / b;
    assert(steps_left(min, max, step) == c);
    lemma_ceil_bounds(a, b);
    assert(c >= 1) by (nonlinear_arith)
        requires
            a <= c * b,
            a > 0,
            b > 0,
    ;
    let next = spec_add(min, step);
    assert(next.den > 0) by (nonlinear_arith)
        requires
            min.den > 0,
            step.den > 0,
            next.den == min.den * step.den || next.den == min.den,
    ;
    let dn = max.num * next.den - next.num * max.den;
    let an = dn * step.den;
    let bn = next.den * max.den * step.num;
    let q = if min.den != step.den { step.den } else { 1int };
    if min.den != step.den {
        assert(dn == d * step.den - step.num * min.den * max.den) by (nonlinear_arith)
            requires
                d == max.num * min.den - min.num * max.den,
                dn == max.num * next.den - next.num * max.den,
                next.num == min.num * step.den + step.num * min.den,
                next.den == min.den * step.den,
        ;
        assert(dn == a - b) by (nonlinear_arith)
            requires
                dn == d * step.den - step.num * min.den * max.den,
                a == d * step.den,
                b == min.den * max.den * step.num,
        ;
        assert(an == (a - b) * q);
        assert(bn == b * q) by (nonlinear_arith)
            requires
                bn == next.den * max.den * step.num,
                next.den == min.den * step.den,
                b == min.den * max.den * step.num,
                q == step.den,
        ;
    } else {
        assert(dn * min.den == a - b) by (nonlinear_arith)
            requires
                d == max.num * min.den - min.num * max.den,
                dn == max.num * next.den - next.num * max.den,
                next.num == min.num + step.num,
                next.den == min.den,
                a == d * step.den,
                b == min.den * max.den * step.num,
                step.den == min.den,
        ;
        assert(an == (a - b) * q) by (nonlinear_arith)
            requires
                dn * min.den == a - b,
                an == dn * step.den,
                step.den == min.den,
                q == 1,
        ;
        assert(bn == b * q);
    }
    assert(bn > 0) by (nonlinear_arith)
        requires
            b > 0,
            q >= 1,
            bn == b * q,
    ;
    if an <= 0 {
        assert(steps_left(next, max, step) == 0);
    } else {
        assert(a - b > 0) by (nonlinear_arith)
            requires
                an == (a - b) * q,
                an > 0,
                q >= 1,
        ;
        assert(an * b == (a - b) * bn) by (nonlinear_arith)
            requires
                an == (a - b) * q,
                bn == b * q,
        ;
        lemma_ceil_equal_ratio(an, bn, a - b, b);
        lemma_ceil_minus(a, b);
        assert(steps_left(next, max, step) == c - 1);
        lemma_div_pos_is_pos(an + bn - 1, bn);
    }
    lemma_simplify_pos_den(next);
    lemma_steps_left_respects_value(spec_simplify(next), next, max, step);
}

/// Folds one term into an already-computed rest of the sum exactly as the
/// recursive definition does: add, then reduce, with errors passed through.
pub open spec fn accumulate(term: Fraction, rest: Result<Fraction, FractionError>) -> Result<
    Fraction,
    FractionError,
> {
    match rest {
        Err(e) => Err(e),
        Ok(racc) => match spec_checked_add(term, racc) {
            Err(e) => Err(e),
            Ok(s) => spec_checked_simplify(s),
        },
    }
}

/// The left Riemann sum of `f` over `[min, max)` with width `step`, as the
/// recursion defines it: no contribution once `min` is not below `max`; a
/// rejection of a step that is not positive over a non-empty interval;
/// otherwise `f(min) * step` plus the sum from the reduced `min + step`,
/// reduced again after the addition, with the first error anywhere in that
/// chain as the result. Meaningful for positive denominators, where every
/// step provably advances toward `max`.
pub open spec fn spec_integral<F: Integrand>(
    f: F,
    min: Fraction,
    max: Fraction,
    step: Fraction,
) -> Result<Fraction, FractionError>
    decreases steps_left(min@, max@, step@),
        when min@.den > 0 && max@.den > 0 && step@.den > 0
        via spec_integral_decreases::<F>
{
    if spec_comp(min@, max@) != -1 {
        Ok(zero_fraction())
    } else if spec_comp(step@, rat_zero()) != 1 {
        Err(FractionError::NonPositiveStep)
    } else {
        match f.spec_eval(min) {
            Err(e) => Err(e),
            Ok(v) => match spec_checked_mult(v, step) {
                Err(e) => Err(e),
                Ok(term) => match spec_checked_add(min, step) {
                    Err(e) => Err(e),
                    Ok(next0) => match spec_checked_simplify(next0) {
                        Err(e) => Err(e),
                        Ok(next) => {
                            let rest = if spec_comp(next@, max@) == -1 {
                                spec_integral(f, next, max, step)
                            } else {
                                Ok(zero_fraction())
                            };
                            accumulate(term, rest)
                        },
                    },
                },
            },
        }
    }
}

#[via_fn]
proof fn spec_integral_decreases<F: Integrand>(f: F, min: Fraction, max: Fraction, step: Fraction) {
    if min@.den > 0 && max@.den > 0 && step@.den > 0 && spec_comp(min@, max@) == -1 && spec_comp(
        step@,
        rat_zero(),
    ) == 1 {
        match spec_checked_add(min, step) {
            Ok(next0) => {
                match spec_checked_simplify(next0) {
                    Ok(next) => {
                        lemma_steps_left_decreases(min@, max@, step@);
                        assert(next0@ == spec_add(min@, step@));
                        assert(next0@.den > 0) by (nonlinear_arith)
                            requires
                                min@.den > 0,
                                step@.den > 0,
                                next0@.den == min@.den * step@.den || next0@.den == min@.den,
                        ;
                        lemma_simplify_pos_den(next0@);
                        assert(next@ == spec_simplify(next0@));
                    },
                    Err(_) => {},
                }
            },
            Err(_) => {},
        }
    }
}

/// The record a run of the summation loop leaves behind: `mins` are the
/// successive left endpoints, `terms` the successive products `f(min) *
/// step`, and every evaluation, product, advance and reduction along the way
/// succeeded.
spec fn chain_wf<F: Integrand>(
    f: F,
    mins: Seq<Fraction>,
    terms: Seq<Fraction>,
    max: Fraction,
    step: Fraction,
) -> bool {
    &&& mins.len() == terms.len() + 1
    &&& max@.den > 0
    &&& step@.den > 0
    &&& spec_comp(step@, rat_zero()) == 1
    &&& forall|i: int| 0 <= i < mins.len() ==> (#[trigger] mins[i])@.den > 0
    &&& forall|i: int| 0 <= i < terms.len() ==> (#[trigger] terms[i]).wf()
    &&& forall|i: int| 0 <= i < terms.len() ==> spec_comp((#[trigger] mins[i])@, max@) == -1
    &&& forall|i: int| 0 <= i < terms.len() ==> (#[trigger] f.spec_eval(mins[i])) is Ok
    &&& forall|i: int|
        0 <= i < terms.len() ==> spec_checked_mult(f.spec_eval(#[trigger] mins[i])->Ok_0, step)
            == Ok::<Fraction, FractionError>(terms[i])
    &&& forall|i: int| 0 <= i < terms.len() ==> (#[trigger] spec_checked_add(mins[i], step)) is Ok
    &&& forall|i: int|
        0 <= i < terms.len() ==> spec_checked_simplify(
            spec_checked_add(#[trigger] mins[i], step)->Ok_0,
        ) == Ok::<Fraction, FractionError>(mins[i + 1])
}

/// One unrolling of the recursive definition along a recorded chain: the sum
/// from the `j`-th endpoint folds the `j`-th term into the sum from the next
/// endpoint.
proof fn lemma_chain_unroll<F: Integrand>(
    f: F,
    mins: Seq<Fraction>,
    terms: Seq<Fraction>,
    max: Fraction,
    step: Fraction,
    j: int,
)
    requires
        chain_wf(f, mins, terms, max, step),
        0 <= j < terms.len(),
    ensures
        spec_integral(f, mins[j], max, step) == accumulate(
            terms[j],
            spec_integral(f, mins[j + 1], max, step),
        ),
{
    let next = spec_checked_simplify(spec_checked_add(mins[j], step)->Ok_0)->Ok_0;
    assert(next == mins[j + 1]);
    if spec_comp(mins[j + 1]@, max@) != -1 {
        assert(spec_integral(f, mins[j + 1], max, step) == Ok::<Fraction, FractionError>(
            zero_fraction(),
        ));
    }
}

/// An error in the sum from any recorded endpoint is the error of the whole
/// sum: the fold passes it outward unchanged.
proof fn lemma_chain_err<F: Integrand>(
    f: F,
    mins: Seq<Fraction>,
    terms: Seq<Fraction>,
    max: Fraction,
    step: Fraction,
    j: int,
    e: FractionError,
)
    requires
        chain_wf(f, mins, terms, max, step),
        0 <= j <= terms.len(),
        spec_integral(f, mins[j], max, step) == Err::<Fraction, FractionError>(e),
    ensures
        spec_integral(f, mins[0], max, step) == Err::<Fraction, FractionError>(e),
    decreases j,
{
    if j > 0 {
        lemma_chain_unroll(f, mins, terms, max, step, j - 1);
        lemma_chain_err(f, mins, terms, max, step, j - 1, e);
    }
}

/// Computes the left Riemann sum of `function` over `[min, max)` with width
/// `step`: the reduced running total of `function(x) * step` for `x = min,
/// min + step, ...` while `x < max`. An empty interval yields the zero
/// fraction; a step that is not positive over a non-empty interval yields
/// `NonPositiveStep`; overflow or a collapsed denominator anywhere along the
/// chain yields that error, exactly where the recursive definition places
/// it.
pub fn integral<F: Integrand>(
    function: F,
    min: Fraction,
    max: Fraction,
    step: Fraction,
) -> (r: Result<Fraction, FractionError>)
    requires
        min@.den > 0,
        max@.den > 0,
        step@.den > 0,
    ensures
        r == spec_integral(function, min, max, step),
{
    if Fraction::comp(min, max) != -1 {
        return Ok(Fraction::zero());
    }
    if Fraction::comp(step, Fraction::zero()) != 1 {
        return Err(FractionError::NonPositiveStep);
    }
    let mut cur = min;
    let mut terms: Vec<Fraction> = Vec::new();
    let ghost mut mins: Seq<Fraction> = seq![min];
    while Fraction::comp(cur, max) == -1
        invariant
            min@.den > 0,
            max@.den > 0,
            step@.den > 0,
            spec_comp(step@, rat_zero()) == 1,
            chain_wf(function, mins, terms@, max, step),
            mins.len() == terms@.len() + 1,
            mins[0] == min,
            cur == mins[mins.len() - 1],
        decreases steps_left(cur@, max@, step@),
    {
        let ev = match function.eval(cur) {
            Ok(v) => v,
            Err(e) => {
                proof {
                    lemma_chain_err(function, mins, terms@, max, step, terms@.len() as int, e);
                }
                return Err(e);
            },
        };
        let term = match Fraction::mult(ev, step) {
            Ok(v) => v,
            Err(e) => {
                proof {
                    lemma_chain_err(function, mins, terms@, max, step, terms@.len() as int, e);
                }
                return Err(e);
            },
        };
        let next0 = match Fraction::add(cur, step) {
            Ok(v) => v,
            Err(e) => {
                proof {
                    lemma_chain_err(function, mins, terms@, max, step, terms@.len() as int, e);
                }
                return Err(e);
            },
        };
        let next = match next0.simplify() {
            Ok(v) => v,
            Err(e) => {
                proof {
                    lemma_chain_err(function, mins, terms@, max, step, terms@.len() as int, e);
                }
                return Err(e);
            },
        };
        proof {
            assert(next0@.den > 0) by (nonlinear_arith)
                requires
                    cur@.den > 0,
                    step@.den > 0,
                    next0@.den == cur@.den * step@.den || next0@.den == cur@.den,
            ;
            lemma_steps_left_decreases(cur@, max@, step@);
        }
        terms.push(term);
        proof {
            mins = mins.push(next);
        }
        cur = next;
    }
    let mut acc = Fraction::zero();
    let mut idx: usize = terms.len();
    proof {
        assert(spec_integral(function, mins[idx as int], max, step) == Ok::<
            Fraction,
            FractionError,
        >(acc));
    }
    while idx > 0
        invariant
            idx <= terms@.len(),
            min@.den > 0,
            max@.den > 0,
            step@.den > 0,
            chain_wf(function, mins, terms@, max, step),
            mins.len() == terms@.len() + 1,
            mins[0] == min,
            acc.wf(),
            spec_integral(function, mins[idx as int], max, step) == Ok::<Fraction, FractionError>(
                acc,
            ),
        decreases idx,
    {
        idx = idx - 1;
        proof {
            lemma_chain_unroll(function, mins, terms@, max, step, idx as int);
        }
        let s = match Fraction::add(terms[idx], acc) {
            Ok(v) => v,
            Err(e) => {
                proof {
                    lemma_chain_err(function, mins, terms@, max, step, idx as int, e);
                }
                return Err(e);
            },
        };
        let acc2 = match s.simplify() {
            Ok(v) => v,
            Err(e) => {
                proof {
                    lemma_chain_err(function, mins, terms@, max, step, idx as int, e);
                }
                return Err(e);
            },
        };
        acc = acc2;
    }
    Ok(acc)
}

/// Integrating over the empty interval `[m, m)` yields the zero fraction,
/// whatever the integrand and whatever the step.
pub proof fn lemma_integral_empty_interval<F: Integrand>(f: F, m: Fraction, s: Fraction)
    requires
        m@.den > 0,
        s@.den > 0,
    ensures
        spec_integral(f, m, m, s) == Ok::<Fraction, FractionError>(zero_fraction()),
{
    crate::rat::lemma_comp_reflexive(m@);
}

} // verus!
