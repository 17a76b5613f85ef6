//! Mathematical model of a fraction: an unbounded integer numerator over an
//! unbounded integer denominator, together with the specification-level
//! arithmetic that the executable `Fraction` operations are proved against.

use vstd::prelude::*;

verus! {

/// The model of a fraction value: a pair of unbounded integers.
pub ghost struct Rat {
    pub num: int,
    pub den: int,
}

/// A model value is meaningful only when its denominator is not zero.
pub open spec fn rat_wf(x: Rat) -> bool {
    x.den != 0
}

/// The canonical zero value, `0/1`.
pub open spec fn rat_zero() -> Rat {
    Rat { num: 0, den: 1 }
}

/// Two model values denote the same rational number. For nonzero
/// denominators, `a/b == c/d` exactly when `a*d == c*b`.
pub open spec fn rat_eq(x: Rat, y: Rat) -> bool {
    x.num * y.den == y.num * x.den
}

/// The sum. Equal denominators share the denominator; otherwise the sum is
/// formed by cross-multiplication.
pub open spec fn spec_add(x: Rat, y: Rat) -> Rat {
    if x.den != y.den {
        Rat { num: x.num * y.den + y.num * x.den, den: x.den * y.den }
    } else {
        Rat { num: x.num + y.num, den: x.den }
    }
}

/// The product: numerators and denominators multiply componentwise.
pub open spec fn spec_mult(x: Rat, y: Rat) -> Rat {
    Rat { num: x.num * y.num, den: x.den * y.den }
}

/// The additive inverse: the numerator flips sign.
pub open spec fn spec_neg(x: Rat) -> Rat {
    Rat { num: -x.num, den: x.den }
}

/// The difference, defined as adding the negation.
pub open spec fn spec_sub(x: Rat, y: Rat) -> Rat {
    spec_add(x, spec_neg(y))
}

/// The multiplicative inverse: numerator and denominator swap.
pub open spec fn spec_inv(x: Rat) -> Rat {
    Rat { num: x.den, den: x.num }
}

/// Three-way comparison of the rational numbers the two models denote:
/// 1 when `x > y`, 0 when they are equal, -1 when `x < y`.
///
/// Multiplying the inequality `x.num/x.den ? y.num/y.den` through by
/// `x.den * y.den` keeps its direction when that product is positive and
/// flips it when negative.
pub open spec fn spec_comp(x: Rat, y: Rat) -> int {
    let l = x.num * y.den;
    let r = y.num * x.den;
    if x.den * y.den > 0 {
        if l > r {
            1
        } else if l == r {
            0
        } else {
            -1
        }
    } else {
        if l < r {
            1
        } else if l == r {
            0
        } else {
            -1
        }
    }
}

/// `rat_eq` is transitive across a well-formed middle value.
pub proof fn lemma_rat_eq_trans(x: Rat, y: Rat, z: Rat)
    requires
        rat_wf(y),
        rat_eq(x, y),
        rat_eq(y, z),
    ensures
        rat_eq(x, z),
{
    assert((x.num * y.den) * z.den == (y.num * x.den) * z.den) by (nonlinear_arith)
        requires
            x.num * y.den == y.num * x.den,
    ;
    assert((y.num * z.den) * x.den == (z.num * y.den) * x.den) by (nonlinear_arith)
        requires
            y.num * z.den == z.num * y.den,
    ;
    assert(x.num * z.den == z.num * x.den) by (nonlinear_arith)
        requires
            (x.num * y.den) * z.den == (y.num * x.den) * z.den,
            (y.num * z.den) * x.den == (z.num * y.den) * x.den,
            y.den != 0,
    ;
}

/// Adding a value and then subtracting it again denotes the rational number
/// the original value denoted.
pub proof fn lemma_add_sub_roundtrip(x: Rat, y: Rat)
    requires
        rat_wf(x),
        rat_wf(y),
    ensures
        rat_eq(spec_sub(spec_add(x, y), y), x),
{
    let s = spec_add(x, y);
    let d = spec_sub(s, y);
    if x.den != y.den {
        if s.den != y.den {
            assert(d.num * x.den == x.num * d.den) by (nonlinear_arith)
                requires
                    s.num == x.num * y.den + y.num * x.den,
                    s.den == x.den * y.den,
                    d.num == s.num * y.den + (-y.num) * s.den,
                    d.den == s.den * y.den,
            ;
        } else {
            assert(d.num * x.den == x.num * d.den) by (nonlinear_arith)
                requires
                    s.num == x.num * y.den + y.num * x.den,
                    s.den == x.den * y.den,
                    s.den == y.den,
                    y.den != 0,
                    d.num == s.num + (-y.num),
                    d.den == s.den,
            ;
        }
    } else {
        assert(d.num * x.den == x.num * d.den);
    }
}

/// A value compares as equal to itself.
pub proof fn lemma_comp_reflexive(x: Rat)
    requires
        rat_wf(x),
    ensures
        spec_comp(x, x) == 0,
{
}

/// Swapping the operands of the comparison flips its sign.
pub proof fn lemma_comp_antisymmetric(x: Rat, y: Rat)
    requires
        rat_wf(x),
        rat_wf(y),
    ensures
        spec_comp(x, y) == -spec_comp(y, x),
{
    assert(x.den * y.den == y.den * x.den);
    assert(x.num * y.den > y.num * x.den <==> !(y.num * x.den >= x.num * y.den));
}

} // verus!
