//! The curves that never fall between zero and one.

use crate::arith::{
    lemma_powers_negated,
    lemma_powers_of_product,
    lemma_powers_ordered,
};
use crate::power::{
    cubic_in_at,
    cubic_out_at,
    linear_at,
    quadratic_in_at,
    quadratic_out_at,
    quartic_in_at,
    quintic_in_at,
    quintic_out_at,
};
use crate::ratio::Frac;
use vstd::prelude::*;

verus! {

/// The line `y = t` and the curves `t^2`, `t^3`, `t^4` and `t^5` do not fall
/// anywhere between zero and one: where `a <= b`, there `f(a) <= f(b)`.
pub proof fn law_ease_in_monotone(a: Frac, b: Frac)
    requires
        a.wf(),
        b.wf(),
        a.in_unit(),
        b.in_unit(),
        a.le(b),
    ensures
        linear_at(a).le(linear_at(b)),
        quadratic_in_at(a).le(quadratic_in_at(b)),
        cubic_in_at(a).le(cubic_in_at(b)),
        quartic_in_at(a).le(quartic_in_at(b)),
        quintic_in_at(a).le(quintic_in_at(b)),
{
    let x = a.num * b.den;
    let y = b.num * a.den;
    assert(0 <= x) by (nonlinear_arith)
        requires
            x == a.num * b.den,
            0 <= a.num,
            0 < b.den,
    ;
    lemma_powers_ordered(x, y);
    lemma_powers_of_product(a.num, b.den);
    lemma_powers_of_product(b.num, a.den);
}

/// The curves `-(t (t - 2))`, `(t - 1)^3 + 1` and `(t - 1)^5 + 1` do not fall
/// anywhere between zero and one: where `a <= b`, there `f(a) <= f(b)`.
pub proof fn law_ease_out_monotone(a: Frac, b: Frac)
    requires
        a.wf(),
        b.wf(),
        a.in_unit(),
        b.in_unit(),
        a.le(b),
    ensures
        quadratic_out_at(a).le(quadratic_out_at(b)),
        cubic_out_at(a).le(cubic_out_at(b)),
        quintic_out_at(a).le(quintic_out_at(b)),
{
    // what is left to go, over the common denominator: v <= u
    let u = (a.den - a.num) * b.den;
    let v = (b.den - b.num) * a.den;
    let w = a.den * b.den;
    assert(u == w - a.num * b.den && v == w - b.num * a.den) by (nonlinear_arith)
        requires
            u == (a.den - a.num) * b.den,
            v == (b.den - b.num) * a.den,
            w == a.den * b.den,
    ;
    assert(0 <= v) by (nonlinear_arith)
        requires
            v == (b.den - b.num) * a.den,
            0 <= b.den - b.num,
            0 < a.den,
    ;
    lemma_powers_ordered(v, u);
    lemma_powers_of_product(a.den - a.num, b.den);
    lemma_powers_of_product(b.den - b.num, a.den);
    lemma_powers_of_product(a.den, b.den);
    lemma_powers_negated(a.den - a.num);
    lemma_powers_negated(b.den - b.num);
    let fa = a.num - a.den;
    let fb = b.num - b.den;
    assert(fa == -(a.den - a.num) && fb == -(b.den - b.num));

    // quadratic: -(n (n - 2 d)) = d^2 - (d - n)^2
    assert(-(a.num * (a.num - 2 * a.den)) == a.den * a.den - (a.den - a.num) * (a.den - a.num))
        by (nonlinear_arith);
    assert(-(b.num * (b.num - 2 * b.den)) == b.den * b.den - (b.den - b.num) * (b.den - b.num))
        by (nonlinear_arith);
    let a2 = a.den * a.den;
    let b2 = b.den * b.den;
    let ra2 = (a.den - a.num) * (a.den - a.num);
    let rb2 = (b.den - b.num) * (b.den - b.num);
    assert((a2 - ra2) * b2 == a2 * b2 - ra2 * b2 && (b2 - rb2) * a2 == a2 * b2 - rb2 * a2)
        by (nonlinear_arith);
    assert(u * u == ra2 * b2 && v * v == rb2 * a2);
    assert(quadratic_out_at(a).le(quadratic_out_at(b)));

    // cubic: the numerator is d^3 - (d - n)^3
    let a3 = a.den * a.den * a.den;
    let b3 = b.den * b.den * b.den;
    let ra3 = (a.den - a.num) * (a.den - a.num) * (a.den - a.num);
    let rb3 = (b.den - b.num) * (b.den - b.num) * (b.den - b.num);
    assert(fa * fa * fa == -ra3 && fb * fb * fb == -rb3);
    assert((-ra3 + a3) * b3 == a3 * b3 - ra3 * b3 && (-rb3 + b3) * a3 == a3 * b3 - rb3 * a3)
        by (nonlinear_arith);
    assert(u * u * u == ra3 * b3 && v * v * v == rb3 * a3);
    assert(cubic_out_at(a).le(cubic_out_at(b)));

    // quintic: the numerator is d^5 - (d - n)^5
    let a5 = a.den * a.den * a.den * a.den * a.den;
    let b5 = b.den * b.den * b.den * b.den * b.den;
    let ra5 = (a.den - a.num) * (a.den - a.num) * (a.den - a.num) * (a.den - a.num) * (a.den
        - a.num);
    let rb5 = (b.den - b.num) * (b.den - b.num) * (b.den - b.num) * (b.den - b.num) * (b.den
        - b.num);
    assert(fa * fa * fa * fa * fa == -ra5 && fb * fb * fb * fb * fb == -rb5);
    assert((-ra5 + a5) * b5 == a5 * b5 - ra5 * b5 && (-rb5 + b5) * a5 == a5 * b5 - rb5 * a5)
        by (nonlinear_arith);
    assert(u * u * u * u * u == ra5 * b5 && v * v * v * v * v == rb5 * a5);
    assert(quintic_out_at(a).le(quintic_out_at(b)));
}

} // verus!
