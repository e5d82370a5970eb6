//! The curves are functions of the number that a fraction denotes, not of the
//! fraction that stands for it.

use crate::arcs::lemma_arc_forms;
use crate::arith::{
    lemma_distribute,
    lemma_distribute3,
    lemma_powers_of_product,
    lemma_scaled,
    lemma_scaled_right,
};
use crate::bounce::{bounce_in_at, bounce_in_out_at, bounce_out_at, parabola_over};
use crate::power::{
    cubic_in_at,
    cubic_in_out_at,
    cubic_in_out_lower,
    cubic_in_out_upper,
    cubic_out_at,
    linear_at,
    quadratic_in_at,
    quadratic_in_out_at,
    quadratic_in_out_lower,
    quadratic_in_out_upper,
    quadratic_out_at,
    quartic_in_at,
    quartic_in_out_at,
    quartic_in_out_lower,
    quartic_in_out_upper,
    quartic_out_at,
    quintic_in_at,
    quintic_in_out_at,
    quintic_in_out_lower,
    quintic_in_out_upper,
    quintic_out_at,
};
use crate::ratio::Frac;
use vstd::prelude::*;

verus! {

/// Two fractions of the same value lie on the same side of a break `p / q`.
pub proof fn lemma_same_side(a: Frac, b: Frac, p: int, q: int)
    requires
        a.wf(),
        b.wf(),
        a.same(b),
    ensures
        q * a.num < p * a.den <==> q * b.num < p * b.den,
{
    let x = a.num * b.den;
    let y = b.num * a.den;
    let w = a.den * b.den;
    assert((q * a.num < p * a.den <==> q * x < p * w) && (q * b.num < p * b.den <==> q * y < p
        * w)) by (nonlinear_arith)
        requires
            x == a.num * b.den,
            y == b.num * a.den,
            w == a.den * b.den,
            a.den > 0,
            b.den > 0,
    ;
}

/// The power curves are functions of the number that `t` denotes, whichever
/// fraction stands for it: where `a` and `b` are the same number, so are `f(a)`
/// and `f(b)`.
pub proof fn law_power_value_determined(a: Frac, b: Frac)
    requires
        a.wf(),
        b.wf(),
        a.same(b),
    ensures
        linear_at(a).same(linear_at(b)),
        quadratic_in_at(a).same(quadratic_in_at(b)),
        quadratic_out_at(a).same(quadratic_out_at(b)),
        quadratic_in_out_at(a).same(quadratic_in_out_at(b)),
        cubic_in_at(a).same(cubic_in_at(b)),
        cubic_out_at(a).same(cubic_out_at(b)),
        cubic_in_out_at(a).same(cubic_in_out_at(b)),
        quartic_in_at(a).same(quartic_in_at(b)),
        quartic_out_at(a).same(quartic_out_at(b)),
        quartic_in_out_at(a).same(quartic_in_out_at(b)),
        quintic_in_at(a).same(quintic_in_at(b)),
        quintic_out_at(a).same(quintic_out_at(b)),
        quintic_in_out_at(a).same(quintic_in_out_at(b)),
{
    let (n1, d1, n2, d2) = (a.num, a.den, b.num, b.den);
    // over the common denominator w: progress x = y, and f = t - 1 as u = v
    let x = n1 * d2;
    let y = n2 * d1;
    let w = d1 * d2;
    let u = (n1 - d1) * d2;
    let v = (n2 - d2) * d1;
    assert(u == x - w && v == y - w && w == d2 * d1) by (nonlinear_arith)
        requires
            x == n1 * d2,
            y == n2 * d1,
            w == d1 * d2,
            u == (n1 - d1) * d2,
            v == (n2 - d2) * d1,
    ;
    lemma_same_side(a, b, 1, 2);
    lemma_powers_of_product(n1, d2);
    lemma_powers_of_product(n2, d1);
    lemma_powers_of_product(d1, d2);
    lemma_powers_of_product(d2, d1);
    lemma_powers_of_product(n1 - d1, d2);
    lemma_powers_of_product(n2 - d2, d1);
    lemma_powers_of_product(2 * n1 - 2 * d1, d2);
    lemma_powers_of_product(2 * n2 - 2 * d2, d1);
    let (w2, x2) = (w * w, x * x);
    let g = (2 * n1 - 2 * d1) * d2;
    let h = (2 * n2 - 2 * d2) * d1;
    assert(g == 2 * u && h == 2 * v) by (nonlinear_arith)
        requires
            u == (n1 - d1) * d2,
            v == (n2 - d2) * d1,
            g == (2 * n1 - 2 * d1) * d2,
            h == (2 * n2 - 2 * d2) * d1,
    ;

    // the ease-in curves, and the first halves
    assert(quadratic_in_at(a).same(quadratic_in_at(b)));
    assert(cubic_in_at(a).same(cubic_in_at(b)));
    assert(quartic_in_at(a).same(quartic_in_at(b)));
    assert(quintic_in_at(a).same(quintic_in_at(b)));
    lemma_scaled(2, n1 * n1, d2 * d2);
    lemma_scaled(2, n2 * n2, d1 * d1);
    lemma_scaled(4, n1 * n1 * n1, d2 * d2 * d2);
    lemma_scaled(4, n2 * n2 * n2, d1 * d1 * d1);
    lemma_scaled(8, n1 * n1 * n1 * n1, d2 * d2 * d2 * d2);
    lemma_scaled(8, n2 * n2 * n2 * n2, d1 * d1 * d1 * d1);
    lemma_scaled(16, n1 * n1 * n1 * n1 * n1, d2 * d2 * d2 * d2 * d2);
    lemma_scaled(16, n2 * n2 * n2 * n2 * n2, d1 * d1 * d1 * d1 * d1);
    assert(quadratic_in_out_lower(a).same(quadratic_in_out_lower(b)));
    assert(cubic_in_out_lower(a).same(cubic_in_out_lower(b)));
    assert(quartic_in_out_lower(a).same(quartic_in_out_lower(b)));
    assert(quintic_in_out_lower(a).same(quintic_in_out_lower(b)));

    // quadratic
    assert(-(n1 * (n1 - 2 * d1)) * (d2 * d2) == -(x2 - 2 * (x * w))) by (nonlinear_arith)
        requires
            x == n1 * d2,
            w == d1 * d2,
            x2 == x * x,
    ;
    assert(-(n2 * (n2 - 2 * d2)) * (d1 * d1) == -(y * y - 2 * (y * w))) by (nonlinear_arith)
        requires
            y == n2 * d1,
            w == d1 * d2,
    ;
    assert(quadratic_out_at(a).same(quadratic_out_at(b)));
    let xw = x * w;
    assert((n1 * d1) * (d2 * d2) == xw && (n2 * d2) * (d1 * d1) == y * w) by (nonlinear_arith)
        requires
            x == n1 * d2,
            y == n2 * d1,
            w == d1 * d2,
            xw == x * w,
    ;
    lemma_distribute3(-2 * (n1 * n1), 4 * (n1 * d1), -(d1 * d1), d2 * d2);
    lemma_distribute3(-2 * (n2 * n2), 4 * (n2 * d2), -(d2 * d2), d1 * d1);
    lemma_scaled(-2, n1 * n1, d2 * d2);
    lemma_scaled(-2, n2 * n2, d1 * d1);
    lemma_scaled(4, n1 * d1, d2 * d2);
    lemma_scaled(4, n2 * d2, d1 * d1);
    lemma_scaled(-1, d1 * d1, d2 * d2);
    lemma_scaled(-1, d2 * d2, d1 * d1);
    assert((-2 * (n1 * n1) + 4 * (n1 * d1) - d1 * d1) * (d2 * d2) == -2 * x2 + 4 * xw - w2);
    assert((-2 * (n2 * n2) + 4 * (n2 * d2) - d2 * d2) * (d1 * d1) == -2 * x2 + 4 * xw - w2);
    assert(quadratic_in_out_upper(a).same(quadratic_in_out_upper(b)));

    // cubic
    lemma_distribute((n1 - d1) * (n1 - d1) * (n1 - d1), d1 * d1 * d1, d2 * d2 * d2);
    lemma_distribute((n2 - d2) * (n2 - d2) * (n2 - d2), d2 * d2 * d2, d1 * d1 * d1);
    assert(cubic_out_at(a).same(cubic_out_at(b)));
    lemma_scaled(2, d1 * d1 * d1, d2 * d2 * d2);
    lemma_scaled(2, d2 * d2 * d2, d1 * d1 * d1);
    lemma_distribute(
        (2 * n1 - 2 * d1) * (2 * n1 - 2 * d1) * (2 * n1 - 2 * d1),
        2 * (d1 * d1 * d1),
        d2 * d2 * d2,
    );
    lemma_distribute(
        (2 * n2 - 2 * d2) * (2 * n2 - 2 * d2) * (2 * n2 - 2 * d2),
        2 * (d2 * d2 * d2),
        d1 * d1 * d1,
    );
    lemma_scaled_right(cubic_in_out_upper(a).num, 2, d2 * d2 * d2);
    lemma_scaled_right(cubic_in_out_upper(b).num, 2, d1 * d1 * d1);
    assert(cubic_in_out_upper(a).same(cubic_in_out_upper(b)));

    // quartic
    assert((d1 - n1) * (d1 * d1) * (d2 * d2 * d2) == -(u * w2)) by (nonlinear_arith)
        requires
            u == (n1 - d1) * d2,
            w == d1 * d2,
            w2 == w * w,
    ;
    assert((d2 - n2) * (d2 * d2) * (d1 * d1 * d1) == -(v * w2)) by (nonlinear_arith)
        requires
            v == (n2 - d2) * d1,
            w == d1 * d2,
            w2 == w * w,
    ;
    lemma_distribute3(
        (n1 - d1) * (n1 - d1) * (n1 - d1),
        (d1 - n1) * (d1 * d1),
        d1 * d1 * d1,
        d2 * d2 * d2,
    );
    lemma_distribute3(
        (n2 - d2) * (n2 - d2) * (n2 - d2),
        (d2 - n2) * (d2 * d2),
        d2 * d2 * d2,
        d1 * d1 * d1,
    );
    assert(quartic_out_at(a).same(quartic_out_at(b)));
    lemma_scaled(-8, (n1 - d1) * (n1 - d1) * (n1 - d1) * (n1 - d1), d2 * d2 * d2 * d2);
    lemma_scaled(-8, (n2 - d2) * (n2 - d2) * (n2 - d2) * (n2 - d2), d1 * d1 * d1 * d1);
    lemma_distribute(
        -8 * ((n1 - d1) * (n1 - d1) * (n1 - d1) * (n1 - d1)),
        d1 * d1 * d1 * d1,
        d2 * d2 * d2 * d2,
    );
    lemma_distribute(
        -8 * ((n2 - d2) * (n2 - d2) * (n2 - d2) * (n2 - d2)),
        d2 * d2 * d2 * d2,
        d1 * d1 * d1 * d1,
    );
    assert(quartic_in_out_upper(a).same(quartic_in_out_upper(b)));

    // quintic
    lemma_distribute(
        (n1 - d1) * (n1 - d1) * (n1 - d1) * (n1 - d1) * (n1 - d1),
        d1 * d1 * d1 * d1 * d1,
        d2 * d2 * d2 * d2 * d2,
    );
    lemma_distribute(
        (n2 - d2) * (n2 - d2) * (n2 - d2) * (n2 - d2) * (n2 - d2),
        d2 * d2 * d2 * d2 * d2,
        d1 * d1 * d1 * d1 * d1,
    );
    assert(quintic_out_at(a).same(quintic_out_at(b)));
    lemma_scaled(2, d1 * d1 * d1 * d1 * d1, d2 * d2 * d2 * d2 * d2);
    lemma_scaled(2, d2 * d2 * d2 * d2 * d2, d1 * d1 * d1 * d1 * d1);
    lemma_distribute(
        (2 * n1 - 2 * d1) * (2 * n1 - 2 * d1) * (2 * n1 - 2 * d1) * (2 * n1 - 2 * d1) * (2 * n1
            - 2 * d1),
        2 * (d1 * d1 * d1 * d1 * d1),
        d2 * d2 * d2 * d2 * d2,
    );
    lemma_distribute(
        (2 * n2 - 2 * d2) * (2 * n2 - 2 * d2) * (2 * n2 - 2 * d2) * (2 * n2 - 2 * d2) * (2 * n2
            - 2 * d2),
        2 * (d2 * d2 * d2 * d2 * d2),
        d1 * d1 * d1 * d1 * d1,
    );
    lemma_scaled_right(quintic_in_out_upper(a).num, 2, d2 * d2 * d2 * d2 * d2);
    lemma_scaled_right(quintic_in_out_upper(b).num, 2, d1 * d1 * d1 * d1 * d1);
    assert(quintic_in_out_upper(a).same(quintic_in_out_upper(b)));
}

/// A parabola is a function of the number that `t` denotes.
pub proof fn lemma_parabola_value_determined(a: Frac, b: Frac, k2: int, k1: int, k0: int, kd: int)
    requires
        a.same(b),
    ensures
        parabola_over(a, k2, k1, k0, kd).same(parabola_over(b, k2, k1, k0, kd)),
{
    let x = a.num * b.den;
    let w = a.den * b.den;
    let (xx, xw, ww) = (x * x, x * w, w * w);
    let (nn1, nd1, dd1) = (a.num * a.num, a.num * a.den, a.den * a.den);
    let (nn2, nd2, dd2) = (b.num * b.num, b.num * b.den, b.den * b.den);
    assert(nn1 * dd2 == xx && nd1 * dd2 == xw && dd1 * dd2 == ww) by (nonlinear_arith)
        requires
            x == a.num * b.den,
            w == a.den * b.den,
            xx == x * x,
            xw == x * w,
            ww == w * w,
            nn1 == a.num * a.num,
            nd1 == a.num * a.den,
            dd1 == a.den * a.den,
            dd2 == b.den * b.den,
    ;
    assert(nn2 * dd1 == xx && nd2 * dd1 == xw && dd2 * dd1 == ww) by (nonlinear_arith)
        requires
            x == b.num * a.den,
            w == a.den * b.den,
            xx == x * x,
            xw == x * w,
            ww == w * w,
            nn2 == b.num * b.num,
            nd2 == b.num * b.den,
            dd2 == b.den * b.den,
            dd1 == a.den * a.den,
    ;
    let value = k2 * xx + k1 * xw + k0 * ww;
    lemma_scaled_right(k2 * nn1 + k1 * nd1 + k0 * dd1, kd, dd2);
    lemma_distribute3(k2 * nn1, k1 * nd1, k0 * dd1, dd2);
    lemma_scaled(k2, nn1, dd2);
    lemma_scaled(k1, nd1, dd2);
    lemma_scaled(k0, dd1, dd2);
    assert((k2 * nn1 + k1 * nd1 + k0 * dd1) * dd2 == value);
    lemma_scaled_right(k2 * nn2 + k1 * nd2 + k0 * dd2, kd, dd1);
    lemma_distribute3(k2 * nn2, k1 * nd2, k0 * dd2, dd1);
    lemma_scaled(k2, nn2, dd1);
    lemma_scaled(k1, nd2, dd1);
    lemma_scaled(k0, dd2, dd1);
    assert((k2 * nn2 + k1 * nd2 + k0 * dd2) * dd1 == value);
}

/// `bounce_out` is a function of the number that `t` denotes.
pub proof fn lemma_bounce_out_value_determined(a: Frac, b: Frac)
    requires
        a.wf(),
        b.wf(),
        a.same(b),
    ensures
        bounce_out_at(a).same(bounce_out_at(b)),
{
    lemma_same_side(a, b, 4, 11);
    lemma_same_side(a, b, 8, 11);
    lemma_same_side(a, b, 9, 10);
    lemma_arc_forms(a);
    lemma_arc_forms(b);
    lemma_parabola_value_determined(a, b, 121, 0, 0, 16);
    lemma_parabola_value_determined(a, b, 18150, -19800, 6800, 2000);
    lemma_parabola_value_determined(a, b, 14191956900, -23094184410, 10465427905, 1176147025);
    lemma_parabola_value_determined(a, b, 33750, -64125, 33500, 3125);
}

/// What is left to one of two equal numbers is equal.
pub proof fn lemma_complement_same(a: Frac, b: Frac)
    requires
        a.same(b),
    ensures
        a.complement().same(b.complement()),
{
    assert((a.den - a.num) * b.den == (b.den - b.num) * a.den) by (nonlinear_arith)
        requires
            a.num * b.den == b.num * a.den,
    ;
}

/// `bounce_in` is a function of the number that `t` denotes.
pub proof fn lemma_bounce_in_value_determined(a: Frac, b: Frac)
    requires
        a.wf(),
        b.wf(),
        a.same(b),
    ensures
        bounce_in_at(a).same(bounce_in_at(b)),
{
    lemma_complement_same(a, b);
    lemma_bounce_out_value_determined(a.complement(), b.complement());
    lemma_complement_same(bounce_out_at(a.complement()), bounce_out_at(b.complement()));
}

/// The bounce curves are functions of the number that `t` denotes, whichever
/// fraction stands for it: where `a` and `b` are the same number, so are `f(a)`
/// and `f(b)`.
pub proof fn law_bounce_value_determined(a: Frac, b: Frac)
    requires
        a.wf(),
        b.wf(),
        a.same(b),
    ensures
        bounce_out_at(a).same(bounce_out_at(b)),
        bounce_in_at(a).same(bounce_in_at(b)),
        bounce_in_out_at(a).same(bounce_in_out_at(b)),
{
    lemma_bounce_out_value_determined(a, b);
    lemma_bounce_in_value_determined(a, b);
    lemma_same_side(a, b, 1, 2);
    assert((2 * a.num) * b.den == (2 * b.num) * a.den && (2 * a.num - a.den) * b.den == (2
        * b.num - b.den) * a.den) by (nonlinear_arith)
        requires
            a.num * b.den == b.num * a.den,
    ;
    lemma_bounce_in_value_determined(a.doubled(), b.doubled());
    lemma_bounce_out_value_determined(a.doubled().less_one(), b.doubled().less_one());
    let (p, q) = (bounce_in_at(a.doubled()), bounce_in_at(b.doubled()));
    assert(p.num * (2 * q.den) == q.num * (2 * p.den)) by (nonlinear_arith)
        requires
            p.num * q.den == q.num * p.den,
    ;
    let (p, q) = (
        bounce_out_at(a.doubled().less_one()),
        bounce_out_at(b.doubled().less_one()),
    );
    assert((p.num + p.den) * (2 * q.den) == (q.num + q.den) * (2 * p.den)) by (nonlinear_arith)
        requires
            p.num * q.den == q.num * p.den,
    ;
}

} // verus!
