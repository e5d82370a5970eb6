//! The piecewise curves at their midpoint: the halves meet there, and the curve
//! comes to the common value from either side.

use crate::arcs::{
    lemma_arc_forms,
    lemma_bounce_out_in_unit,
    lemma_bounce_out_under_line,
};
use crate::arith::{
    lemma_gap_over_denominator,
    lemma_power_gap,
    lemma_powers_negated,
    lemma_zero_powers,
};
use crate::bounce::{
    bounce_in_at,
    bounce_in_out_at,
    bounce_out_at,
};
use crate::power::{
    cubic_in_out_at,
    cubic_in_out_lower,
    cubic_in_out_upper,
    quadratic_in_out_at,
    quadratic_in_out_lower,
    quadratic_in_out_upper,
    quartic_in_out_at,
    quartic_in_out_lower,
    quartic_in_out_upper,
    quintic_in_out_at,
    quintic_in_out_lower,
    quintic_in_out_upper,
};
use crate::ratio::Frac;
use vstd::prelude::*;

verus! {

/// Two fractions that both denote one half denote the same number.
pub proof fn lemma_same_through_half(a: Frac, b: Frac)
    requires
        a.num * 2 == a.den,
        b.num * 2 == b.den,
    ensures
        a.same(b),
{
    assert(a.num * b.den == b.num * a.den) by (nonlinear_arith)
        requires
            a.num * 2 == a.den,
            b.num * 2 == b.den,
    ;
}

/// The two halves of each piecewise power curve meet at the midpoint: at
/// `t = 1/2` the formula of the first half and that of the second give the same
/// number, one half.
pub proof fn law_halves_meet(t: Frac)
    requires
        t.wf(),
        2 * t.num == t.den,
    ensures
        quadratic_in_out_lower(t).same(quadratic_in_out_upper(t)),
        quadratic_in_out_upper(t).same(Frac { num: 1, den: 2 }),
        cubic_in_out_lower(t).same(cubic_in_out_upper(t)),
        cubic_in_out_upper(t).same(Frac { num: 1, den: 2 }),
        quartic_in_out_lower(t).same(quartic_in_out_upper(t)),
        quartic_in_out_upper(t).same(Frac { num: 1, den: 2 }),
        quintic_in_out_lower(t).same(quintic_in_out_upper(t)),
        quintic_in_out_upper(t).same(Frac { num: 1, den: 2 }),
{
    let n = t.num;
    let d = t.den;
    assert(2 * (n * n) * 2 == d * d && (-2 * (n * n) + 4 * (n * d) - d * d) * 2 == d * d)
        by (nonlinear_arith)
        requires
            d == 2 * n,
    ;
    assert(4 * (n * n * n) * 2 == d * d * d && ((2 * n - 2 * d) * (2 * n - 2 * d) * (2 * n - 2
        * d) + 2 * (d * d * d)) * 2 == 2 * (d * d * d)) by (nonlinear_arith)
        requires
            d == 2 * n,
    ;
    assert(8 * (n * n * n * n) * 2 == d * d * d * d && (-8 * ((n - d) * (n - d) * (n - d) * (n
        - d)) + d * d * d * d) * 2 == d * d * d * d) by (nonlinear_arith)
        requires
            d == 2 * n,
    ;
    assert(16 * (n * n * n * n * n) * 2 == d * d * d * d * d && ((2 * n - 2 * d) * (2 * n - 2
        * d) * (2 * n - 2 * d) * (2 * n - 2 * d) * (2 * n - 2 * d) + 2 * (d * d * d * d * d)) * 2
        == 2 * (d * d * d * d * d)) by (nonlinear_arith)
        requires
            d == 2 * n,
    ;
    let q = quadratic_in_out_lower(t);
    let c = cubic_in_out_lower(t);
    let r = quartic_in_out_lower(t);
    let i = quintic_in_out_lower(t);
    lemma_same_through_half(q, quadratic_in_out_upper(t));
    lemma_same_through_half(c, cubic_in_out_upper(t));
    lemma_same_through_half(r, quartic_in_out_upper(t));
    lemma_same_through_half(i, quintic_in_out_upper(t));
}

/// The two halves of `bounce_in_out` meet at the midpoint: at `t = 1/2`,
/// `(1/2) bounce_in(2 t)` and `(1/2) bounce_out(2 t - 1) + 1/2` are both one half.
pub proof fn law_bounce_halves_meet(t: Frac)
    requires
        t.wf(),
        2 * t.num == t.den,
    ensures
        bounce_in_at(t.doubled()).halved().same(
            bounce_out_at(t.doubled().less_one()).halved_plus_half(),
        ),
        bounce_in_out_at(t).same(Frac { num: 1, den: 2 }),
{
    lemma_arc_forms(t.doubled().complement());
    lemma_arc_forms(t.doubled().less_one());
    lemma_zero_powers(t.doubled().less_one().num);
}

/// The piecewise power curves come up to one half as `t` comes up to the
/// midpoint: for `0 <= t < 1/2` a curve of degree `k` is at most one half, and
/// short of it by at most `k (1/2 - t)`.
pub proof fn law_nears_half_from_below(t: Frac)
    requires
        t.wf(),
        0 <= t.num,
        2 * t.num < t.den,
    ensures
        quadratic_in_out_at(t).below_half().num >= 0,
        quadratic_in_out_at(t).below_half().le(t.below_half().scaled(2)),
        cubic_in_out_at(t).below_half().num >= 0,
        cubic_in_out_at(t).below_half().le(t.below_half().scaled(3)),
        quartic_in_out_at(t).below_half().num >= 0,
        quartic_in_out_at(t).below_half().le(t.below_half().scaled(4)),
        quintic_in_out_at(t).below_half().num >= 0,
        quintic_in_out_at(t).below_half().le(t.below_half().scaled(5)),
{
    let n = t.num;
    let d = t.den;
    let m = 2 * n;
    lemma_power_gap(m, d);
    assert(m * m == 2 * (2 * (n * n)) && m * m * m == 2 * (4 * (n * n * n)) && m * m * m * m == 2
        * (8 * (n * n * n * n)) && m * m * m * m * m == 2 * (16 * (n * n * n * n * n)))
        by (nonlinear_arith)
        requires
            m == 2 * n,
    ;
    lemma_gap_over_denominator(d * d - m * m, 2, d - m, d, d);
    lemma_gap_over_denominator(d * d * d - m * m * m, 3, d - m, d * d, d);
    lemma_gap_over_denominator(d * d * d * d - m * m * m * m, 4, d - m, d * d * d, d);
    lemma_gap_over_denominator(
        d * d * d * d * d - m * m * m * m * m,
        5,
        d - m,
        d * d * d * d,
        d,
    );
}

/// The piecewise power curves come down to one half as `t` comes down to the
/// midpoint: for `1/2 <= t <= 1` a curve of degree `k` is at least one half, and
/// above it by at most `k (t - 1/2)`.
pub proof fn law_nears_half_from_above(t: Frac)
    requires
        t.wf(),
        t.den <= 2 * t.num,
        t.num <= t.den,
    ensures
        quadratic_in_out_at(t).above_half().num >= 0,
        quadratic_in_out_at(t).above_half().le(t.above_half().scaled(2)),
        cubic_in_out_at(t).above_half().num >= 0,
        cubic_in_out_at(t).above_half().le(t.above_half().scaled(3)),
        quartic_in_out_at(t).above_half().num >= 0,
        quartic_in_out_at(t).above_half().le(t.above_half().scaled(4)),
        quintic_in_out_at(t).above_half().num >= 0,
        quintic_in_out_at(t).above_half().le(t.above_half().scaled(5)),
{
    let n = t.num;
    let d = t.den;
    // twice what is left to go
    let m = 2 * (d - n);
    lemma_power_gap(m, d);
    let g = 2 * n - 2 * d;
    lemma_powers_negated(m);
    assert(g == -m);
    let e = n - d;
    assert(m * m == 4 * (e * e) && m * m * m * m == 16 * (e * e * e * e)) by (nonlinear_arith)
        requires
            m == -2 * e,
    ;
    assert(-2 * (n * n) + 4 * (n * d) - d * d == d * d - 2 * (e * e)) by (nonlinear_arith)
        requires
            e == n - d,
    ;
    lemma_gap_over_denominator(d * d - m * m, 2, d - m, d, d);
    lemma_gap_over_denominator(d * d * d - m * m * m, 3, d - m, d * d, d);
    lemma_gap_over_denominator(d * d * d * d - m * m * m * m, 4, d - m, d * d * d, d);
    lemma_gap_over_denominator(
        d * d * d * d * d - m * m * m * m * m,
        5,
        d - m,
        d * d * d * d,
        d,
    );
    // the cubic and the quintic stand over twice the power of the denominator
    let c = cubic_in_out_at(t);
    let gap3 = d * d * d - m * m * m;
    assert(c.above_half().num == 2 * gap3);
    assert((2 * gap3) * (2 * d) <= (3 * (d - m)) * (2 * (2 * (d * d * d)))) by (nonlinear_arith)
        requires
            gap3 * (2 * d) <= (3 * (d - m)) * (2 * ((d * d) * d)),
    ;
    let q = quintic_in_out_at(t);
    let gap5 = d * d * d * d * d - m * m * m * m * m;
    assert(q.above_half().num == 2 * gap5);
    assert((2 * gap5) * (2 * d) <= (5 * (d - m)) * (2 * (2 * (d * d * d * d * d))))
        by (nonlinear_arith)
        requires
            gap5 * (2 * d) <= (5 * (d - m)) * (2 * ((d * d * d * d) * d)),
    ;
}

/// `bounce_in_out` comes to one half as `t` comes to the midpoint, from either
/// side: between zero and one it is on the same side of one half as `t`, and no
/// further from it than three times as far as `t` is from the midpoint.
pub proof fn law_bounce_nears_half(t: Frac)
    requires
        t.wf(),
        t.in_unit(),
    ensures
        2 * t.num < t.den ==> bounce_in_out_at(t).below_half().num >= 0
            && bounce_in_out_at(t).below_half().le(t.below_half().scaled(3)),
        2 * t.num >= t.den ==> bounce_in_out_at(t).above_half().num >= 0
            && bounce_in_out_at(t).above_half().le(t.above_half().scaled(3)),
{
    let d = t.den;
    // the arcs are run through at s = |1 - 2 t|
    let s = if 2 * t.num < t.den {
        t.doubled().complement()
    } else {
        t.doubled().less_one()
    };
    let out = bounce_out_at(s);
    lemma_bounce_out_in_unit(s);
    lemma_bounce_out_under_line(s);
    let far = if 2 * t.num < t.den {
        bounce_in_out_at(t).below_half()
    } else {
        bounce_in_out_at(t).above_half()
    };
    assert(far.num == 2 * out.num && far.den == 2 * (2 * out.den));
    assert((2 * out.num) * (2 * d) <= (3 * s.num) * (2 * (2 * out.den))) by (nonlinear_arith)
        requires
            out.num * d <= (3 * s.num) * out.den,
    ;
}

} // verus!
