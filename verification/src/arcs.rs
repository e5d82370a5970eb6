//! The arcs of the bounce curves: where they meet and how high they reach.

use crate::arith::{
    lemma_positive_powers,
    lemma_powers_ordered,
};
use crate::bounce::{
    bounce_in_at,
    bounce_in_out_at,
    bounce_out_at,
    first_arc,
    last_arc,
    parabola_over,
    second_arc,
    third_arc,
};
use crate::ratio::Frac;
use vstd::prelude::*;

verus! {

/// Each arc with its coefficients multiplied out, over the product of their
/// denominators.
pub proof fn lemma_arc_forms(t: Frac)
    ensures
        first_arc(t) == parabola_over(t, 121, 0, 0, 16),
        second_arc(t) == parabola_over(t, 18150, -19800, 6800, 2000),
        third_arc(t) == parabola_over(
            t,
            14191956900,
            -23094184410,
            10465427905,
            1176147025,
        ),
        last_arc(t) == parabola_over(t, 33750, -64125, 33500, 3125),
{
    let nn = t.num * t.num;
    let nd = t.num * t.den;
    let dd = t.den * t.den;
    assert(121 * 1 * 1 * nn + 0 * 16 * 1 * nd + 0 * 16 * 1 * dd == 121 * nn && 16 * 1 * 1 * dd
        == 16 * dd) by (nonlinear_arith);
    assert(363 * 10 * 5 * nn + (-99) * 40 * 5 * nd + 17 * 40 * 10 * dd == 18150 * nn - 19800 * nd
        + 6800 * dd && 40 * 10 * 5 * dd == 2000 * dd) by (nonlinear_arith);
    assert(4356 * 1805 * 1805 * nn + (-35442) * 361 * 1805 * nd + 16061 * 361 * 1805 * dd
        == 14191956900 * nn - 23094184410 * nd + 10465427905 * dd && 361 * 1805 * 1805 * dd
        == 1176147025 * dd) by (nonlinear_arith);
    assert(54 * 25 * 25 * nn + (-513) * 5 * 25 * nd + 268 * 5 * 25 * dd == 33750 * nn - 64125
        * nd + 33500 * dd && 5 * 25 * 25 * dd == 3125 * dd) by (nonlinear_arith);
}

/// Neighbouring arcs of `bounce_out` meet where one hands over to the next: at
/// 4/11, 8/11 and 9/10 both give the same number.
pub proof fn law_arcs_meet(t: Frac)
    requires
        t.wf(),
    ensures
        11 * t.num == 4 * t.den ==> first_arc(t).same(second_arc(t)),
        11 * t.num == 8 * t.den ==> second_arc(t).same(third_arc(t)),
        10 * t.num == 9 * t.den ==> third_arc(t).same(last_arc(t)),
{
    let n = t.num;
    let d = t.den;
    let nn = n * n;
    let nd = n * d;
    let dd = d * d;
    lemma_arc_forms(t);
    if 11 * n == 4 * d {
        assert((121 * nn) * (2000 * dd) - (18150 * nn - 19800 * nd + 6800 * dd) * (16 * dd)
            == -400 * dd * ((4 * d - 11 * n) * (68 * d - 11 * n))) by (nonlinear_arith)
            requires
                nn == n * n,
                nd == n * d,
                dd == d * d,
        ;
        assert((4 * d - 11 * n) * (68 * d - 11 * n) == 0) by (nonlinear_arith)
            requires
                11 * n == 4 * d,
        ;
    }
    if 11 * n == 8 * d {
        assert((18150 * nn - 19800 * nd + 6800 * dd) * (1176147025 * dd) - (14191956900 * nn
            - 23094184410 * nd + 10465427905 * dd) * (2000 * dd) == -488703750 * dd * ((8 * d - 11
            * n) * (3308 * d - 1309 * n))) by (nonlinear_arith)
            requires
                nn == n * n,
                nd == n * d,
                dd == d * d,
        ;
        assert((8 * d - 11 * n) * (3308 * d - 1309 * n) == 0) by (nonlinear_arith)
            requires
                11 * n == 8 * d,
        ;
    }
    if 10 * n == 9 * d {
        assert((14191956900 * nn - 23094184410 * nd + 10465427905 * dd) * (3125 * dd) - (33750
            * nn - 64125 * nd + 33500 * dd) * (1176147025 * dd) == -3665278125 * dd * ((9 * d - 10
            * n) * (203 * d + 127 * n))) by (nonlinear_arith)
            requires
                nn == n * n,
                nd == n * d,
                dd == d * d,
        ;
        assert((9 * d - 10 * n) * (203 * d + 127 * n) == 0) by (nonlinear_arith)
            requires
                10 * n == 9 * d,
        ;
    }
}

/// `bounce_in` is `bounce_out` run backwards and upside down, and the other way
/// round: `bounce_in(t) = 1 - bounce_out(1 - t)` and
/// `bounce_out(t) = 1 - bounce_in(1 - t)`.
pub proof fn law_bounce_mirrored(t: Frac)
    ensures
        bounce_in_at(t) == bounce_out_at(t.complement()).complement(),
        bounce_out_at(t) == bounce_in_at(t.complement()).complement(),
{
    let back = t.complement().complement();
    assert(back == t);
    let out = bounce_out_at(t);
    assert(out.complement().complement() == out);
}

/// How `bounce_in_out` is put together: below the midpoint it is half of
/// `bounce_in` at `2 t`, from the midpoint on half of `bounce_out` at `2 t - 1`,
/// raised by one half.
pub proof fn law_bounce_in_out_split(t: Frac)
    ensures
        2 * t.num < t.den ==> bounce_in_out_at(t) == bounce_in_at(t.doubled()).halved(),
        2 * t.num >= t.den ==> bounce_in_out_at(t) == bounce_out_at(
            t.doubled().less_one(),
        ).halved_plus_half(),
{
}

/// Between zero and one `bounce_out` stays between zero and one.
pub proof fn lemma_bounce_out_in_unit(t: Frac)
    requires
        t.wf(),
        t.in_unit(),
    ensures
        bounce_out_at(t).in_unit(),
        bounce_out_at(t).wf(),
{
    let n = t.num;
    let d = t.den;
    let (nn, nd, dd) = (n * n, n * d, d * d);
    lemma_arc_forms(t);
    lemma_positive_powers(d);
    assert(0 <= nn) by (nonlinear_arith)
        requires
            nn == n * n,
    ;
    if 11 * n < 4 * d {
        lemma_powers_ordered(11 * n, 4 * d);
        assert((11 * n) * (11 * n) == 121 * nn && (4 * d) * (4 * d) == 16 * dd)
            by (nonlinear_arith)
            requires
                nn == n * n,
                dd == d * d,
        ;
    } else if 11 * n < 8 * d {
        // above zero: 150 (11 n - 6 d)^2 + 1400 d^2; below one: the roots are the breaks
        assert(18150 * nn - 19800 * nd + 6800 * dd == 150 * ((11 * n - 6 * d) * (11 * n - 6 * d))
            + 1400 * dd && 0 <= (11 * n - 6 * d) * (11 * n - 6 * d)) by (nonlinear_arith)
            requires
                nn == n * n,
                nd == n * d,
                dd == d * d,
        ;
        assert(18150 * nn - 19800 * nd + 6800 * dd - 2000 * dd == 150 * ((11 * n - 4 * d) * (11
            * n - 8 * d)) && (11 * n - 4 * d) * (11 * n - 8 * d) <= 0) by (nonlinear_arith)
            requires
                nn == n * n,
                nd == n * d,
                dd == d * d,
                11 * n - 4 * d >= 0,
                11 * n - 8 * d < 0,
        ;
    } else if 10 * n < 9 * d {
        assert(4 * (14191956900 * nn - 23094184410 * nd + 10465427905 * dd) == 1172889 * ((220 * n
            - 179 * d) * (220 * n - 179 * d)) + 4281175171 * dd && 0 <= (220 * n - 179 * d) * (220
            * n - 179 * d)) by (nonlinear_arith)
            requires
                nn == n * n,
                nd == n * d,
                dd == d * d,
        ;
        assert(14191956900 * nn - 23094184410 * nd + 10465427905 * dd - 1176147025 * dd
            == 129017790 * ((11 * n - 8 * d) * (10 * n - 9 * d)) && (11 * n - 8 * d) * (10 * n - 9
            * d) <= 0) by (nonlinear_arith)
            requires
                nn == n * n,
                nd == n * d,
                dd == d * d,
                11 * n - 8 * d >= 0,
                10 * n - 9 * d < 0,
        ;
    } else {
        assert(8 * (33750 * nn - 64125 * nd + 33500 * dd) == 675 * ((20 * n - 19 * d) * (20 * n
            - 19 * d)) + 24325 * dd && 0 <= (20 * n - 19 * d) * (20 * n - 19 * d))
            by (nonlinear_arith)
            requires
                nn == n * n,
                nd == n * d,
                dd == d * d,
        ;
        assert(33750 * nn - 64125 * nd + 33500 * dd - 3125 * dd == 3375 * ((10 * n - 9 * d) * (n
            - d)) && (10 * n - 9 * d) * (n - d) <= 0) by (nonlinear_arith)
            requires
                nn == n * n,
                nd == n * d,
                dd == d * d,
                10 * n - 9 * d >= 0,
                n - d <= 0,
        ;
    }
}

/// Between zero and one `bounce_out` stays under the line `y = 3 t`.
pub proof fn lemma_bounce_out_under_line(t: Frac)
    requires
        t.wf(),
        t.in_unit(),
    ensures
        bounce_out_at(t).le(t.scaled(3)),
{
    let n = t.num;
    let d = t.den;
    let out = bounce_out_at(t);
    lemma_bounce_out_in_unit(t);
    lemma_arc_forms(t);
    if 11 * n < 4 * d {
        let (nn, dd) = (n * n, d * d);
        assert((121 * nn) * d <= (3 * n) * (16 * dd)) by (nonlinear_arith)
            requires
                nn == n * n,
                dd == d * d,
                0 <= n,
                0 < d,
                11 * n < 4 * d,
        ;
    } else {
        assert(out.num * d <= (3 * n) * out.den) by (nonlinear_arith)
            requires
                0 <= out.num <= out.den,
                0 < d <= 3 * n,
        ;
    }
}

} // verus!
