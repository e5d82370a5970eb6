//! The bounce curves: four parabolic arcs, and the curves built from them.

use crate::arith::{square, squared, times, within};
use crate::endpoints::law_well_formed;
use crate::power::first_half;
use crate::ratio::{Frac, Progress, Ratio};
use vstd::prelude::*;

verus! {

/// The parabola `a t^2 + b t + c` with rational coefficients, over the product of
/// the coefficients' denominators and `t`'s denominator squared.
pub open spec fn parabola_at(t: Frac, a: Frac, b: Frac, c: Frac) -> Frac {
    Frac {
        num: a.num * b.den * c.den * squared(t.num) + b.num * a.den * c.den * (t.num * t.den)
            + c.num * a.den * b.den * squared(t.den),
        den: a.den * b.den * c.den * squared(t.den),
    }
}

/// A parabola with whole coefficients over a whole denominator:
/// `(k2 t^2 + k1 t + k0) / kd`.
pub open spec fn parabola_over(t: Frac, k2: int, k1: int, k0: int, kd: int) -> Frac {
    Frac {
        num: k2 * (t.num * t.num) + k1 * (t.num * t.den) + k0 * (t.den * t.den),
        den: kd * (t.den * t.den),
    }
}

/// The first arc, for `t < 4/11`: `121/16 t^2`.
pub open spec fn first_arc(t: Frac) -> Frac {
    parabola_at(t, Frac { num: 121, den: 16 }, Frac { num: 0, den: 1 }, Frac { num: 0, den: 1 })
}

/// The second arc, for `4/11 <= t < 8/11`: `363/40 t^2 - 99/10 t + 17/5`.
pub open spec fn second_arc(t: Frac) -> Frac {
    parabola_at(
        t,
        Frac { num: 363, den: 40 },
        Frac { num: -99, den: 10 },
        Frac { num: 17, den: 5 },
    )
}

/// The third arc, for `8/11 <= t < 9/10`: `4356/361 t^2 - 35442/1805 t + 16061/1805`.
pub open spec fn third_arc(t: Frac) -> Frac {
    parabola_at(
        t,
        Frac { num: 4356, den: 361 },
        Frac { num: -35442, den: 1805 },
        Frac { num: 16061, den: 1805 },
    )
}

/// The last arc, for `t >= 9/10`: `54/5 t^2 - 513/25 t + 268/25`.
pub open spec fn last_arc(t: Frac) -> Frac {
    parabola_at(
        t,
        Frac { num: 54, den: 5 },
        Frac { num: -513, den: 25 },
        Frac { num: 268, den: 25 },
    )
}

/// The four arcs, with the breaks at 4/11, 8/11 and 9/10; each break belongs to
/// the arc that starts there.
pub open spec fn bounce_out_at(t: Frac) -> Frac {
    if 11 * t.num < 4 * t.den {
        first_arc(t)
    } else if 11 * t.num < 8 * t.den {
        second_arc(t)
    } else if 10 * t.num < 9 * t.den {
        third_arc(t)
    } else {
        last_arc(t)
    }
}

/// `1 - bounce_out(1 - t)`.
pub open spec fn bounce_in_at(t: Frac) -> Frac {
    bounce_out_at(t.complement()).complement()
}

/// `(1/2) bounce_in(2 t)` below the midpoint, `(1/2) bounce_out(2 t - 1) + 1/2`
/// from it on.
pub open spec fn bounce_in_out_at(t: Frac) -> Frac {
    if first_half(t) {
        bounce_in_at(t.doubled()).halved()
    } else {
        bounce_out_at(t.doubled().less_one()).halved_plus_half()
    }
}

/// A coefficient of an arc: a fraction of two small positive or negative integers.
pub open spec fn small(k: Frac) -> bool {
    -0x1_0000 <= k.num <= 0x1_0000 && 0 < k.den <= 0x1_0000
}

/// How large an arc's numerator and denominator can get: 2^86.
pub open spec fn arc_sized(r: Frac) -> bool {
    &&& -0x40_0000_0000_0000_0000_0000 <= r.num <= 0x40_0000_0000_0000_0000_0000
    &&& 0 <= r.den <= 0x40_0000_0000_0000_0000_0000
}

/// `a t^2 + b t + c` at `t = n / d`, for coefficients of small numerator and
/// denominator.
fn parabola(n: i128, d: i128, a: Ratio, b: Ratio, c: Ratio) -> (r: Ratio)
    requires
        within(n as int),
        within(d as int),
        small(a@),
        small(b@),
        small(c@),
    ensures
        r@ == parabola_at(Frac { num: n as int, den: d as int }, a@, b@, c@),
        arc_sized(r@),
{
    let n2: i128 = square(n);
    let nd: i128 = times(n, d, Ghost(0x4_0000), Ghost(0x4_0000));
    let d2: i128 = square(d);
    let k2: i128 = times(
        times(a.num, b.den, Ghost(0x1_0000), Ghost(0x1_0000)),
        c.den,
        Ghost(0x1_0000_0000),
        Ghost(0x1_0000),
    );
    let k1: i128 = times(
        times(b.num, a.den, Ghost(0x1_0000), Ghost(0x1_0000)),
        c.den,
        Ghost(0x1_0000_0000),
        Ghost(0x1_0000),
    );
    let k0: i128 = times(
        times(c.num, a.den, Ghost(0x1_0000), Ghost(0x1_0000)),
        b.den,
        Ghost(0x1_0000_0000),
        Ghost(0x1_0000),
    );
    let kd: i128 = times(
        times(a.den, b.den, Ghost(0x1_0000), Ghost(0x1_0000)),
        c.den,
        Ghost(0x1_0000_0000),
        Ghost(0x1_0000),
    );
    assert(0 <= a.den * b.den * c.den) by (nonlinear_arith)
        requires
            0 < a.den,
            0 < b.den,
            0 < c.den,
    ;
    let t2: i128 = times(k2, n2, Ghost(0x1_0000_0000_0000), Ghost(0x10_0000_0000));
    let t1: i128 = times(k1, nd, Ghost(0x1_0000_0000_0000), Ghost(0x10_0000_0000));
    let t0: i128 = times(k0, d2, Ghost(0x1_0000_0000_0000), Ghost(0x10_0000_0000));
    let den: i128 = times(kd, d2, Ghost(0x1_0000_0000_0000), Ghost(0x10_0000_0000));
    assert(0 <= kd * d2) by (nonlinear_arith)
        requires
            0 <= kd,
            0 <= d2,
    ;
    Ratio { num: t2 + t1 + t0, den }
}

/// `bounce_out` at `n / d`, for numbers that a doubled and mirrored progress
/// can take.
fn bounce_out_of(n: i128, d: i128) -> (r: Ratio)
    requires
        within(n as int),
        within(d as int),
    ensures
        r@ == bounce_out_at(Frac { num: n as int, den: d as int }),
        arc_sized(r@),
{
    if 11 * n < 4 * d {
        parabola(
            n,
            d,
            Ratio { num: 121, den: 16 },
            Ratio { num: 0, den: 1 },
            Ratio { num: 0, den: 1 },
        )
    } else if 11 * n < 8 * d {
        parabola(
            n,
            d,
            Ratio { num: 363, den: 40 },
            Ratio { num: -99, den: 10 },
            Ratio { num: 17, den: 5 },
        )
    } else if 10 * n < 9 * d {
        parabola(
            n,
            d,
            Ratio { num: 4356, den: 361 },
            Ratio { num: -35442, den: 1805 },
            Ratio { num: 16061, den: 1805 },
        )
    } else {
        parabola(
            n,
            d,
            Ratio { num: 54, den: 5 },
            Ratio { num: -513, den: 25 },
            Ratio { num: 268, den: 25 },
        )
    }
}

/// `bounce_in` at `n / d`, for numbers that a doubled progress can take.
fn bounce_in_of(n: i128, d: i128) -> (r: Ratio)
    requires
        -0x2_0000 <= n <= 0x2_0000,
        0 <= d <= 0x2_0000,
    ensures
        r@ == bounce_in_at(Frac { num: n as int, den: d as int }),
        -0x80_0000_0000_0000_0000_0000 <= r.num <= 0x80_0000_0000_0000_0000_0000,
        0 <= r.den <= 0x40_0000_0000_0000_0000_0000,
{
    let out: Ratio = bounce_out_of(d - n, d);
    Ratio { num: out.den - out.num, den: out.den }
}

/// The bouncing descent: four parabolic arcs that meet at 4/11, 8/11 and 9/10.
pub fn bounce_out(t: Progress) -> (r: Ratio)
    ensures
        r@ == bounce_out_at(t@),
        t.wf() ==> r@.wf(),
{
    proof {
        if t.wf() {
            law_well_formed(t@);
        }
    }
    bounce_out_of(t.num as i128, t.den as i128)
}

/// The bounce run backwards: `1 - bounce_out(1 - t)`.
pub fn bounce_in(t: Progress) -> (r: Ratio)
    ensures
        r@ == bounce_in_at(t@),
        t.wf() ==> r@.wf(),
{
    proof {
        if t.wf() {
            law_well_formed(t@);
        }
    }
    bounce_in_of(t.num as i128, t.den as i128)
}

/// Half a `bounce_in` followed by half a `bounce_out`: `(1/2) bounce_in(2 t)`
/// below the midpoint, `(1/2) bounce_out(2 t - 1) + 1/2` from it on.
pub fn bounce_in_out(t: Progress) -> (r: Ratio)
    ensures
        r@ == bounce_in_out_at(t@),
        t.wf() ==> r@.wf(),
{
    proof {
        if t.wf() {
            law_well_formed(t@);
        }
    }
    let n: i128 = t.num as i128;
    let d: i128 = t.den as i128;
    if 2 * n < d {
        let half: Ratio = bounce_in_of(2 * n, d);
        Ratio { num: half.num, den: 2 * half.den }
    } else {
        let half: Ratio = bounce_out_of(2 * n - d, d);
        Ratio { num: half.num + half.den, den: 2 * half.den }
    }
}

} // verus!
