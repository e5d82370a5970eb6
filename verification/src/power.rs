//! The identity curve and the power curves of degree two to five.

use crate::arith::{cube, cubed, fifth, fourth, square, squared, times, to_fifth, to_fourth};
use crate::endpoints::law_well_formed;
use crate::ratio::{Frac, Progress, Ratio};
use vstd::prelude::*;

verus! {

/// `t` lies below the midpoint: `t < 1/2`.
pub open spec fn first_half(t: Frac) -> bool {
    2 * t.num < t.den
}

/// `y = t`.
pub open spec fn linear_at(t: Frac) -> Frac {
    t
}

/// `y = t^2`.
pub open spec fn quadratic_in_at(t: Frac) -> Frac {
    Frac { num: squared(t.num), den: squared(t.den) }
}

/// `y = -(t (t - 2))`.
pub open spec fn quadratic_out_at(t: Frac) -> Frac {
    Frac { num: -(t.num * (t.num - 2 * t.den)), den: squared(t.den) }
}

/// `y = 2 t^2`, the first half of the piecewise quadratic.
pub open spec fn quadratic_in_out_lower(t: Frac) -> Frac {
    Frac { num: 2 * squared(t.num), den: squared(t.den) }
}

/// `y = -2 t^2 + 4 t - 1`, the second half of the piecewise quadratic.
pub open spec fn quadratic_in_out_upper(t: Frac) -> Frac {
    Frac {
        num: -2 * squared(t.num) + 4 * (t.num * t.den) - squared(t.den),
        den: squared(t.den),
    }
}

/// The piecewise quadratic, split at `t < 1/2`.
pub open spec fn quadratic_in_out_at(t: Frac) -> Frac {
    if first_half(t) {
        quadratic_in_out_lower(t)
    } else {
        quadratic_in_out_upper(t)
    }
}

/// `y = t^3`.
pub open spec fn cubic_in_at(t: Frac) -> Frac {
    Frac { num: cubed(t.num), den: cubed(t.den) }
}

/// `y = (t - 1)^3 + 1`.
pub open spec fn cubic_out_at(t: Frac) -> Frac {
    Frac { num: cubed(t.num - t.den) + cubed(t.den), den: cubed(t.den) }
}

/// `y = 4 t^3`, the first half of the piecewise cubic.
pub open spec fn cubic_in_out_lower(t: Frac) -> Frac {
    Frac { num: 4 * cubed(t.num), den: cubed(t.den) }
}

/// `y = (1/2) f^3 + 1` with `f = 2 t - 2`, the second half of the piecewise cubic.
pub open spec fn cubic_in_out_upper(t: Frac) -> Frac {
    Frac { num: cubed(2 * t.num - 2 * t.den) + 2 * cubed(t.den), den: 2 * cubed(t.den) }
}

/// The piecewise cubic, split at `t < 1/2`.
pub open spec fn cubic_in_out_at(t: Frac) -> Frac {
    if first_half(t) {
        cubic_in_out_lower(t)
    } else {
        cubic_in_out_upper(t)
    }
}

/// `y = t^4`.
pub open spec fn quartic_in_at(t: Frac) -> Frac {
    Frac { num: to_fourth(t.num), den: to_fourth(t.den) }
}

/// `y = f^3 + (1 - t) + 1` with `f = t - 1`.
pub open spec fn quartic_out_at(t: Frac) -> Frac {
    Frac {
        num: cubed(t.num - t.den) + (t.den - t.num) * squared(t.den) + cubed(t.den),
        den: cubed(t.den),
    }
}

/// `y = 8 t^4`, the first half of the piecewise quartic.
pub open spec fn quartic_in_out_lower(t: Frac) -> Frac {
    Frac { num: 8 * to_fourth(t.num), den: to_fourth(t.den) }
}

/// `y = -8 f^4 + 1` with `f = t - 1`, the second half of the piecewise quartic.
pub open spec fn quartic_in_out_upper(t: Frac) -> Frac {
    Frac { num: -8 * to_fourth(t.num - t.den) + to_fourth(t.den), den: to_fourth(t.den) }
}

/// The piecewise quartic, split at `t < 1/2`.
pub open spec fn quartic_in_out_at(t: Frac) -> Frac {
    if first_half(t) {
        quartic_in_out_lower(t)
    } else {
        quartic_in_out_upper(t)
    }
}

/// `y = t^5`.
pub open spec fn quintic_in_at(t: Frac) -> Frac {
    Frac { num: to_fifth(t.num), den: to_fifth(t.den) }
}

/// `y = (t - 1)^5 + 1`.
pub open spec fn quintic_out_at(t: Frac) -> Frac {
    Frac { num: to_fifth(t.num - t.den) + to_fifth(t.den), den: to_fifth(t.den) }
}

/// `y = 16 t^5`, the first half of the piecewise quintic.
pub open spec fn quintic_in_out_lower(t: Frac) -> Frac {
    Frac { num: 16 * to_fifth(t.num), den: to_fifth(t.den) }
}

/// `y = (1/2) f^5 + 1` with `f = 2 t - 2`, the second half of the piecewise quintic.
pub open spec fn quintic_in_out_upper(t: Frac) -> Frac {
    Frac {
        num: to_fifth(2 * t.num - 2 * t.den) + 2 * to_fifth(t.den),
        den: 2 * to_fifth(t.den),
    }
}

/// The piecewise quintic, split at `t < 1/2`.
pub open spec fn quintic_in_out_at(t: Frac) -> Frac {
    if first_half(t) {
        quintic_in_out_lower(t)
    } else {
        quintic_in_out_upper(t)
    }
}

/// The line `y = t`.
pub fn linear(t: Progress) -> (r: Ratio)
    ensures
        r@ == linear_at(t@),
        t.wf() ==> r@.wf(),
{
    proof {
        if t.wf() {
            law_well_formed(t@);
        }
    }
    Ratio { num: t.num as i128, den: t.den as i128 }
}

/// The parabola `y = t^2`.
pub fn quadratic_in(t: Progress) -> (r: Ratio)
    ensures
        r@ == quadratic_in_at(t@),
        t.wf() ==> r@.wf(),
{
    proof {
        if t.wf() {
            law_well_formed(t@);
        }
    }
    Ratio { num: square(t.num as i128), den: square(t.den as i128) }
}

/// The parabola `y = -t^2 + 2 t`.
pub fn quadratic_out(t: Progress) -> (r: Ratio)
    ensures
        r@ == quadratic_out_at(t@),
        t.wf() ==> r@.wf(),
{
    proof {
        if t.wf() {
            law_well_formed(t@);
        }
    }
    let n: i128 = t.num as i128;
    let d: i128 = t.den as i128;
    let p: i128 = times(n, n - 2 * d, Ghost(0x4_0000), Ghost(0x4_0000));
    Ratio { num: -p, den: square(d) }
}

/// The piecewise quadratic: `2 t^2` below the midpoint, `-2 t^2 + 4 t - 1` from it on.
pub fn quadratic_in_out(t: Progress) -> (r: Ratio)
    ensures
        r@ == quadratic_in_out_at(t@),
        t.wf() ==> r@.wf(),
{
    proof {
        if t.wf() {
            law_well_formed(t@);
        }
    }
    let n: i128 = t.num as i128;
    let d: i128 = t.den as i128;
    if 2 * n < d {
        Ratio { num: 2 * square(n), den: square(d) }
    } else {
        let nd: i128 = times(n, d, Ghost(0x4_0000), Ghost(0x4_0000));
        Ratio { num: -2 * square(n) + 4 * nd - square(d), den: square(d) }
    }
}

/// The cubic `y = t^3`.
pub fn cubic_in(t: Progress) -> (r: Ratio)
    ensures
        r@ == cubic_in_at(t@),
        t.wf() ==> r@.wf(),
{
    proof {
        if t.wf() {
            law_well_formed(t@);
        }
    }
    Ratio { num: cube(t.num as i128), den: cube(t.den as i128) }
}

/// The cubic `y = (t - 1)^3 + 1`.
pub fn cubic_out(t: Progress) -> (r: Ratio)
    ensures
        r@ == cubic_out_at(t@),
        t.wf() ==> r@.wf(),
{
    proof {
        if t.wf() {
            law_well_formed(t@);
        }
    }
    let n: i128 = t.num as i128;
    let d: i128 = t.den as i128;
    let f: i128 = n - d;
    Ratio { num: cube(f) + cube(d), den: cube(d) }
}

/// The piecewise cubic: `4 t^3` below the midpoint, `(1/2)(2 t - 2)^3 + 1` from it on.
pub fn cubic_in_out(t: Progress) -> (r: Ratio)
    ensures
        r@ == cubic_in_out_at(t@),
        t.wf() ==> r@.wf(),
{
    proof {
        if t.wf() {
            law_well_formed(t@);
        }
    }
    let n: i128 = t.num as i128;
    let d: i128 = t.den as i128;
    if 2 * n < d {
        Ratio { num: 4 * cube(n), den: cube(d) }
    } else {
        let f: i128 = 2 * n - 2 * d;
        Ratio { num: cube(f) + 2 * cube(d), den: 2 * cube(d) }
    }
}

/// The quartic `y = t^4`.
pub fn quartic_in(t: Progress) -> (r: Ratio)
    ensures
        r@ == quartic_in_at(t@),
        t.wf() ==> r@.wf(),
{
    proof {
        if t.wf() {
            law_well_formed(t@);
        }
    }
    Ratio { num: fourth(t.num as i128), den: fourth(t.den as i128) }
}

/// The curve `y = f^3 + (1 - t) + 1` with `f = t - 1`. It starts and ends at one.
pub fn quartic_out(t: Progress) -> (r: Ratio)
    ensures
        r@ == quartic_out_at(t@),
        t.wf() ==> r@.wf(),
{
    proof {
        if t.wf() {
            law_well_formed(t@);
        }
    }
    let n: i128 = t.num as i128;
    let d: i128 = t.den as i128;
    let f: i128 = n - d;
    let rest: i128 = times(d - n, square(d), Ghost(0x4_0000), Ghost(0x10_0000_0000));
    Ratio { num: cube(f) + rest + cube(d), den: cube(d) }
}

/// The piecewise quartic: `8 t^4` below the midpoint, `-8 (t - 1)^4 + 1` from it on.
pub fn quartic_in_out(t: Progress) -> (r: Ratio)
    ensures
        r@ == quartic_in_out_at(t@),
        t.wf() ==> r@.wf(),
{
    proof {
        if t.wf() {
            law_well_formed(t@);
        }
    }
    let n: i128 = t.num as i128;
    let d: i128 = t.den as i128;
    if 2 * n < d {
        Ratio { num: 8 * fourth(n), den: fourth(d) }
    } else {
        let f: i128 = n - d;
        Ratio { num: -8 * fourth(f) + fourth(d), den: fourth(d) }
    }
}

/// The quintic `y = t^5`.
pub fn quintic_in(t: Progress) -> (r: Ratio)
    ensures
        r@ == quintic_in_at(t@),
        t.wf() ==> r@.wf(),
{
    proof {
        if t.wf() {
            law_well_formed(t@);
        }
    }
    Ratio { num: fifth(t.num as i128), den: fifth(t.den as i128) }
}

/// The quintic `y = (t - 1)^5 + 1`.
pub fn quintic_out(t: Progress) -> (r: Ratio)
    ensures
        r@ == quintic_out_at(t@),
        t.wf() ==> r@.wf(),
{
    proof {
        if t.wf() {
            law_well_formed(t@);
        }
    }
    let n: i128 = t.num as i128;
    let d: i128 = t.den as i128;
    let f: i128 = n - d;
    Ratio { num: fifth(f) + fifth(d), den: fifth(d) }
}

/// The piecewise quintic: `16 t^5` below the midpoint, `(1/2)(2 t - 2)^5 + 1` from it on.
pub fn quintic_in_out(t: Progress) -> (r: Ratio)
    ensures
        r@ == quintic_in_out_at(t@),
        t.wf() ==> r@.wf(),
{
    proof {
        if t.wf() {
            law_well_formed(t@);
        }
    }
    let n: i128 = t.num as i128;
    let d: i128 = t.den as i128;
    if 2 * n < d {
        Ratio { num: 16 * fifth(n), den: fifth(d) }
    } else {
        let f: i128 = 2 * n - 2 * d;
        Ratio { num: fifth(f) + 2 * fifth(d), den: 2 * fifth(d) }
    }
}

} // verus!
