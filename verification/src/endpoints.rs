//! Where the curves start and end, and the range they keep to.

use crate::arcs::{
    lemma_arc_forms,
    lemma_bounce_out_in_unit,
};
use crate::arith::{
    lemma_positive_powers,
    lemma_powers_negated,
    lemma_powers_ordered,
    lemma_zero_powers,
};
use crate::bounce::{
    bounce_in_at,
    bounce_in_out_at,
    bounce_out_at,
};
use crate::midpoint::{
    law_nears_half_from_above,
    law_nears_half_from_below,
};
use crate::power::{
    cubic_in_at,
    cubic_in_out_at,
    cubic_out_at,
    linear_at,
    quadratic_in_at,
    quadratic_in_out_at,
    quadratic_out_at,
    quartic_in_at,
    quartic_in_out_at,
    quartic_out_at,
    quintic_in_at,
    quintic_in_out_at,
    quintic_out_at,
};
use crate::ratio::Frac;
use vstd::prelude::*;

verus! {

/// A curve keeps a positive denominator positive.
pub proof fn law_well_formed(t: Frac)
    requires
        t.wf(),
    ensures
        linear_at(t).wf(),
        quadratic_in_at(t).wf(),
        quadratic_out_at(t).wf(),
        quadratic_in_out_at(t).wf(),
        cubic_in_at(t).wf(),
        cubic_out_at(t).wf(),
        cubic_in_out_at(t).wf(),
        quartic_in_at(t).wf(),
        quartic_out_at(t).wf(),
        quartic_in_out_at(t).wf(),
        quintic_in_at(t).wf(),
        quintic_out_at(t).wf(),
        quintic_in_out_at(t).wf(),
        bounce_out_at(t).wf(),
        bounce_in_at(t).wf(),
        bounce_in_out_at(t).wf(),
{
    lemma_positive_powers(t.den);
    lemma_arc_forms(t);
    lemma_arc_forms(t.complement());
    lemma_arc_forms(t.doubled().complement());
    lemma_arc_forms(t.doubled().less_one());
}

/// Every curve but `quartic_out` starts at zero: `f(0) = 0`.
pub proof fn law_starts_at_zero(t: Frac)
    requires
        t.wf(),
        t.is_zero(),
    ensures
        linear_at(t).is_zero(),
        quadratic_in_at(t).is_zero(),
        quadratic_out_at(t).is_zero(),
        quadratic_in_out_at(t).is_zero(),
        cubic_in_at(t).is_zero(),
        cubic_out_at(t).is_zero(),
        cubic_in_out_at(t).is_zero(),
        quartic_in_at(t).is_zero(),
        quartic_in_out_at(t).is_zero(),
        quintic_in_at(t).is_zero(),
        quintic_out_at(t).is_zero(),
        quintic_in_out_at(t).is_zero(),
        bounce_out_at(t).is_zero(),
        bounce_in_at(t).is_zero(),
        bounce_in_out_at(t).is_zero(),
{
    let n = t.num;
    let d = t.den;
    lemma_zero_powers(n);
    assert(n * (n - 2 * d) == 0) by (nonlinear_arith)
        requires
            n == 0,
    ;
    assert((n - d) * (n - d) * (n - d) + d * d * d == 0) by (nonlinear_arith)
        requires
            n == 0,
    ;
    assert((n - d) * (n - d) * (n - d) * (n - d) * (n - d) + d * d * d * d * d == 0)
        by (nonlinear_arith)
        requires
            n == 0,
    ;
    // bounce_out(0) lies on the first arc
    lemma_arc_forms(t);
    // bounce_in(0) = 1 - bounce_out(1), on the last arc
    lemma_arc_forms(t.complement());
    assert(33750 * (d * d) - 64125 * (d * d) + 33500 * (d * d) == 3125 * (d * d));
    // bounce_in_out(0) = bounce_in(0) / 2
    lemma_arc_forms(t.doubled().complement());
}

/// Every curve ends at one: `f(1) = 1`.
pub proof fn law_ends_at_one(t: Frac)
    requires
        t.wf(),
        t.is_one(),
    ensures
        linear_at(t).is_one(),
        quadratic_in_at(t).is_one(),
        quadratic_out_at(t).is_one(),
        quadratic_in_out_at(t).is_one(),
        cubic_in_at(t).is_one(),
        cubic_out_at(t).is_one(),
        cubic_in_out_at(t).is_one(),
        quartic_in_at(t).is_one(),
        quartic_out_at(t).is_one(),
        quartic_in_out_at(t).is_one(),
        quintic_in_at(t).is_one(),
        quintic_out_at(t).is_one(),
        quintic_in_out_at(t).is_one(),
        bounce_out_at(t).is_one(),
        bounce_in_at(t).is_one(),
        bounce_in_out_at(t).is_one(),
{
    let n = t.num;
    let d = t.den;
    lemma_zero_powers(n - d);
    lemma_zero_powers(2 * n - 2 * d);
    lemma_zero_powers(d - n);
    assert(-(n * (n - 2 * d)) == d * d) by (nonlinear_arith)
        requires
            n == d,
    ;
    assert(-2 * (n * n) + 4 * (n * d) - d * d == d * d) by (nonlinear_arith)
        requires
            n == d,
    ;
    assert((d - n) * (d * d) == 0) by (nonlinear_arith)
        requires
            n == d,
    ;
    // bounce_out(1) lies on the last arc
    lemma_arc_forms(t);
    assert(33750 * (d * d) - 64125 * (d * d) + 33500 * (d * d) == 3125 * (d * d));
    // bounce_in(1) = 1 - bounce_out(0), on the first arc
    lemma_arc_forms(t.complement());
    // bounce_in_out(1) = bounce_out(1) / 2 + 1/2
    lemma_arc_forms(t.doubled().less_one());
}

/// `quartic_out` starts at one, where it also ends: `f(0) = 1`.
pub proof fn law_quartic_out_starts_at_one(t: Frac)
    requires
        t.wf(),
        t.is_zero(),
    ensures
        quartic_out_at(t).is_one(),
{
    let d = t.den;
    assert((0 - d) * (0 - d) * (0 - d) + (d - 0) * (d * d) + d * d * d == d * d * d)
        by (nonlinear_arith);
}

/// Between zero and one every curve but `quartic_out` stays between zero and
/// one.
pub proof fn law_stays_in_unit(t: Frac)
    requires
        t.wf(),
        t.in_unit(),
    ensures
        linear_at(t).in_unit(),
        quadratic_in_at(t).in_unit(),
        quadratic_out_at(t).in_unit(),
        quadratic_in_out_at(t).in_unit(),
        cubic_in_at(t).in_unit(),
        cubic_out_at(t).in_unit(),
        cubic_in_out_at(t).in_unit(),
        quartic_in_at(t).in_unit(),
        quartic_in_out_at(t).in_unit(),
        quintic_in_at(t).in_unit(),
        quintic_out_at(t).in_unit(),
        quintic_in_out_at(t).in_unit(),
        bounce_out_at(t).in_unit(),
        bounce_in_at(t).in_unit(),
        bounce_in_out_at(t).in_unit(),
{
    let n = t.num;
    let d = t.den;
    let e = d - n;
    lemma_powers_ordered(0, n);
    lemma_powers_ordered(n, d);
    lemma_powers_ordered(0, e);
    lemma_powers_ordered(e, d);
    lemma_positive_powers(d);
    lemma_powers_negated(e);
    assert(n - d == -e);
    assert(-(n * (n - 2 * d)) == d * d - e * e) by (nonlinear_arith)
        requires
            e == d - n,
    ;
    if 2 * n < d {
        law_nears_half_from_below(t);
    } else {
        law_nears_half_from_above(t);
        let m = 2 * e;
        lemma_powers_ordered(0, m);
        lemma_powers_negated(m);
        assert(2 * n - 2 * d == -m);
        assert(-2 * (n * n) + 4 * (n * d) - d * d == d * d - 2 * (e * e)) by (nonlinear_arith)
            requires
                e == d - n,
        ;
    }
    lemma_bounce_out_in_unit(t);
    lemma_bounce_out_in_unit(t.complement());
    if 2 * n < d {
        lemma_bounce_out_in_unit(t.doubled().complement());
    } else {
        lemma_bounce_out_in_unit(t.doubled().less_one());
    }
}

} // verus!
