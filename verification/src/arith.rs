//! Whole-number arithmetic under the curves: bounded products and powers, and
//! what holds of powers and products.

use vstd::prelude::*;

verus! {

/// The magnitude is at most 2^18, so that a fifth power fits with room to spare.
pub open spec fn within(x: int) -> bool {
    -0x4_0000 <= x <= 0x4_0000
}

/// `x^2`.
pub open spec fn squared(x: int) -> int {
    x * x
}

/// `x^3`.
pub open spec fn cubed(x: int) -> int {
    x * x * x
}

/// `x^4`.
pub open spec fn to_fourth(x: int) -> int {
    x * x * x * x
}

/// `x^5`.
pub open spec fn to_fifth(x: int) -> int {
    x * x * x * x * x
}

/// A product is no larger than the product of its factors' bounds.
pub proof fn lemma_product_bound(a: int, b: int, x: int, y: int)
    requires
        -x <= a <= x,
        -y <= b <= y,
    ensures
        -(x * y) <= a * b <= x * y,
{
    assert(-(x * y) <= a * b <= x * y) by (nonlinear_arith)
        requires
            -x <= a <= x,
            -y <= b <= y,
    ;
}

/// `a * b`, for factors within `x` and `y` whose product fits.
pub(crate) fn times(a: i128, b: i128, Ghost(x): Ghost<int>, Ghost(y): Ghost<int>) -> (r: i128)
    requires
        -x <= a <= x,
        -y <= b <= y,
        x * y <= 0x7fff_ffff_ffff_ffff_ffff_ffff_ffff_ffff,
    ensures
        r == a * b,
        -(x * y) <= r <= x * y,
{
    proof {
        lemma_product_bound(a as int, b as int, x, y);
    }
    a * b
}

/// `x^2`, at most 2^36.
pub(crate) fn square(x: i128) -> (r: i128)
    requires
        within(x as int),
    ensures
        r == squared(x as int),
        0 <= r <= 0x10_0000_0000,
{
    assert(0 <= x * x) by (nonlinear_arith);
    times(x, x, Ghost(0x4_0000), Ghost(0x4_0000))
}

/// `x^3`, of magnitude at most 2^54.
pub(crate) fn cube(x: i128) -> (r: i128)
    requires
        within(x as int),
    ensures
        r == cubed(x as int),
        -0x40_0000_0000_0000 <= r <= 0x40_0000_0000_0000,
{
    let s: i128 = square(x);
    times(s, x, Ghost(0x10_0000_0000), Ghost(0x4_0000))
}

/// `x^4`, at most 2^72.
pub(crate) fn fourth(x: i128) -> (r: i128)
    requires
        within(x as int),
    ensures
        r == to_fourth(x as int),
        0 <= r <= 0x100_0000_0000_0000_0000,
{
    let s: i128 = square(x);
    assert(0 <= (x * x) * (x * x)) by (nonlinear_arith);
    assert((x * x) * (x * x) == x * x * x * x) by (nonlinear_arith);
    times(s, s, Ghost(0x10_0000_0000), Ghost(0x10_0000_0000))
}

/// `x^5`, of magnitude at most 2^90.
pub(crate) fn fifth(x: i128) -> (r: i128)
    requires
        within(x as int),
    ensures
        r == to_fifth(x as int),
        -0x400_0000_0000_0000_0000_0000 <= r <= 0x400_0000_0000_0000_0000_0000,
{
    let q: i128 = fourth(x);
    times(q, x, Ghost(0x100_0000_0000_0000_0000), Ghost(0x4_0000))
}

/// The powers of a positive number are positive.
pub proof fn lemma_positive_powers(d: int)
    requires
        d > 0,
    ensures
        d * d > 0,
        d * d * d > 0,
        d * d * d * d > 0,
        d * d * d * d * d > 0,
{
    assert(d * d > 0) by (nonlinear_arith)
        requires
            d > 0,
    ;
    assert(d * d * d > 0) by (nonlinear_arith)
        requires
            d > 0,
            d * d > 0,
    ;
    assert(d * d * d * d > 0) by (nonlinear_arith)
        requires
            d > 0,
            d * d * d > 0,
    ;
    assert(d * d * d * d * d > 0) by (nonlinear_arith)
        requires
            d > 0,
            d * d * d * d > 0,
    ;
}

/// The powers of zero are zero.
pub proof fn lemma_zero_powers(x: int)
    requires
        x == 0,
    ensures
        x * x == 0,
        x * x * x == 0,
        x * x * x * x == 0,
        x * x * x * x * x == 0,
{
    assert(x * x == 0 && x * x * x == 0 && x * x * x * x == 0 && x * x * x * x * x == 0)
        by (nonlinear_arith)
        requires
            x == 0,
    ;
}

/// Powers keep the order of numbers that are not negative.
pub proof fn lemma_powers_ordered(x: int, y: int)
    requires
        0 <= x <= y,
    ensures
        x * x <= y * y,
        x * x * x <= y * y * y,
        x * x * x * x <= y * y * y * y,
        x * x * x * x * x <= y * y * y * y * y,
{
    assert(0 <= x * x <= y * y) by (nonlinear_arith)
        requires
            0 <= x <= y,
    ;
    assert(0 <= x * x * x <= y * y * y) by (nonlinear_arith)
        requires
            0 <= x <= y,
            0 <= x * x <= y * y,
    ;
    assert(0 <= x * x * x * x <= y * y * y * y) by (nonlinear_arith)
        requires
            0 <= x <= y,
            0 <= x * x * x <= y * y * y,
    ;
    assert(0 <= x * x * x * x * x <= y * y * y * y * y) by (nonlinear_arith)
        requires
            0 <= x <= y,
            0 <= x * x * x * x <= y * y * y * y,
    ;
}

/// The powers of a product are the products of the powers.
pub proof fn lemma_powers_of_product(a: int, b: int)
    ensures
        (a * b) * (a * b) == (a * a) * (b * b),
        (a * b) * (a * b) * (a * b) == (a * a * a) * (b * b * b),
        (a * b) * (a * b) * (a * b) * (a * b) == (a * a * a * a) * (b * b * b * b),
        (a * b) * (a * b) * (a * b) * (a * b) * (a * b) == (a * a * a * a * a) * (b * b * b * b
            * b),
{
    assert((a * b) * (a * b) == (a * a) * (b * b)) by (nonlinear_arith);
    assert((a * b) * (a * b) * (a * b) == (a * a * a) * (b * b * b)) by (nonlinear_arith);
    assert((a * b) * (a * b) * (a * b) * (a * b) == (a * a * a * a) * (b * b * b * b))
        by (nonlinear_arith);
    assert((a * b) * (a * b) * (a * b) * (a * b) * (a * b) == (a * a * a * a * a) * (b * b * b
        * b * b)) by (nonlinear_arith);
}

/// The even powers of a number's negative are the number's powers, the odd ones
/// their negatives.
pub proof fn lemma_powers_negated(x: int)
    ensures
        (-x) * (-x) == x * x,
        (-x) * (-x) * (-x) == -(x * x * x),
        (-x) * (-x) * (-x) * (-x) == x * x * x * x,
        (-x) * (-x) * (-x) * (-x) * (-x) == -(x * x * x * x * x),
{
    assert((-x) * (-x) == x * x) by (nonlinear_arith);
    assert((-x) * (-x) * (-x) == -(x * x * x)) by (nonlinear_arith);
    assert((-x) * (-x) * (-x) * (-x) == x * x * x * x) by (nonlinear_arith);
    assert((-x) * (-x) * (-x) * (-x) * (-x) == -(x * x * x * x * x)) by (nonlinear_arith);
}

/// `(a + b) c = a c + b c`.
pub proof fn lemma_distribute(a: int, b: int, c: int)
    ensures
        (a + b) * c == a * c + b * c,
{
    assert((a + b) * c == a * c + b * c) by (nonlinear_arith);
}

/// `(a + b + c) d = a d + b d + c d`.
pub proof fn lemma_distribute3(a: int, b: int, c: int, d: int)
    ensures
        (a + b + c) * d == a * d + b * d + c * d,
{
    assert((a + b + c) * d == a * d + b * d + c * d) by (nonlinear_arith);
}

/// `(k a) b = k (a b)`.
pub proof fn lemma_scaled(k: int, a: int, b: int)
    ensures
        (k * a) * b == k * (a * b),
{
    assert((k * a) * b == k * (a * b)) by (nonlinear_arith);
}

/// `a (k b) = k (a b)`.
pub proof fn lemma_scaled_right(a: int, k: int, b: int)
    ensures
        a * (k * b) == k * (a * b),
{
    assert(a * (k * b) == k * (a * b)) by (nonlinear_arith);
}

/// How far a power falls short of the power of a larger number: for
/// `0 <= m <= d`, `0 <= d^k - m^k <= k (d - m) d^(k-1)`.
pub proof fn lemma_power_gap(m: int, d: int)
    requires
        0 <= m <= d,
    ensures
        0 <= d * d - m * m <= 2 * ((d - m) * d),
        0 <= d * d * d - m * m * m <= 3 * ((d - m) * (d * d)),
        0 <= d * d * d * d - m * m * m * m <= 4 * ((d - m) * (d * d * d)),
        0 <= d * d * d * d * d - m * m * m * m * m <= 5 * ((d - m) * (d * d * d * d)),
{
    lemma_powers_ordered(m, d);
    let g = d - m;
    let (d2, d3, d4) = (d * d, d * d * d, d * d * d * d);
    let (m2, m3, m4) = (m * m, m * m * m, m * m * m * m);
    assert(0 <= m2 <= d2 && 0 <= m3 <= d3 && 0 <= m4 <= d4) by (nonlinear_arith)
        requires
            0 <= m <= d,
            m2 == m * m,
            d2 == d * d,
            m3 == m * m * m,
            d3 == d * d * d,
            m4 == m * m * m * m,
            d4 == d * d * d * d,
            m2 <= d2,
            m3 <= d3,
            m4 <= d4,
    ;
    // d^(k+1) - m^(k+1) = (d - m) d^k + m (d^k - m^k)
    assert(d2 - m2 == g * d + m * g) by (nonlinear_arith)
        requires
            g == d - m,
            d2 == d * d,
            m2 == m * m,
    ;
    assert(m * g <= g * d) by (nonlinear_arith)
        requires
            0 <= m <= d,
            0 <= g,
    ;
    assert(d3 - m3 == g * d2 + m * (d2 - m2)) by (nonlinear_arith)
        requires
            g == d - m,
            d2 == d * d,
            m2 == m * m,
            d3 == d * d * d,
            m3 == m * m * m,
    ;
    assert(m * (d2 - m2) <= 2 * (g * d2)) by (nonlinear_arith)
        requires
            0 <= m <= d,
            0 <= d2 - m2 <= 2 * (g * d),
            d2 == d * d,
            0 <= g,
    ;
    assert(d4 - m4 == g * d3 + m * (d3 - m3)) by (nonlinear_arith)
        requires
            g == d - m,
            d3 == d * d * d,
            m3 == m * m * m,
            d4 == d * d * d * d,
            m4 == m * m * m * m,
    ;
    assert(m * (d3 - m3) <= 3 * (g * d3)) by (nonlinear_arith)
        requires
            0 <= m <= d,
            0 <= d3 - m3 <= 3 * (g * d2),
            d3 == d * d * d,
            d2 == d * d,
            0 <= g,
    ;
    assert(d * d * d * d * d - m * m * m * m * m == g * d4 + m * (d4 - m4)) by (nonlinear_arith)
        requires
            g == d - m,
            d4 == d * d * d * d,
            m4 == m * m * m * m,
    ;
    assert(m * (d4 - m4) <= 4 * (g * d4)) by (nonlinear_arith)
        requires
            0 <= m <= d,
            0 <= d4 - m4 <= 4 * (g * d3),
            d4 == d * d * d * d,
            d3 == d * d * d,
            0 <= g,
    ;
}

/// From `gap <= k (rest * low)` to the same over twice the denominator:
/// `gap (2 d) <= (k rest) (2 (low d))`, for `d > 0`.
pub proof fn lemma_gap_over_denominator(gap: int, k: int, rest: int, low: int, d: int)
    requires
        d > 0,
        gap <= k * (rest * low),
    ensures
        gap * (2 * d) <= (k * rest) * (2 * (low * d)),
{
    let bound = k * (rest * low);
    assert(gap * (2 * d) <= bound * (2 * d)) by (nonlinear_arith)
        requires
            gap <= bound,
            d > 0,
    ;
    assert(bound * (2 * d) == (k * rest) * (2 * (low * d))) by (nonlinear_arith)
        requires
            bound == k * (rest * low),
    ;
}

} // verus!
