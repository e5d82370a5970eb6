//! Closed-form easing curves in exact rational arithmetic.
//!
//! Every curve takes a point of progress `t`, given as a fraction, and returns
//! the eased value as a fraction. No rounding happens anywhere: the result is the
//! curve's formula evaluated over the rationals.
//!
//! The catalog holds the curves that are rational where `t` is: the line, the
//! power curves of degree two to five and the bounce curves, each as `in`, `out`
//! and `in_out`. Curves made of roots, sines or powers of two are irrational at
//! almost every fraction and have no place here.
//!
//! Beside the curves stand the laws that hold of them: where they start and end,
//! that they keep to the unit interval, that their halves and arcs meet, which of
//! them never fall, and that equal fractions give equal values.

pub mod arcs;
pub mod arith;
pub mod bounce;
pub mod determined;
pub mod endpoints;
pub mod midpoint;
pub mod monotone;
pub mod power;
pub mod ratio;

pub use bounce::{bounce_in, bounce_in_out, bounce_out};
pub use power::{
    cubic_in, cubic_in_out, cubic_out, linear, quadratic_in, quadratic_in_out, quadratic_out,
    quartic_in, quartic_in_out, quartic_out, quintic_in, quintic_in_out, quintic_out,
};
pub use ratio::{Frac, Progress, Ratio};
