//! Fractions: the progress handed to a curve and the eased value it returns.

use vstd::prelude::*;

verus! {

/// A mathematical fraction `num / den`. Contracts speak of these.
pub struct Frac {
    pub num: int,
    pub den: int,
}

impl Frac {
    /// The denominator is positive.
    pub open spec fn wf(self) -> bool {
        self.den > 0
    }

    /// Both fractions denote the same rational number.
    pub open spec fn same(self, other: Frac) -> bool {
        self.num * other.den == other.num * self.den
    }

    /// `self` denotes a rational number that is at most `other`'s.
    pub open spec fn le(self, other: Frac) -> bool {
        self.num * other.den <= other.num * self.den
    }

    /// The fraction denotes zero.
    pub open spec fn is_zero(self) -> bool {
        self.num == 0
    }

    /// The fraction denotes one.
    pub open spec fn is_one(self) -> bool {
        self.num == self.den
    }

    /// The fraction lies in the closed interval from zero to one.
    pub open spec fn in_unit(self) -> bool {
        0 <= self.num <= self.den
    }

    /// `1 - self`, over the same denominator.
    pub open spec fn complement(self) -> Frac {
        Frac { num: self.den - self.num, den: self.den }
    }

    /// `2 * self`, over the same denominator.
    pub open spec fn doubled(self) -> Frac {
        Frac { num: 2 * self.num, den: self.den }
    }

    /// `self - 1`, over the same denominator.
    pub open spec fn less_one(self) -> Frac {
        Frac { num: self.num - self.den, den: self.den }
    }

    /// `self / 2 + 1/2`, over twice the denominator.
    pub open spec fn halved_plus_half(self) -> Frac {
        Frac { num: self.num + self.den, den: 2 * self.den }
    }

    /// `1/2 - self`, over twice the denominator.
    pub open spec fn below_half(self) -> Frac {
        Frac { num: self.den - 2 * self.num, den: 2 * self.den }
    }

    /// `self - 1/2`, over twice the denominator.
    pub open spec fn above_half(self) -> Frac {
        Frac { num: 2 * self.num - self.den, den: 2 * self.den }
    }

    /// `k * self`, over the same denominator.
    pub open spec fn scaled(self, k: int) -> Frac {
        Frac { num: k * self.num, den: self.den }
    }

    /// `self / 2`, over twice the denominator.
    pub open spec fn halved(self) -> Frac {
        Frac { num: self.num, den: 2 * self.den }
    }
}

/// Normalised progress `t = num / den` along a transition. The curves are meant
/// for `0 <= t <= 1` and extrapolate by the same formula outside it.
#[derive(Clone, Copy, Debug)]
pub struct Progress {
    pub num: i16,
    pub den: u16,
}

impl View for Progress {
    type V = Frac;

    open spec fn view(&self) -> Frac {
        Frac { num: self.num as int, den: self.den as int }
    }
}

impl Progress {
    /// The denominator is not zero.
    pub open spec fn wf(self) -> bool {
        self.den > 0
    }

    /// The fraction `num / den`, or `None` where `den` is zero.
    pub fn new(num: i16, den: u16) -> (r: Option<Progress>)
        ensures
            den == 0 ==> r is None,
            den != 0 ==> r == Some(Progress { num, den }),
    {
        if den == 0 {
            None
        } else {
            Some(Progress { num, den })
        }
    }
}

/// An eased value, the exact fraction `num / den`. It is not reduced to lowest
/// terms: the denominator is the one that the curve's formula gives.
#[derive(Clone, Copy, Debug)]
pub struct Ratio {
    pub num: i128,
    pub den: i128,
}

impl View for Ratio {
    type V = Frac;

    open spec fn view(&self) -> Frac {
        Frac { num: self.num as int, den: self.den as int }
    }
}

} // verus!
