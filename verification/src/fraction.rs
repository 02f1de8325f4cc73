//! Exact ratios of two unsigned integers, used where a measurement is a
//! quotient (a mean difference, a share of pixels, a position in a frame).
use vstd::prelude::*;

verus! {

/// The quotient `numer / denom`, kept unreduced.
///
/// A zero `denom` stands for an undefined quotient (0/0 or x/0).
#[derive(Debug, Clone, Copy, PartialEq, Eq, Structural)]
pub struct Fraction {
    pub numer: u64,
    pub denom: u64,
}

impl Fraction {
    /// Whether the quotient `value / count` lies strictly above `self`.
    pub open spec fn below_quotient(self, value: int, count: int) -> bool {
        (self.numer as int) * count < value * (self.denom as int)
    }

    /// Whether the quotient `value / count` lies strictly below `self`.
    pub open spec fn above_quotient(self, value: int, count: int) -> bool {
        value * (self.denom as int) < (self.numer as int) * count
    }
}

} // verus!
