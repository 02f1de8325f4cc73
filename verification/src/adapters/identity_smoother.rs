//! The smoother that leaves a series as it is.
use vstd::prelude::*;

verus! {

/// Smoothing that hands the series back unchanged.
#[derive(Debug, Clone, Copy, Default, PartialEq, Eq, Structural)]
pub struct IdentitySmoother;

} // verus!
