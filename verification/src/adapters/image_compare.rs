//! Structural-similarity comparators; the scores themselves come from the
//! image-compare crate.
use vstd::prelude::*;

verus! {

/// SSIM over the three RGB channels; a higher score means more similar frames.
#[derive(Debug, Clone, Copy, Default, PartialEq, Eq, Structural)]
pub struct SsimComparator;

impl SsimComparator {
    /// Higher scores mean more similar frames.
    pub fn higher_is_similar(&self) -> (r: bool)
        ensures
            r,
    {
        true
    }

    /// The metric's name, `ssim`.
    pub fn name(&self) -> (r: &'static str)
        ensures
            r@ == "ssim"@,
    {
        "ssim"
    }
}

/// The hybrid SSIM/RMS comparison; a higher score means more similar frames.
#[derive(Debug, Clone, Copy, Default, PartialEq, Eq, Structural)]
pub struct HybridComparator;

impl HybridComparator {
    /// Higher scores mean more similar frames.
    pub fn higher_is_similar(&self) -> (r: bool)
        ensures
            r,
    {
        true
    }

    /// The metric's name, `hybrid`.
    pub fn name(&self) -> (r: &'static str)
        ensures
            r@ == "hybrid"@,
    {
        "hybrid"
    }
}

} // verus!
