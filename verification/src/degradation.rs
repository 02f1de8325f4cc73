//! Frame-by-frame comparison of two versions of a video: per-pixel
//! difference maps, the share of changed pixels, and the rule that pairs the
//! frames of the two sources by their timestamps.
use vstd::prelude::*;

use crate::fraction::Fraction;
use crate::sums::{lemma_sum_of_new_step, sum_of};

verus! {

/// `|x - y|` for two bytes.
pub open spec fn byte_diff(x: u8, y: u8) -> int {
    if x >= y {
        x - y
    } else {
        y - x
    }
}

/// Sum of the three channel differences of pixel `i` of two packed RGB
/// byte sequences.
pub open spec fn pixel_diff_sum(a: Seq<u8>, b: Seq<u8>, i: int) -> int {
    byte_diff(a[3 * i], b[3 * i]) + byte_diff(a[3 * i + 1], b[3 * i + 1]) + byte_diff(
        a[3 * i + 2],
        b[3 * i + 2],
    )
}

/// Whether pixel `i` differs in any channel.
pub open spec fn pixel_differs(a: Seq<u8>, b: Seq<u8>, i: int) -> bool {
    a[3 * i] != b[3 * i] || a[3 * i + 1] != b[3 * i + 1] || a[3 * i + 2] != b[3 * i + 2]
}

/// The heat map of two packed RGB images: per whole pixel, the mean of the
/// three channel differences, rounded down.
pub open spec fn heatmap(a: Seq<u8>, b: Seq<u8>) -> Seq<u8> {
    Seq::new(a.len() / 3, |i: int| (pixel_diff_sum(a, b, i) / 3) as u8)
}

/// Number of pixels among the first `n` that differ.
pub open spec fn count_differing(a: Seq<u8>, b: Seq<u8>, n: int) -> nat
    decreases n,
{
    if n <= 0 {
        0
    } else {
        count_differing(a, b, n - 1) + if pixel_differs(a, b, n - 1) {
            1nat
        } else {
            0nat
        }
    }
}

proof fn lemma_count_differing_bound(a: Seq<u8>, b: Seq<u8>, n: int)
    requires
        n >= 0,
    ensures
        count_differing(a, b, n) <= n,
    decreases n,
{
    if n > 0 {
        lemma_count_differing_bound(a, b, n - 1);
    }
}

/// Per-pixel difference map of two packed RGB images of equal length:
/// `(|dr| + |dg| + |db|) / 3` for every whole pixel.
#[must_use]
pub fn diff_heatmap(a: &[u8], b: &[u8]) -> (r: Vec<u8>)
    requires
        a@.len() == b@.len(),
    ensures
        r@ == heatmap(a@, b@),
{
    let len = a.len();
    let n = len / 3;
    let mut out: Vec<u8> = Vec::with_capacity(n);
    let mut i: usize = 0;
    while i < n
        invariant
            n == a@.len() / 3,
            len == a@.len(),
            a@.len() == b@.len(),
            i <= n,
            out@ == heatmap(a@, b@).take(i as int),
        decreases n - i,
    {
        let k = 3 * i;
        let dr: u16 = if a[k] >= b[k] { (a[k] - b[k]) as u16 } else { (b[k] - a[k]) as u16 };
        let dg: u16 = if a[k + 1] >= b[k + 1] {
            (a[k + 1] - b[k + 1]) as u16
        } else {
            (b[k + 1] - a[k + 1]) as u16
        };
        let db: u16 = if a[k + 2] >= b[k + 2] {
            (a[k + 2] - b[k + 2]) as u16
        } else {
            (b[k + 2] - a[k + 2]) as u16
        };
        let d: u16 = (dr + dg + db) / 3;
        out.push(d as u8);
        proof {
            assert(d == pixel_diff_sum(a@, b@, i as int) / 3);
        }
        i = i + 1;
        assert(out@ =~= heatmap(a@, b@).take(i as int));
    }
    assert(out@ =~= heatmap(a@, b@));
    out
}

/// Share of pixels that differ in any channel between two packed RGB images
/// of equal length: `differing / (len / 3)`, and `0 / 1` for empty input.
#[must_use]
pub fn diff_pixel_ratio(a: &[u8], b: &[u8]) -> (r: Fraction)
    requires
        a@.len() == b@.len(),
    ensures
        a@.len() == 0 ==> r == (Fraction { numer: 0, denom: 1 }),
        a@.len() != 0 ==> r == (Fraction {
            numer: count_differing(a@, b@, (a@.len() / 3) as int) as u64,
            denom: (a@.len() / 3) as u64,
        }),
        r.numer <= r.denom,
{
    if a.len() == 0 {
        return Fraction { numer: 0, denom: 1 };
    }
    let len = a.len();
    let n = len / 3;
    let mut diff: u64 = 0;
    let mut i: usize = 0;
    while i < n
        invariant
            n == a@.len() / 3,
            len == a@.len(),
            a@.len() == b@.len(),
            i <= n,
            diff == count_differing(a@, b@, i as int),
        decreases n - i,
    {
        proof {
            lemma_count_differing_bound(a@, b@, i as int);
        }
        let k = 3 * i;
        if a[k] != b[k] || a[k + 1] != b[k + 1] || a[k + 2] != b[k + 2] {
            diff = diff + 1;
        }
        i = i + 1;
    }
    proof {
        lemma_count_differing_bound(a@, b@, n as int);
    }
    Fraction { numer: diff, denom: n as u64 }
}

/// Dimensions of two sources that cannot be compared pixel by pixel.
#[derive(Debug, Clone, Copy, PartialEq, Eq)]
pub struct SizeMismatch {
    pub a: (u32, u32),
    pub b: (u32, u32),
}

/// The mismatch between two sources' `(width, height)`, if they differ.
pub fn size_mismatch(a: (u32, u32), b: (u32, u32)) -> (r: Option<SizeMismatch>)
    ensures
        a == b ==> r is None,
        a != b ==> r == Some(SizeMismatch { a, b }),
{
    if a.0 == b.0 && a.1 == b.1 {
        None
    } else {
        Some(SizeMismatch { a, b })
    }
}

/// How the timestamps of the current frames of sources A and B relate.
#[derive(Debug, Clone, Copy, PartialEq, Eq, Structural)]
pub enum FrameAlignment {
    /// The two timestamps lie within the allowed drift of each other.
    Matched,
    /// Outside the drift, and A's frame is the earlier one.
    AEarlier,
    /// Outside the drift, and B's frame is the earlier one (or they tie).
    BEarlier,
}

/// What to do with the current frames of sources A and B.
#[derive(Debug, Clone, Copy, PartialEq, Eq, Structural)]
pub enum MatchStep {
    /// Compare the two frames, then read the next frame of both sources.
    ComparePair,
    /// A's frame has no partner: count it as dropped and read A's next frame.
    DropA,
    /// B's frame has no partner: read B's next frame, keeping A's.
    AdvanceB,
}

/// The pairing rule that walks two time-stamped frame streams side by side,
/// counting the pairs compared and A's frames dropped.
#[derive(Debug)]
pub struct FrameMatcher {
    compared: u64,
    dropped: u64,
}

impl FrameMatcher {
    /// Number of pairs compared so far.
    pub closed spec fn spec_compared(&self) -> u64 {
        self.compared
    }

    /// Number of A's frames dropped so far.
    pub closed spec fn spec_dropped(&self) -> u64 {
        self.dropped
    }

    /// A matcher that has seen no frames.
    pub fn new() -> (r: Self)
        ensures
            r.spec_compared() == 0,
            r.spec_dropped() == 0,
    {
        FrameMatcher { compared: 0, dropped: 0 }
    }

    /// Decides what to do with the current pair of frames.
    pub fn step(&mut self, alignment: FrameAlignment) -> (r: MatchStep)
        requires
            old(self).spec_compared() < u64::MAX,
            old(self).spec_dropped() < u64::MAX,
        ensures
            alignment == FrameAlignment::Matched ==> r == MatchStep::ComparePair
                && final(self).spec_compared() == old(self).spec_compared() + 1
                && final(self).spec_dropped() == old(self).spec_dropped(),
            alignment == FrameAlignment::AEarlier ==> r == MatchStep::DropA
                && final(self).spec_compared() == old(self).spec_compared()
                && final(self).spec_dropped() == old(self).spec_dropped() + 1,
            alignment == FrameAlignment::BEarlier ==> r == MatchStep::AdvanceB
                && final(self).spec_compared() == old(self).spec_compared()
                && final(self).spec_dropped() == old(self).spec_dropped(),
    {
        match alignment {
            FrameAlignment::Matched => {
                self.compared = self.compared + 1;
                MatchStep::ComparePair
            },
            FrameAlignment::AEarlier => {
                self.dropped = self.dropped + 1;
                MatchStep::DropA
            },
            FrameAlignment::BEarlier => MatchStep::AdvanceB,
        }
    }

    /// Number of pairs compared so far.
    pub fn pairs_compared(&self) -> (r: u64)
        ensures
            r == self.spec_compared(),
    {
        self.compared
    }

    /// Number of A's frames dropped so far.
    pub fn pairs_dropped(&self) -> (r: u64)
        ensures
            r == self.spec_dropped(),
    {
        self.dropped
    }
}

/// Identical images have an all-zero heat map.
pub proof fn lemma_heatmap_of_identical_is_zero(a: Seq<u8>)
    ensures
        heatmap(a, a) == Seq::new(a.len() / 3, |i: int| 0u8),
{
    assert(heatmap(a, a) =~= Seq::new(a.len() / 3, |i: int| 0u8));
}

/// The heat map does not depend on the order of the two images.
pub proof fn lemma_heatmap_symmetric(a: Seq<u8>, b: Seq<u8>)
    requires
        a.len() == b.len(),
    ensures
        heatmap(a, b) == heatmap(b, a),
{
    assert(heatmap(a, b) =~= heatmap(b, a));
}

/// Identical images have no differing pixel.
pub proof fn lemma_identical_images_have_no_differing_pixel(a: Seq<u8>, n: int)
    ensures
        count_differing(a, a, n) == 0,
    decreases n,
{
    if n > 0 {
        lemma_identical_images_have_no_differing_pixel(a, n - 1);
    }
}

/// A pixel differs exactly when its three bytes, taken together, differ:
/// a change in any one channel (red, green or blue) counts.
pub proof fn lemma_pixel_differs_in_any_channel(a: Seq<u8>, b: Seq<u8>, i: int)
    requires
        0 <= i,
        3 * i + 3 <= a.len(),
        3 * i + 3 <= b.len(),
    ensures
        pixel_differs(a, b, i) <==> a.subrange(3 * i, 3 * i + 3) != b.subrange(3 * i, 3 * i + 3),
{
    let sa = a.subrange(3 * i, 3 * i + 3);
    let sb = b.subrange(3 * i, 3 * i + 3);
    if !pixel_differs(a, b, i) {
        assert(sa =~= sb);
    } else {
        if a[3 * i] != b[3 * i] {
            assert(sa[0] != sb[0]);
        } else if a[3 * i + 1] != b[3 * i + 1] {
            assert(sa[1] != sb[1]);
        } else {
            assert(sa[2] != sb[2]);
        }
    }
}

/// The number of differing pixels among the first `n` is the number of
/// pixel positions `i < n` whose three bytes differ between `a` and `b`.
pub proof fn lemma_count_differing_counts_changed_pixels(a: Seq<u8>, b: Seq<u8>, n: nat)
    requires
        3 * n <= a.len(),
        3 * n <= b.len(),
    ensures
        count_differing(a, b, n as int) == sum_of(
            Seq::new(
                n,
                |i: int|
                    if a.subrange(3 * i, 3 * i + 3) == b.subrange(3 * i, 3 * i + 3) {
                        0int
                    } else {
                        1int
                    },
            ),
        ),
    decreases n,
{
    let f = |i: int|
        if a.subrange(3 * i, 3 * i + 3) == b.subrange(3 * i, 3 * i + 3) {
            0int
        } else {
            1int
        };
    if n > 0 {
        lemma_count_differing_counts_changed_pixels(a, b, (n - 1) as nat);
        lemma_sum_of_new_step((n - 1) as nat, f);
        lemma_pixel_differs_in_any_channel(a, b, n - 1);
        assert(Seq::new((n - 1) as nat, f) =~= Seq::new(
            (n - 1) as nat,
            |i: int|
                if a.subrange(3 * i, 3 * i + 3) == b.subrange(3 * i, 3 * i + 3) {
                    0int
                } else {
                    1int
                },
        ));
    }
}

/// The heat map has one entry per whole pixel, and entry `i` is the sum of
/// the absolute differences of the pixel's red, green and blue bytes,
/// divided by three and rounded down.
pub proof fn lemma_heatmap_is_mean_channel_difference(a: Seq<u8>, b: Seq<u8>, i: int)
    requires
        0 <= i < a.len() / 3,
    ensures
        heatmap(a, b).len() == a.len() / 3,
        heatmap(a, b)[i] == ((if a[3 * i] >= b[3 * i] {
            a[3 * i] - b[3 * i]
        } else {
            b[3 * i] - a[3 * i]
        }) + (if a[3 * i + 1] >= b[3 * i + 1] {
            a[3 * i + 1] - b[3 * i + 1]
        } else {
            b[3 * i + 1] - a[3 * i + 1]
        }) + (if a[3 * i + 2] >= b[3 * i + 2] {
            a[3 * i + 2] - b[3 * i + 2]
        } else {
            b[3 * i + 2] - a[3 * i + 2]
        })) / 3,
{
    assert(pixel_diff_sum(a, b, i) <= 765);
}

} // verus!
