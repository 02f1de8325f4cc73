//! Native-resolution estimates: the spectral cutoff found in a frame is
//! snapped to the nearest common video resolution.
use vstd::prelude::*;

verus! {

/// Result of a resolution detection on one frame.
#[derive(Debug, Clone, Copy, PartialEq, Eq)]
pub struct ResolutionResult {
    pub cutoff_x: u32,
    pub cutoff_y: u32,
    pub estimated_native: (u32, u32),
}

/// The common resolutions an estimate is snapped to, in order.
pub open spec fn standard_resolutions() -> Seq<(u32, u32)> {
    seq![(640u32, 360u32), (1280, 720), (1440, 810), (1560, 873), (1600, 900), (1920, 1080)]
}

/// `|a - b|`.
pub open spec fn abs_diff(a: int, b: int) -> int {
    if a >= b {
        a - b
    } else {
        b - a
    }
}

/// Manhattan distance between a resolution and a cutoff.
pub open spec fn distance(res: (u32, u32), x: u32, y: u32) -> int {
    abs_diff(res.0 as int, x as int) + abs_diff(res.1 as int, y as int)
}

/// Standard resolution number `i`.
fn standard_resolution(i: usize) -> (r: (u32, u32))
    requires
        i < 6,
    ensures
        r == standard_resolutions()[i as int],
{
    match i {
        0 => (640, 360),
        1 => (1280, 720),
        2 => (1440, 810),
        3 => (1560, 873),
        4 => (1600, 900),
        _ => (1920, 1080),
    }
}

fn distance_exec(res: (u32, u32), x: u32, y: u32) -> (r: u64)
    ensures
        r == distance(res, x, y),
{
    let dx: u64 = if res.0 >= x { (res.0 - x) as u64 } else { (x - res.0) as u64 };
    let dy: u64 = if res.1 >= y { (res.1 - y) as u64 } else { (y - res.1) as u64 };
    dx + dy
}

/// The standard resolution closest to the cutoff `(x, y)` in Manhattan
/// distance; among equally close ones, the first.
pub fn nearest_standard_resolution(x: u32, y: u32) -> (r: (u32, u32))
    ensures
        exists|k: int|
            0 <= k < 6 && r == standard_resolutions()[k] && (forall|j: int|
                0 <= j < 6 ==> distance(r, x, y) <= distance(standard_resolutions()[j], x, y))
                && (forall|j: int|
                0 <= j < k ==> distance(standard_resolutions()[j], x, y) > distance(r, x, y)),
{
    let mut best = standard_resolution(0);
    let mut best_d = distance_exec(best, x, y);
    let ghost mut best_k: int = 0;
    let mut i: usize = 1;
    while i < 6
        invariant
            1 <= i <= 6,
            0 <= best_k < i,
            best == standard_resolutions()[best_k],
            best_d == distance(best, x, y),
            forall|j: int| 0 <= j < i ==> best_d <= distance(standard_resolutions()[j], x, y),
            forall|j: int| 0 <= j < best_k ==> distance(standard_resolutions()[j], x, y) > best_d,
        decreases 6 - i,
    {
        let cand = standard_resolution(i);
        let d = distance_exec(cand, x, y);
        if d < best_d {
            best = cand;
            best_d = d;
            proof {
                best_k = i as int;
            }
        }
        i = i + 1;
    }
    best
}

/// Resolutions are ranked by Manhattan distance to the cutoff: the width
/// gap and the height gap both count, in full.
pub proof fn lemma_distance_counts_both_axes(res: (u32, u32), x: u32, y: u32)
    ensures
        distance(res, x, y) == (if res.0 >= x { res.0 - x } else { x - res.0 }) + (if res.1
            >= y {
            res.1 - y
        } else {
            y - res.1
        }),
{
}

/// The candidates are the six common 16:9 sizes from 640x360 to
/// 1920x1080, in ascending order.
pub proof fn lemma_standard_resolutions_are_the_common_sizes()
    ensures
        standard_resolutions().len() == 6,
        forall|r: (u32, u32)|
            standard_resolutions().contains(r) <==> (r == (640u32, 360u32) || r == (
                1280u32,
                720u32,
            ) || r == (1440u32, 810u32) || r == (1560u32, 873u32) || r == (1600u32, 900u32)
                || r == (1920u32, 1080u32)),
        forall|i: int, j: int|
            0 <= i < j < 6 ==> standard_resolutions()[i].0 < standard_resolutions()[j].0
                && standard_resolutions()[i].1 < standard_resolutions()[j].1,
{
    let t = standard_resolutions();
    assert forall|r: (u32, u32)|
        t.contains(r) <==> (r == (640u32, 360u32) || r == (1280u32, 720u32) || r == (
            1440u32,
            810u32,
        ) || r == (1560u32, 873u32) || r == (1600u32, 900u32) || r == (1920u32, 1080u32)) by {
        if r == (640u32, 360u32) {
            assert(t[0] == r);
        } else if r == (1280u32, 720u32) {
            assert(t[1] == r);
        } else if r == (1440u32, 810u32) {
            assert(t[2] == r);
        } else if r == (1560u32, 873u32) {
            assert(t[3] == r);
        } else if r == (1600u32, 900u32) {
            assert(t[4] == r);
        } else if r == (1920u32, 1080u32) {
            assert(t[5] == r);
        }
    }
}

} // verus!
