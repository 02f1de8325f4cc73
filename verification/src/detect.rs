//! Duplicate-frame streaks and horizontal tear detection.
use vstd::prelude::*;

use crate::degradation::byte_diff;
use crate::fraction::Fraction;
use crate::sums::{lemma_sum_of_new_step, sum_of};

verus! {

/// One RGB pixel, eight bits per channel.
#[derive(Debug, Clone, Copy, PartialEq, Eq, Structural)]
pub struct Rgb8 {
    pub r: u8,
    pub g: u8,
    pub b: u8,
}

/// A frame found identical to the last unique frame.
#[derive(Debug, Clone, Copy, PartialEq, Eq, Structural)]
pub struct DuplicateInfo {
    /// Container index of the duplicate frame.
    pub frame_index: u64,
    /// Container index of the unique frame it repeats.
    pub streak_start: u64,
    /// Length of the streak so far, the unique frame included.
    pub streak_length: u32,
}

/// A horizontal tear between two consecutive frames.
#[derive(Debug, Clone, Copy, PartialEq, Eq, Structural)]
pub struct TearInfo {
    /// Container index of the later frame (0 when detected outside a stream).
    pub frame_index: u64,
    /// The first row below the tear line.
    pub tear_y: u32,
    /// `tear_y / height`, the tear's relative height in the frame.
    pub tear_position: Fraction,
}

/// Copies a frame's pixels.
pub fn copy_pixels(frame: &[Rgb8]) -> (r: Vec<Rgb8>)
    ensures
        r@ == frame@,
{
    let n = frame.len();
    let mut out: Vec<Rgb8> = Vec::with_capacity(n);
    let mut i: usize = 0;
    while i < n
        invariant
            n == frame@.len(),
            i <= n,
            out@ == frame@.take(i as int),
        decreases n - i,
    {
        out.push(frame[i]);
        i = i + 1;
        assert(out@ =~= frame@.take(i as int));
    }
    assert(out@ =~= frame@);
    out
}

/// Stateful duplicate detector: frames are fed one at a time, each together
/// with the verdict of comparing it to the last unique frame.
#[derive(Debug)]
pub struct DedupState {
    prev_frame: Vec<Rgb8>,
    current_streak: u32,
    unique_frame_index: u64,
    has_prev: bool,
}

impl DedupState {
    /// Whether a first frame has been seen.
    pub closed spec fn spec_has_prev(&self) -> bool {
        self.has_prev
    }

    /// The last unique frame, which the next frame is compared to.
    pub closed spec fn spec_prev_frame(&self) -> Seq<Rgb8> {
        self.prev_frame@
    }

    /// Length of the current streak of identical frames.
    pub closed spec fn spec_streak(&self) -> u32 {
        self.current_streak
    }

    /// Container index of the current streak's unique frame.
    pub closed spec fn spec_unique_index(&self) -> u64 {
        self.unique_frame_index
    }

    /// A detector that has seen no frame.
    #[must_use]
    pub fn new() -> (r: Self)
        ensures
            !r.spec_has_prev(),
            r.spec_prev_frame().len() == 0,
            r.spec_streak() == 0,
            r.spec_unique_index() == 0,
    {
        DedupState {
            prev_frame: Vec::new(),
            current_streak: 0,
            unique_frame_index: 0,
            has_prev: false,
        }
    }

    /// Whether a first frame has been seen.
    pub fn has_previous(&self) -> (r: bool)
        ensures
            r == self.spec_has_prev(),
    {
        self.has_prev
    }

    /// The last unique frame, which the next frame is to be compared to.
    pub fn previous_frame(&self) -> (r: &[Rgb8])
        ensures
            r@ == self.spec_prev_frame(),
    {
        self.prev_frame.as_slice()
    }

    /// Length of the current streak of identical frames.
    pub fn current_streak(&self) -> (r: u32)
        ensures
            r == self.spec_streak(),
    {
        self.current_streak
    }

    /// Feeds frame number `frame_index`. `is_duplicate` is the verdict of
    /// comparing `frame` to `previous_frame()`; it is not consulted for the
    /// very first frame, which is never a duplicate.
    ///
    /// A duplicate extends the current streak and is reported; any other
    /// frame becomes the new unique frame and starts a streak of one.
    pub fn process(&mut self, frame: &[Rgb8], frame_index: u64, is_duplicate: bool) -> (r: Option<
        DuplicateInfo,
    >)
        requires
            old(self).spec_has_prev() && is_duplicate ==> old(self).spec_streak() < u32::MAX,
        ensures
            !old(self).spec_has_prev() ==> r is None && final(self).spec_has_prev()
                && final(self).spec_prev_frame() == frame@ && final(self).spec_streak() == 1
                && final(self).spec_unique_index() == 0,
            old(self).spec_has_prev() && is_duplicate ==> r == Some(
                DuplicateInfo {
                    frame_index,
                    streak_start: old(self).spec_unique_index(),
                    streak_length: (old(self).spec_streak() + 1) as u32,
                },
            ) && final(self).spec_has_prev() && final(self).spec_prev_frame()
                == old(self).spec_prev_frame() && final(self).spec_streak() == old(
                self,
            ).spec_streak() + 1 && final(self).spec_unique_index() == old(
                self,
            ).spec_unique_index(),
            old(self).spec_has_prev() && !is_duplicate ==> r is None && final(self).spec_has_prev()
                && final(self).spec_prev_frame() == frame@ && final(self).spec_streak() == 1
                && final(self).spec_unique_index() == frame_index,
    {
        if !self.has_prev {
            self.prev_frame = copy_pixels(frame);
            self.has_prev = true;
            self.current_streak = 1;
            self.unique_frame_index = 0;
            return None;
        }
        if is_duplicate {
            self.current_streak = self.current_streak + 1;
            Some(
                DuplicateInfo {
                    frame_index,
                    streak_start: self.unique_frame_index,
                    streak_length: self.current_streak,
                },
            )
        } else {
            self.prev_frame = copy_pixels(frame);
            self.current_streak = 1;
            self.unique_frame_index = frame_index;
            None
        }
    }
}

/// Sum of the three channel differences of two pixels.
pub open spec fn rgb_diff(p: Rgb8, q: Rgb8) -> int {
    byte_diff(p.r, q.r) + byte_diff(p.g, q.g) + byte_diff(p.b, q.b)
}

/// Sum of the pixel differences over the first `k` pixels of row `y`.
pub open spec fn row_diff_prefix(a: Seq<Rgb8>, b: Seq<Rgb8>, width: int, y: int, k: int) -> int
    decreases k,
{
    if k <= 0 {
        0
    } else {
        row_diff_prefix(a, b, width, y, k - 1) + rgb_diff(
            a[y * width + k - 1],
            b[y * width + k - 1],
        )
    }
}

/// Sum of the pixel differences over row `y`.
pub open spec fn row_diff(a: Seq<Rgb8>, b: Seq<Rgb8>, width: int, y: int) -> int {
    row_diff_prefix(a, b, width, y, width)
}

/// Row `y` starts a tear: its mean channel difference `row_diff / (3 *
/// width)` lies above `high` while the row above lies below `low`.
pub open spec fn is_tear_at(
    a: Seq<Rgb8>,
    b: Seq<Rgb8>,
    width: int,
    height: int,
    high: Fraction,
    low: Fraction,
    y: int,
) -> bool {
    &&& 1 <= y < height
    &&& high.below_quotient(row_diff(a, b, width, y), 3 * width)
    &&& low.above_quotient(row_diff(a, b, width, y - 1), 3 * width)
}

/// Row `y` is the first row of the frame pair that starts a tear.
pub open spec fn is_first_tear(
    a: Seq<Rgb8>,
    b: Seq<Rgb8>,
    width: int,
    height: int,
    high: Fraction,
    low: Fraction,
    y: int,
) -> bool {
    &&& is_tear_at(a, b, width, height, high, low, y)
    &&& forall|z: int| 0 <= z < y ==> !is_tear_at(a, b, width, height, high, low, z)
}

proof fn lemma_row_diff_prefix_bound(a: Seq<Rgb8>, b: Seq<Rgb8>, width: int, y: int, k: int)
    requires
        k >= 0,
    ensures
        0 <= row_diff_prefix(a, b, width, y, k) <= 765 * k,
    decreases k,
{
    if k > 0 {
        lemma_row_diff_prefix_bound(a, b, width, y, k - 1);
    }
}

proof fn lemma_row_index(y: int, x: int, width: int, height: int)
    requires
        0 <= y < height,
        0 <= x < width,
    ensures
        0 <= y * width + x < width * height,
        y * width + x < (y + 1) * width,
        (y + 1) * width <= width * height,
{
    assert(y * width + x < (y + 1) * width) by (nonlinear_arith)
        requires
            0 <= x < width,
    ;
    assert((y + 1) * width <= width * height) by (nonlinear_arith)
        requires
            0 <= y < height,
            0 <= width,
    ;
    assert(0 <= y * width) by (nonlinear_arith)
        requires
            0 <= y,
            0 <= width,
    ;
}

/// The product of two values below 2^64 stays below 2^128.
proof fn lemma_mul_u64_bound(x: int, y: int)
    requires
        0 <= x <= u64::MAX,
        0 <= y <= u64::MAX,
    ensures
        0 <= x * y <= u128::MAX,
{
    assert(0 <= x * y <= u64::MAX * u64::MAX) by (nonlinear_arith)
        requires
            0 <= x <= u64::MAX,
            0 <= y <= u64::MAX,
    ;
}

/// Sum of the pixel differences of row `y` of two frames.
fn row_difference(a: &[Rgb8], b: &[Rgb8], width: usize, height: usize, y: usize) -> (r: u64)
    requires
        a@.len() == width * height,
        b@.len() == width * height,
        y < height,
        width * height <= usize::MAX,
        765 * width <= u64::MAX,
    ensures
        r == row_diff(a@, b@, width as int, y as int),
{
    let mut sum: u64 = 0;
    let mut x: usize = 0;
    while x < width
        invariant
            a@.len() == width * height,
            b@.len() == width * height,
            y < height,
            width * height <= usize::MAX,
            765 * width <= u64::MAX,
            x <= width,
            sum == row_diff_prefix(a@, b@, width as int, y as int, x as int),
        decreases width - x,
    {
        proof {
            lemma_row_index(y as int, x as int, width as int, height as int);
            lemma_row_diff_prefix_bound(a@, b@, width as int, y as int, x as int);
        }
        let i = y * width + x;
        let pa = a[i];
        let pb = b[i];
        let dr: u64 = if pa.r >= pb.r { (pa.r - pb.r) as u64 } else { (pb.r - pa.r) as u64 };
        let dg: u64 = if pa.g >= pb.g { (pa.g - pb.g) as u64 } else { (pb.g - pa.g) as u64 };
        let db: u64 = if pa.b >= pb.b { (pa.b - pb.b) as u64 } else { (pb.b - pa.b) as u64 };
        sum = sum + dr + dg + db;
        x = x + 1;
    }
    sum
}

/// Looks for a horizontal tear between frames `a` and `b`: the first row
/// whose mean channel difference exceeds `threshold_high` while the row above
/// stays under `threshold_low`. Frames whose pixel count is not `width *
/// height` yield no tear.
#[must_use]
pub fn detect_tear(
    a: &[Rgb8],
    b: &[Rgb8],
    width: usize,
    height: usize,
    threshold_high: Fraction,
    threshold_low: Fraction,
) -> (r: Option<TearInfo>)
    requires
        width * height <= usize::MAX,
        a@.len() == width * height && b@.len() == width * height && height > 0 ==> 765 * width
            <= u64::MAX,
        threshold_high.denom > 0,
        threshold_low.denom > 0,
    ensures
        (a@.len() != width * height || b@.len() != width * height) ==> r is None,
        (a@.len() == width * height && b@.len() == width * height) ==> {
            &&& r is None <==> !exists|y: int|
                is_tear_at(a@, b@, width as int, height as int, threshold_high, threshold_low, y)
            &&& r matches Some(t) ==> {
                &&& is_first_tear(
                    a@,
                    b@,
                    width as int,
                    height as int,
                    threshold_high,
                    threshold_low,
                    t.tear_position.numer as int,
                )
                &&& t.frame_index == 0
                &&& t.tear_y == #[verifier::truncate] (t.tear_position.numer as u32)
                &&& t.tear_position.denom == height
            }
        },
{
    if a.len() != width * height || b.len() != width * height {
        return None;
    }
    if height == 0 {
        return None;
    }
    let count: u64 = 3 * (width as u64);
    let mut row_diffs: Vec<u64> = Vec::with_capacity(height);
    let mut y: usize = 0;
    while y < height
        invariant
            a@.len() == width * height,
            b@.len() == width * height,
            width * height <= usize::MAX,
            765 * width <= u64::MAX,
            y <= height,
            row_diffs@.len() == y,
            forall|k: int|
                0 <= k < y ==> #[trigger] row_diffs@[k] == row_diff(a@, b@, width as int, k),
        decreases height - y,
    {
        let d = row_difference(a, b, width, height, y);
        row_diffs.push(d);
        y = y + 1;
    }
    let mut y: usize = 1;
    while y < height
        invariant
            a@.len() == width * height,
            b@.len() == width * height,
            765 * width <= u64::MAX,
            count == 3 * width,
            threshold_high.denom > 0,
            threshold_low.denom > 0,
            1 <= y,
            y <= height || height == 0,
            row_diffs@.len() == height,
            forall|k: int|
                0 <= k < height ==> #[trigger] row_diffs@[k] == row_diff(a@, b@, width as int, k),
            forall|z: int|
                0 <= z < y ==> !is_tear_at(
                    a@,
                    b@,
                    width as int,
                    height as int,
                    threshold_high,
                    threshold_low,
                    z,
                ),
        decreases height - y,
    {
        let cur = row_diffs[y];
        let above = row_diffs[y - 1];
        proof {
            lemma_mul_u64_bound(threshold_high.numer as int, count as int);
            lemma_mul_u64_bound(cur as int, threshold_high.denom as int);
            lemma_mul_u64_bound(above as int, threshold_low.denom as int);
            lemma_mul_u64_bound(threshold_low.numer as int, count as int);
        }
        let exceeds = (threshold_high.numer as u128) * (count as u128) < (cur as u128) * (
        threshold_high.denom as u128);
        let calm = (above as u128) * (threshold_low.denom as u128) < (threshold_low.numer as u128)
            * (count as u128);
        if exceeds && calm {
            proof {
                assert(is_tear_at(
                    a@,
                    b@,
                    width as int,
                    height as int,
                    threshold_high,
                    threshold_low,
                    y as int,
                ));
            }
            let tear_y: u32 = #[verifier::truncate] (y as u32);
            let position = Fraction { numer: y as u64, denom: height as u64 };
            assert(tear_y == (position.numer as int) as u32);
            return Some(TearInfo { frame_index: 0, tear_y, tear_position: position });
        }
        y = y + 1;
    }
    None
}

proof fn lemma_row_diff_prefix_identical(a: Seq<Rgb8>, width: int, y: int, k: int)
    ensures
        row_diff_prefix(a, a, width, y, k) == 0,
    decreases k,
{
    if k > 0 {
        lemma_row_diff_prefix_identical(a, width, y, k - 1);
    }
}

/// A frame never tears against an identical copy of itself.
pub proof fn lemma_identical_frames_have_no_tear(
    a: Seq<Rgb8>,
    width: int,
    height: int,
    high: Fraction,
    low: Fraction,
)
    requires
        width >= 0,
    ensures
        !exists|y: int| is_tear_at(a, a, width, height, high, low, y),
{
    assert forall|y: int| !is_tear_at(a, a, width, height, high, low, y) by {
        lemma_row_diff_prefix_identical(a, width, y, width);
        assert(0 <= (high.numer as int) * (3 * width)) by (nonlinear_arith)
            requires
                width >= 0,
        ;
    }
}

/// A row's difference is the sum, over its `width` pixels, of the absolute
/// differences of all three channels: red, green and blue alike.
pub proof fn lemma_row_difference_sums_all_channels(
    a: Seq<Rgb8>,
    b: Seq<Rgb8>,
    width: nat,
    y: int,
)
    ensures
        row_diff(a, b, width as int, y) == sum_of(
            Seq::new(
                width,
                |x: int|
                    {
                        let p = a[y * width + x];
                        let q = b[y * width + x];
                        (if p.r >= q.r { p.r - q.r } else { q.r - p.r }) + (if p.g >= q.g {
                            p.g - q.g
                        } else {
                            q.g - p.g
                        }) + (if p.b >= q.b { p.b - q.b } else { q.b - p.b })
                    },
            ),
        ),
{
    let f = |x: int|
        {
            let p = a[y * width + x];
            let q = b[y * width + x];
            (if p.r >= q.r { p.r - q.r } else { q.r - p.r }) + (if p.g >= q.g {
                p.g - q.g
            } else {
                q.g - p.g
            }) + (if p.b >= q.b { p.b - q.b } else { q.b - p.b })
        };
    lemma_row_diff_prefix_is_sum(a, b, width, y, width, f);
}

proof fn lemma_row_diff_prefix_is_sum(
    a: Seq<Rgb8>,
    b: Seq<Rgb8>,
    width: nat,
    y: int,
    k: nat,
    f: spec_fn(int) -> int,
)
    requires
        forall|x: int|
            #[trigger] f(x) == rgb_diff(a[y * width + x], b[y * width + x]),
    ensures
        row_diff_prefix(a, b, width as int, y, k as int) == sum_of(Seq::new(k, f)),
    decreases k,
{
    if k > 0 {
        lemma_row_diff_prefix_is_sum(a, b, width, y, (k - 1) as nat, f);
        lemma_sum_of_new_step((k - 1) as nat, f);
        assert(f(k - 1) == rgb_diff(a[y * width + (k - 1)], b[y * width + (k - 1)]));
    }
}

/// The tear rule: row `y` starts a tear exactly when `1 <= y < height`, the
/// mean channel difference of row `y` lies above `high`, and that of row
/// `y - 1`, the row directly above, lies below `low`. Means are compared
/// exactly: `sum / (3 * width) > n / d` as `n * 3 * width < sum * d`.
pub proof fn lemma_tear_rule(
    a: Seq<Rgb8>,
    b: Seq<Rgb8>,
    width: int,
    height: int,
    high: Fraction,
    low: Fraction,
    y: int,
)
    ensures
        is_tear_at(a, b, width, height, high, low, y) <==> {
            &&& 1 <= y < height
            &&& high.numer * (3 * width) < row_diff(a, b, width, y) * high.denom
            &&& row_diff(a, b, width, y - 1) * low.denom < low.numer * (3 * width)
        },
        is_first_tear(a, b, width, height, high, low, y) <==> {
            &&& is_tear_at(a, b, width, height, high, low, y)
            &&& forall|z: int| 1 <= z < y ==> !is_tear_at(a, b, width, height, high, low, z)
        },
{
}

} // verus!
