//! The streaming analysis loop's bookkeeping: one frame at a time, the
//! duplicate streaks of unique frames and the tears between consecutive
//! frames are recorded.
use vstd::prelude::*;

use crate::detect::{
    copy_pixels, detect_tear, is_first_tear, is_tear_at, DedupState, Rgb8, TearInfo,
};
use crate::fraction::Fraction;
use crate::sums::{lemma_sum_of_new_step, sum_of};

pub use crate::events::NullSink;

verus! {

/// Sum of a sequence of streak lengths.
pub open spec fn seq_sum(s: Seq<u32>) -> int
    decreases s.len(),
{
    if s.len() == 0 {
        0
    } else {
        seq_sum(s.drop_last()) + s.last()
    }
}

proof fn lemma_seq_sum_push(s: Seq<u32>, v: u32)
    ensures
        seq_sum(s.push(v)) == seq_sum(s) + v,
{
    assert(s.push(v).drop_last() =~= s);
}

proof fn lemma_seq_sum_update_last(s: Seq<u32>, v: u32)
    requires
        s.len() > 0,
    ensures
        seq_sum(s.update(s.len() - 1, v)) == seq_sum(s) - s.last() + v,
{
    assert(s.update(s.len() - 1, v).drop_last() =~= s.drop_last());
}

/// With every streak at least one frame long, there are no more streaks
/// than frames in them.
proof fn lemma_seq_sum_at_least_len(s: Seq<u32>)
    requires
        forall|i: int| 0 <= i < s.len() ==> s[i] >= 1,
    ensures
        seq_sum(s) >= s.len(),
    decreases s.len(),
{
    if s.len() > 0 {
        lemma_seq_sum_at_least_len(s.drop_last());
    }
}

/// Thresholds of the tear detector: `(high, low)`.
pub open spec fn thresholds_ok(t: Option<(Fraction, Fraction)>) -> bool {
    t matches Some((high, low)) ==> high.denom > 0 && low.denom > 0
}

/// With tear detection on and a previous frame of the right size, some row
/// of `frame` starts a tear relative to that previous frame.
pub open spec fn tear_between(
    thresholds: Option<(Fraction, Fraction)>,
    last: Option<Seq<Rgb8>>,
    frame: Seq<Rgb8>,
    width: int,
    height: int,
) -> bool {
    match (thresholds, last) {
        (Some((high, low)), Some(prev)) => {
            &&& prev.len() == width * height
            &&& frame.len() == width * height
            &&& exists|y: int| is_tear_at(prev, frame, width, height, high, low, y)
        },
        _ => false,
    }
}

/// State of the streaming analysis of one video.
pub struct AnalysisState {
    dedup: DedupState,
    streaks: Vec<u32>,
    streak_starts: Vec<u64>,
    tears: Vec<TearInfo>,
    last_frame: Option<Vec<Rgb8>>,
    frame_index: u64,
    width: usize,
    height: usize,
    tear_thresholds: Option<(Fraction, Fraction)>,
    frames: Ghost<Seq<Seq<Rgb8>>>,
}

impl AnalysisState {
    /// The duplicate detector.
    pub closed spec fn spec_dedup(&self) -> DedupState {
        self.dedup
    }

    /// Streak length of every unique frame so far, in order.
    pub closed spec fn spec_streaks(&self) -> Seq<u32> {
        self.streaks@
    }

    /// Container index of the first frame of every streak, in order.
    pub closed spec fn spec_streak_starts(&self) -> Seq<u64> {
        self.streak_starts@
    }

    /// Tears found so far, in order.
    pub closed spec fn spec_tears(&self) -> Seq<TearInfo> {
        self.tears@
    }

    /// Number of frames processed so far.
    pub closed spec fn spec_frames(&self) -> u64 {
        self.frame_index
    }

    /// The most recent frame, if any.
    pub closed spec fn spec_last_frame(&self) -> Option<Seq<Rgb8>> {
        match self.last_frame {
            Some(f) => Some(f@),
            None => None,
        }
    }

    /// Frame width in pixels.
    pub closed spec fn spec_width(&self) -> usize {
        self.width
    }

    /// Frame height in pixels.
    pub closed spec fn spec_height(&self) -> usize {
        self.height
    }

    /// Every frame processed so far, in order.
    pub closed spec fn spec_frames_seen(&self) -> Seq<Seq<Rgb8>> {
        self.frames@
    }

    /// Tear thresholds, `None` when tear detection is off.
    pub closed spec fn spec_tear_thresholds(&self) -> Option<(Fraction, Fraction)> {
        self.tear_thresholds
    }

    /// The bookkeeping is consistent.
    pub closed spec fn wf(&self) -> bool {
        &&& self.width * self.height <= usize::MAX
        &&& self.height > 0 ==> 765 * self.width <= u64::MAX
        &&& thresholds_ok(self.tear_thresholds)
        &&& (self.frame_index == 0 <==> !self.dedup.spec_has_prev())
        &&& (self.streaks@.len() == 0 <==> !self.dedup.spec_has_prev())
        &&& (self.last_frame is Some <==> self.frame_index > 0)
        &&& self.dedup.spec_has_prev() ==> self.streaks@.last() == self.dedup.spec_streak()
        &&& self.dedup.spec_has_prev() ==> self.dedup.spec_unique_index() < self.frame_index
        &&& self.frames@.len() == self.frame_index
        &&& self.dedup.spec_has_prev() ==> self.dedup.spec_unique_index()
            == self.streak_starts@.last()
        &&& self.dedup.spec_has_prev() ==> self.dedup.spec_prev_frame()
            == self.frames@[self.dedup.spec_unique_index() as int]
        &&& forall|i: int| 0 <= i < self.streaks@.len() ==> self.streaks@[i] >= 1
        &&& seq_sum(self.streaks@) == self.frame_index
        &&& self.streak_starts@.len() == self.streaks@.len()
        &&& forall|i: int|
            0 <= i < self.streak_starts@.len() ==> #[trigger] self.streak_starts@[i] == seq_sum(
                self.streaks@.take(i),
            )
        &&& forall|i: int|
            0 <= i < self.tears@.len() ==> 1 <= #[trigger] self.tears@[i].frame_index
                < self.frame_index
        &&& forall|i: int, j: int|
            0 <= i < j < self.tears@.len() ==> self.tears@[i].frame_index
                < self.tears@[j].frame_index
    }

    /// Every frame processed belongs to exactly one streak: the streak
    /// lengths add up to the number of frames, every streak holds at least
    /// one frame, and so there are no more unique frames than frames.
    pub proof fn lemma_streaks_cover_frames(s: AnalysisState)
        requires
            s.wf(),
        ensures
            seq_sum(s.spec_streaks()) == s.spec_frames(),
            forall|i: int| 0 <= i < s.spec_streaks().len() ==> s.spec_streaks()[i] >= 1,
            s.spec_streaks().len() <= s.spec_frames(),
    {
        lemma_seq_sum_at_least_len(s.streaks@);
    }

    /// Each streak starts where the streaks before it end: the first frame
    /// of unique frame `i` is container frame `streaks[0] + ... +
    /// streaks[i - 1]`.
    pub proof fn lemma_streak_starts(s: AnalysisState)
        requires
            s.wf(),
        ensures
            s.spec_streak_starts().len() == s.spec_streaks().len(),
            forall|i: int|
                0 <= i < s.spec_streak_starts().len() ==> #[trigger] s.spec_streak_starts()[i]
                    == seq_sum(s.spec_streaks().take(i)),
    {
    }

    /// Tears are reported once per frame at most, in frame order, and never
    /// for the first frame, which has no predecessor.
    pub proof fn lemma_tears_ordered(s: AnalysisState)
        requires
            s.wf(),
        ensures
            forall|i: int|
                0 <= i < s.spec_tears().len() ==> 1 <= #[trigger] s.spec_tears()[i].frame_index
                    < s.spec_frames(),
            forall|i: int, j: int|
                0 <= i < j < s.spec_tears().len() ==> s.spec_tears()[i].frame_index
                    < s.spec_tears()[j].frame_index,
    {
    }

    /// Each frame is compared with the first frame of the current streak,
    /// not with the frame just before it. With `u` the first frame of the
    /// last streak and `k` the number of frames so far: the detector's
    /// reference frame is frame `u`, the current streak holds the `k - u`
    /// frames from `u` on, and the detector reports duplicates against start
    /// `u` with that length. By `push_frame`, a duplicate frame `k` then
    /// lengthens the streak to `k - u + 1`, keeping start `u` and frame `u`
    /// as reference; any other frame `k` opens a streak starting at `k`.
    pub proof fn lemma_duplicates_compare_with_streak_start(s: AnalysisState)
        requires
            s.wf(),
            s.spec_dedup().spec_has_prev(),
        ensures
            s.spec_streak_starts().len() > 0,
            s.spec_frames_seen().len() == s.spec_frames(),
            s.spec_streak_starts().last() < s.spec_frames(),
            s.spec_dedup().spec_unique_index() == s.spec_streak_starts().last(),
            s.spec_dedup().spec_prev_frame() == s.spec_frames_seen()[s.spec_streak_starts().last() as int],
            s.spec_dedup().spec_streak() == s.spec_frames() - s.spec_streak_starts().last(),
            s.spec_streaks().last() == s.spec_frames() - s.spec_streak_starts().last(),
    {
        let n = s.streaks@.len();
        assert(s.streaks@.take(n - 1) =~= s.streaks@.drop_last());
        assert(s.streak_starts@[n - 1] == seq_sum(s.streaks@.take(n - 1)));
    }

    /// An analysis of `width` x `height` frames that has seen no frame yet;
    /// `tear_thresholds` is `(high, low)`, or `None` to skip tear detection.
    pub fn new(width: usize, height: usize, tear_thresholds: Option<(Fraction, Fraction)>) -> (r:
        Self)
        requires
            width * height <= usize::MAX,
            height > 0 ==> 765 * width <= u64::MAX,
            thresholds_ok(tear_thresholds),
        ensures
            r.wf(),
            r.spec_frames() == 0,
            r.spec_frames_seen().len() == 0,
            r.spec_streaks().len() == 0,
            r.spec_streak_starts().len() == 0,
            r.spec_tears().len() == 0,
            r.spec_last_frame() is None,
            !r.spec_dedup().spec_has_prev(),
            r.spec_width() == width,
            r.spec_height() == height,
            r.spec_tear_thresholds() == tear_thresholds,
    {
        AnalysisState {
            dedup: DedupState::new(),
            streaks: Vec::new(),
            streak_starts: Vec::new(),
            tears: Vec::new(),
            last_frame: None,
            frame_index: 0,
            width,
            height,
            tear_thresholds,
            frames: Ghost(Seq::empty()),
        }
    }

    /// The frame the next frame must be compared to (the last unique
    /// frame), or `None` before the first frame.
    pub fn reference_frame(&self) -> (r: Option<&[Rgb8]>)
        ensures
            self.spec_dedup().spec_has_prev() ==> (r matches Some(f) && f@
                == self.spec_dedup().spec_prev_frame()),
            !self.spec_dedup().spec_has_prev() ==> r is None,
    {
        if self.dedup.has_previous() {
            Some(self.dedup.previous_frame())
        } else {
            None
        }
    }

    /// Whether the frame about to be processed falls on the resolution
    /// sampling grid, i.e. its index is a multiple of `interval`.
    pub fn should_sample_resolution(&self, interval: u32) -> (r: bool)
        requires
            interval > 0,
        ensures
            r == ((self.spec_frames() as int) % (interval as int) == 0),
    {
        self.frame_index % (interval as u64) == 0
    }

    /// Processes the next frame. `is_duplicate` is the verdict of comparing
    /// `frame` to `reference_frame()` (ignored for the first frame).
    ///
    /// A duplicate lengthens the last streak; any other frame opens a streak
    /// of one. With tear detection on, a tear between the previous frame and
    /// this one is recorded under this frame's index.
    #[verifier::spinoff_prover]
    pub fn push_frame(&mut self, frame: Vec<Rgb8>, is_duplicate: bool)
        requires
            old(self).wf(),
            old(self).spec_frames() < u64::MAX,
            old(self).spec_dedup().spec_has_prev() && is_duplicate ==> old(
                self,
            ).spec_dedup().spec_streak() < u32::MAX,
        ensures
            final(self).wf(),
            final(self).spec_frames() == old(self).spec_frames() + 1,
            final(self).spec_frames_seen() == old(self).spec_frames_seen().push(frame@),
            final(self).spec_last_frame() == Some(frame@),
            final(self).spec_width() == old(self).spec_width(),
            final(self).spec_height() == old(self).spec_height(),
            final(self).spec_tear_thresholds() == old(self).spec_tear_thresholds(),
            final(self).spec_dedup().spec_has_prev(),
            old(self).spec_dedup().spec_has_prev() && is_duplicate ==> {
                &&& final(self).spec_streaks() == old(self).spec_streaks().update(
                    old(self).spec_streaks().len() - 1,
                    (old(self).spec_streaks().last() + 1) as u32,
                )
                &&& final(self).spec_dedup().spec_prev_frame() == old(
                    self,
                ).spec_dedup().spec_prev_frame()
                &&& final(self).spec_dedup().spec_streak() == old(self).spec_dedup().spec_streak()
                    + 1
                &&& final(self).spec_dedup().spec_unique_index() == old(
                    self,
                ).spec_dedup().spec_unique_index()
            },
            old(self).spec_dedup().spec_has_prev() && is_duplicate ==> final(self).spec_streak_starts()
                == old(self).spec_streak_starts(),
            !(old(self).spec_dedup().spec_has_prev() && is_duplicate) ==> {
                &&& final(self).spec_streaks() == old(self).spec_streaks().push(1)
                &&& final(self).spec_streak_starts() == old(self).spec_streak_starts().push(
                    old(self).spec_frames(),
                )
                &&& final(self).spec_dedup().spec_prev_frame() == frame@
                &&& final(self).spec_dedup().spec_streak() == 1
                &&& final(self).spec_dedup().spec_unique_index() == old(self).spec_frames()
            },
            final(self).spec_tears().len() == old(self).spec_tears().len() + 1
                || final(self).spec_tears() == old(self).spec_tears(),
            final(self).spec_tears().take(old(self).spec_tears().len() as int) == old(
                self,
            ).spec_tears(),
            (final(self).spec_tears().len() == old(self).spec_tears().len() + 1) <==> tear_between(
                old(self).spec_tear_thresholds(),
                old(self).spec_last_frame(),
                frame@,
                old(self).spec_width() as int,
                old(self).spec_height() as int,
            ),
            final(self).spec_tears().len() == old(self).spec_tears().len() + 1 ==> ({
                let t = final(self).spec_tears().last();
                &&& t.frame_index == old(self).spec_frames()
                &&& t.tear_position.denom == old(self).spec_height()
                &&& t.tear_y == #[verifier::truncate] (t.tear_position.numer as u32)
                &&& old(self).spec_tear_thresholds() matches Some((high, low))
                &&& old(self).spec_last_frame() matches Some(prev)
                &&& is_first_tear(
                    prev,
                    frame@,
                    old(self).spec_width() as int,
                    old(self).spec_height() as int,
                    high,
                    low,
                    t.tear_position.numer as int,
                )
            }),
    {
        let ghost old_streaks = self.streaks@;
        let ghost old_tears = self.tears@;
        let ghost old_last = self.spec_last_frame();
        let index = self.frame_index;
        let dup = self.dedup.process(frame.as_slice(), index, is_duplicate);
        match dup {
            Some(d) => {
                let last = self.streaks.len() - 1;
                self.streaks.set(last, d.streak_length);
                proof {
                    lemma_seq_sum_update_last(old_streaks, d.streak_length);
                    assert forall|i: int| 0 <= i < self.streak_starts@.len() implies
                        #[trigger] self.streak_starts@[i] == seq_sum(self.streaks@.take(i)) by {
                        assert(self.streaks@.take(i) =~= old_streaks.take(i));
                    }
                }
            },
            None => {
                self.streaks.push(1);
                self.streak_starts.push(index);
                proof {
                    lemma_seq_sum_push(old_streaks, 1);
                    assert forall|i: int| 0 <= i < self.streak_starts@.len() implies
                        #[trigger] self.streak_starts@[i] == seq_sum(self.streaks@.take(i)) by {
                        assert(self.streaks@.take(i) =~= old_streaks.take(i));
                        if i == old_streaks.len() {
                            assert(old_streaks.take(i) =~= old_streaks);
                        }
                    }
                }
            },
        }
        match self.tear_thresholds {
            Some((high, low)) => {
                match &self.last_frame {
                    Some(prev) => {
                        let found = detect_tear(
                            prev.as_slice(),
                            frame.as_slice(),
                            self.width,
                            self.height,
                            high,
                            low,
                        );
                        proof {
                            assert(old_last == Some(prev@));
                            assert((found is Some) <==> tear_between(
                                Some((high, low)),
                                old_last,
                                frame@,
                                self.width as int,
                                self.height as int,
                            ));
                        }
                        match found {
                            Some(t) => {
                                self.tears.push(
                                    TearInfo {
                                        frame_index: index,
                                        tear_y: t.tear_y,
                                        tear_position: t.tear_position,
                                    },
                                );
                                assert(self.tears@.take(old_tears.len() as int) =~= old_tears);
                            },
                            None => {},
                        }
                    },
                    None => {},
                }
            },
            None => {},
        }
        assert(self.tears@.take(old_tears.len() as int) =~= old_tears);
        self.frames = Ghost(self.frames@.push(frame@));
        self.last_frame = Some(frame);
        self.frame_index = index + 1;
    }

    /// Number of frames processed so far.
    pub fn frames_processed(&self) -> (r: u64)
        ensures
            r == self.spec_frames(),
    {
        self.frame_index
    }

    /// Number of unique frames (streaks) so far.
    pub fn unique_frames(&self) -> (r: usize)
        ensures
            r == self.spec_streaks().len(),
    {
        self.streaks.len()
    }

    /// Number of duplicate frames so far: frames that repeated the frame
    /// before them.
    pub fn duplicate_frames(&self) -> (r: u64)
        requires
            self.wf(),
        ensures
            r == self.spec_frames() - self.spec_streaks().len(),
    {
        proof {
            lemma_seq_sum_at_least_len(self.streaks@);
        }
        self.frame_index - self.streaks.len() as u64
    }

    /// Streak length of every unique frame, in order.
    pub fn streaks(&self) -> (r: &[u32])
        ensures
            r@ == self.spec_streaks(),
    {
        self.streaks.as_slice()
    }

    /// Container index of the first frame of every streak, in order.
    pub fn streak_starts(&self) -> (r: &[u64])
        ensures
            r@ == self.spec_streak_starts(),
    {
        self.streak_starts.as_slice()
    }

    /// Tears found so far, in order.
    pub fn tears(&self) -> (r: &[TearInfo])
        ensures
            r@ == self.spec_tears(),
    {
        self.tears.as_slice()
    }

    /// Ends the analysis, handing back the streaks, their first frames and
    /// the tears.
    pub fn into_parts(self) -> (r: (Vec<u32>, Vec<u64>, Vec<TearInfo>))
        ensures
            r.0@ == self.spec_streaks(),
            r.1@ == self.spec_streak_starts(),
            r.2@ == self.spec_tears(),
    {
        (self.streaks, self.streak_starts, self.tears)
    }
}


/// The total of the streak lengths is their sum, each counted once.
pub proof fn lemma_seq_sum_adds_every_streak(s: Seq<u32>)
    ensures
        seq_sum(s) == sum_of(Seq::new(s.len(), |i: int| s[i] as int)),
    decreases s.len(),
{
    if s.len() > 0 {
        let f = |i: int| s[i] as int;
        let t = s.drop_last();
        lemma_seq_sum_adds_every_streak(t);
        lemma_sum_of_new_step(t.len(), f);
        assert(Seq::new(t.len(), |i: int| t[i] as int) =~= Seq::new(t.len(), f));
    }
}

} // verus!
