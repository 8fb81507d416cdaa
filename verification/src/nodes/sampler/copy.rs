//! Which frames of a sample are played.

use crate::nodes::sampler::RepeatMode;
use vstd::prelude::*;

verus! {

/// A sample that is being played.
#[derive(Debug, Clone, Copy, PartialEq, Eq, Structural)]
pub struct LoadedSampleState {
    /// The length of the sample in frames.
    pub sample_len_frames: u64,
    /// The number of channels of the sample.
    pub sample_num_channels: usize,
    /// Whether the sample is converted to stereo.
    pub sample_mono_to_stereo: bool,
    /// The next frame to play.
    pub playhead_frames: u64,
    /// The number of times the sample was repeated.
    pub num_times_looped_back: u64,
}

/// A run of frames to copy from a sample.
#[derive(Debug, Clone, Copy, PartialEq, Eq, Structural)]
pub struct CopySegment {
    /// The first frame in the buffer.
    pub start: usize,
    /// The number of frames.
    pub frames: usize,
    /// The first frame in the sample.
    pub from: u64,
}

/// The frames to copy from a sample to a buffer. The frames after them are filled
/// with silence.
#[derive(Debug)]
pub struct CopyPlan {
    /// The runs of frames, in order.
    pub segments: Vec<CopySegment>,
    /// The number of frames that are copied.
    pub frames: usize,
    /// Whether the sample has finished playing.
    pub finished: bool,
}

impl LoadedSampleState {
    /// Whether the playhead is in the sample or at its end.
    pub open spec fn wf(self) -> bool {
        self.playhead_frames <= self.sample_len_frames
    }

    /// The number of frames up to the end of the sample.
    pub open spec fn to_end(self) -> int {
        self.sample_len_frames - self.playhead_frames
    }

    /// The number of frames that are left to play, with all repetitions, or `None`
    /// if it never ends.
    pub open spec fn frames_left(self, mode: RepeatMode) -> Option<int> {
        match mode {
            RepeatMode::PlayOnce => Some(self.to_end()),
            RepeatMode::RepeatMultiple { num_times_to_repeat } => Some(
                self.to_end() + if self.num_times_looped_back < num_times_to_repeat {
                    (num_times_to_repeat - self.num_times_looped_back) * self.sample_len_frames
                } else {
                    0
                },
            ),
            RepeatMode::RepeatEndlessly => None,
        }
    }

    /// Whether there is a frame of the sample to play `j` frames from now.
    pub open spec fn plays(self, mode: RepeatMode, j: int) -> bool {
        match self.frames_left(mode) {
            Some(left) => j < left,
            None => true,
        }
    }

    /// Whether there are `block_frames` frames of the sample to play.
    pub open spec fn goes_on(self, mode: RepeatMode, block_frames: int) -> bool {
        match self.frames_left(mode) {
            Some(left) => left >= block_frames,
            None => true,
        }
    }

    /// The number of frames that are played if there is room for `block_frames`.
    pub open spec fn frames_played(self, mode: RepeatMode, block_frames: int) -> int {
        match self.frames_left(mode) {
            Some(left) => if left < block_frames {
                left
            } else {
                block_frames
            },
            None => block_frames,
        }
    }

    /// Whether the repetitions in a block can be counted, and a sample that is repeated
    /// endlessly has a length.
    pub open spec fn can_play(self, mode: RepeatMode, block_frames: int) -> bool {
        &&& self.wf()
        &&& mode is RepeatEndlessly ==> self.sample_len_frames > 0
        &&& self.num_times_looped_back + block_frames <= u64::MAX
    }

    /// The frame of the sample that is played `j` frames from now: those up to the
    /// end, and then the sample from its beginning, again and again.
    pub open spec fn source(self, j: int) -> int {
        if j < self.to_end() {
            self.playhead_frames + j
        } else {
            (j - self.to_end()) % (self.sample_len_frames as int)
        }
    }

    /// The number of frames that were played, with all repetitions.
    pub open spec fn played(self) -> int {
        self.num_times_looped_back * self.sample_len_frames + self.playhead_frames
    }
}

/// Whether runs follow each other from the start of a buffer up to frame `frames`.
pub open spec fn contiguous(segments: Seq<CopySegment>, frames: int) -> bool {
    &&& segments.len() == 0 ==> frames == 0
    &&& segments.len() > 0 ==> segments[0].start == 0 && segments.last().start
        + segments.last().frames == frames
    &&& forall|i: int| 0 <= i < segments.len() ==> (#[trigger] segments[i]).frames > 0
    &&& forall|i: int, j: int|
        0 <= i < segments.len() && j == i + 1 && j < segments.len() ==> (
        #[trigger] segments[j]).start == (#[trigger] segments[i]).start + segments[i].frames
}

/// Where a run of frames ends.
pub proof fn lemma_segment_end(segments: Seq<CopySegment>, frames: int, s: int)
    requires
        contiguous(segments, frames),
        0 <= s < segments.len(),
    ensures
        segments[s].start + segments[s].frames == if s + 1 < segments.len() {
            segments[s + 1].start as int
        } else {
            frames
        },
        segments[s].start + segments[s].frames <= frames,
    decreases segments.len() - s,
{
    if s + 1 < segments.len() {
        let j = s + 1;
        assert(segments[j].start == segments[s].start + segments[s].frames);
        lemma_segment_end(segments, frames, s + 1);
    }
}

/// Whether a run copies the frames of a sample that are played at its place.
pub open spec fn copies(segment: CopySegment, state: LoadedSampleState) -> bool {
    forall|k: int|
        0 <= k < segment.frames ==> #[trigger] state.source(segment.start + k) == segment.from + k
            && segment.from + k < state.sample_len_frames
}

/// Whether `plan` is what is copied of a sample to `block_frames` frames.
pub open spec fn plan_ok(
    before: LoadedSampleState,
    mode: RepeatMode,
    block_frames: int,
    plan: CopyPlan,
) -> bool {
    &&& match before.frames_left(mode) {
        Some(left) => {
            &&& plan.finished == (left < block_frames)
            &&& plan.frames == if left < block_frames {
                left
            } else {
                block_frames
            }
        },
        None => !plan.finished && plan.frames == block_frames,
    }
    &&& contiguous(plan.segments@, plan.frames as int)
    &&& forall|i: int| 0 <= i < plan.segments@.len() ==> copies(#[trigger] plan.segments@[i], before)
}

/// Whether `after` is the state of a sample once `frames` frames were played.
pub open spec fn advanced(before: LoadedSampleState, frames: int, after: LoadedSampleState) -> bool {
    &&& after == (LoadedSampleState {
        playhead_frames: after.playhead_frames,
        num_times_looped_back: after.num_times_looped_back,
        ..before
    })
    &&& after.wf()
    &&& after.played() == before.played() + frames
    &&& frames <= before.to_end() ==> after.num_times_looped_back == before.num_times_looped_back
    &&& frames > 0 ==> after.playhead_frames > 0
}

proof fn lemma_mod_offset(k: int, len: int, i: int)
    requires
        0 <= i < len,
        0 <= k,
    ensures
        (k * len + i) % len == i,
{
    vstd::arithmetic::div_mod::lemma_fundamental_div_mod_converse(k * len + i, len, k, i);
}

/// Frames that are played one after the other, over whole repetitions.
pub proof fn lemma_source(state: LoadedSampleState, j: int)
    requires
        state.wf(),
        state.sample_len_frames > 0,
        j >= 0,
    ensures
        state.source(j) == (state.played() + j) % (state.sample_len_frames as int),
{
    let len = state.sample_len_frames as int;
    let n = state.num_times_looped_back as int;
    if j < state.to_end() {
        lemma_mod_offset(n, len, state.playhead_frames + j);
    } else {
        let i = j - state.to_end();
        assert(state.played() + j == (n + 1) * len + i) by (nonlinear_arith)
            requires
                state.played() == n * len + state.playhead_frames,
                i == j - (len - state.playhead_frames),
        ;
        vstd::arithmetic::div_mod::lemma_mod_multiples_vanish(n + 1, i, len);
        assert((n + 1) * len == len * (n + 1)) by (nonlinear_arith);
    }
}

/// What is left to play once some frames were played.
pub proof fn lemma_advanced(
    before: LoadedSampleState,
    mode: RepeatMode,
    frames: int,
    after: LoadedSampleState,
)
    requires
        before.wf(),
        0 <= frames,
        advanced(before, frames, after),
        frames == before.frames_played(mode, frames),
    ensures
        match before.frames_left(mode) {
            Some(left) => after.frames_left(mode) == Some(left - frames),
            None => after.frames_left(mode) is None,
        },
        forall|j: int|
            0 <= j && before.sample_len_frames > 0 ==> #[trigger] after.source(j) == before.source(
                frames + j,
            ),
{
    let len = before.sample_len_frames as int;
    let n0 = before.num_times_looped_back as int;
    let n1 = after.num_times_looped_back as int;
    assert forall|j: int| 0 <= j && len > 0 implies #[trigger] after.source(j) == before.source(
        frames + j,
    ) by {
        lemma_source(after, j);
        lemma_source(before, frames + j);
    }
    if frames <= before.to_end() {
        assert(n1 == n0);
    }
    if let RepeatMode::RepeatMultiple { num_times_to_repeat } = mode {
        let r = num_times_to_repeat as int;
        if n0 < r && len > 0 {
            assert(n1 <= r) by (nonlinear_arith)
                requires
                    len > 0,
                    n0 < r,
                    frames <= len - before.playhead_frames + (r - n0) * len,
                    n1 * len + after.playhead_frames == n0 * len + before.playhead_frames + frames,
                    frames > 0 ==> after.playhead_frames > 0,
                    frames == 0 ==> n1 == n0,
                    frames >= 0,
            ;
            assert((len - after.playhead_frames) + (r - n1) * len == (len
                - before.playhead_frames) + (r - n0) * len - frames) by (nonlinear_arith)
                requires
                    n1 * len + after.playhead_frames == n0 * len + before.playhead_frames + frames,
            ;
            if n1 == r {
                assert((r - n1) * len == 0) by (nonlinear_arith)
                    requires
                        n1 == r,
                ;
            }
        }
    }
}

/// Playing on is playing more.
pub proof fn lemma_advanced_twice(
    before: LoadedSampleState,
    frames: int,
    mid: LoadedSampleState,
    more: int,
    after: LoadedSampleState,
)
    requires
        before.wf(),
        0 <= frames,
        0 <= more,
        advanced(before, frames, mid),
        advanced(mid, more, after),
    ensures
        advanced(before, frames + more, after),
{
}

impl LoadedSampleState {
    /// The frames of the sample to copy to the next `block_frames` frames of a
    /// buffer, starting from the current playhead. Then increments the playhead.
    pub fn copy_from_sample(&mut self, block_frames: usize, mode: RepeatMode) -> (plan: CopyPlan)
        requires
            old(self).can_play(mode, block_frames as int),
        ensures
            plan_ok(*old(self), mode, block_frames as int, plan),
            advanced(*old(self), plan.frames as int, *final(self)),
            final(self).num_times_looped_back <= old(self).num_times_looped_back + plan.frames,
    {
        let ghost before = *self;
        let ghost len = before.sample_len_frames as int;
        let mut segments: Vec<CopySegment> = Vec::new();
        let to_end: u64 = self.sample_len_frames - self.playhead_frames;
        let mut frames: usize = if to_end < block_frames as u64 {
            to_end as usize
        } else {
            block_frames
        };
        if frames > 0 {
            let segment = CopySegment { start: 0, frames, from: self.playhead_frames };
            assert(copies(segment, before));
            segments.push(segment);
            self.playhead_frames = self.playhead_frames + frames as u64;
        }
        let ghost first = frames as int;
        let ghost mut k: int = 0;
        while frames < block_frames && self.sample_len_frames > 0 && mode.do_loop(
            self.num_times_looped_back,
        )
            invariant
                before == *old(self),
                before.wf(),
                len == before.sample_len_frames,
                mode is RepeatEndlessly ==> len > 0,
                before.num_times_looped_back + block_frames <= u64::MAX,
                *self == (LoadedSampleState {
                    playhead_frames: self.playhead_frames,
                    num_times_looped_back: self.num_times_looped_back,
                    ..before
                }),
                self.wf(),
                0 <= k <= frames <= block_frames,
                first == if before.to_end() < block_frames {
                    before.to_end()
                } else {
                    block_frames as int
                },
                k == 0 ==> frames == first,
                k > 0 ==> first == before.to_end(),
                self.num_times_looped_back == before.num_times_looped_back + k,
                forall|m: int|
                    0 <= m < k ==> #[trigger] mode.repeats_after(before.num_times_looped_back + m),
                frames < block_frames ==> frames == first + k * len && self.playhead_frames == len,
                frames <= first + k * len,
                k > 0 ==> frames > first + (k - 1) * len,
                self.played() == before.played() + frames,
                frames > 0 ==> self.playhead_frames > 0,
                contiguous(segments@, frames as int),
                forall|i: int| 0 <= i < segments@.len() ==> copies(#[trigger] segments@[i], before),
            decreases block_frames - frames,
        {
            let left: usize = block_frames - frames;
            let copy_frames: usize = if self.sample_len_frames < left as u64 {
                self.sample_len_frames as usize
            } else {
                left
            };
            let segment = CopySegment { start: frames, frames: copy_frames, from: 0 };
            let ghost frames0 = frames as int;
            let ghost self0 = *self;
            proof {
                assert(mode.repeats_after(before.num_times_looped_back + k));
                assert(mode.repeats_after(before.num_times_looped_back as int)) by {
                    if k > 0 {
                        assert(mode.repeats_after(before.num_times_looped_back + 0));
                    }
                }
                assert forall|i: int| 0 <= i < copy_frames implies #[trigger] before.source(
                    segment.start + i,
                ) == i by {
                    lemma_mod_offset(k, len, i);
                }
                assert(copies(segment, before));
                assert((k + 1) * len == k * len + len) by (nonlinear_arith);
                assert((self.num_times_looped_back + 1) * len == self.num_times_looped_back * len
                    + len) by (nonlinear_arith);
            }
            segments.push(segment);
            self.playhead_frames = copy_frames as u64;
            self.num_times_looped_back = self.num_times_looped_back + 1;
            frames = frames + copy_frames;
            proof {
                k = k + 1;
            }
        }
        proof {
            let n = before.num_times_looped_back;
            if frames < block_frames && len > 0 {
                assert(!mode.repeats_after(n + k));
            }
            if let RepeatMode::RepeatMultiple { num_times_to_repeat } = mode {
                if n < num_times_to_repeat {
                    let r = num_times_to_repeat - n;
                    if k > 0 {
                        assert(mode.repeats_after(n + (k - 1)));
                    }
                    assert(k <= r);
                    if len == 0 {
                        assert(r * len == 0) by (nonlinear_arith)
                            requires
                                len == 0,
                        ;
                    }
                    assert(k * len <= r * len) by (nonlinear_arith)
                        requires
                            k <= r,
                            len >= 0,
                    ;
                }
            }
            if k > 0 {
                assert(mode.repeats_after(n + 0));
            }
        }
        CopyPlan { finished: frames < block_frames, segments, frames }
    }
}

} // verus!
