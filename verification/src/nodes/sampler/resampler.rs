//! The bookkeeping of the resampler, which plays a sample at another speed.

use crate::nodes::sampler::copy::{
    advanced, copies, contiguous, lemma_advanced, lemma_advanced_twice, lemma_segment_end,
    CopySegment,
    LoadedSampleState,
};
use crate::nodes::sampler::RepeatMode;
use vstd::prelude::*;
use vstd::slice::slice_subrange;

verus! {

/// The part of a block that is left to resample. The frames of the sample are
/// copied to scratch buffers, as many at a time as fit.
#[derive(Debug, Clone, Copy, PartialEq, Eq, Structural)]
pub struct ResampleLoop {
    /// The number of frames of the block.
    pub total_out_frames: usize,
    /// The number of frames of the block that are done.
    pub output_frames_processed: usize,
    /// The number of frames of the sample that the block needs.
    pub input_frames_needed: usize,
    /// The number of frames of the sample before the scratch buffers.
    pub input_frames_processed: usize,
    /// The number of frames in the scratch buffers that are there already.
    pub copy_start: usize,
    /// The length of the scratch buffers.
    pub max_block_frames: usize,
}

impl ResampleLoop {
    /// Well-formedness: the last two frames that are needed are not passed.
    pub open spec fn wf(&self) -> bool {
        &&& self.output_frames_processed <= self.total_out_frames
        &&& self.input_frames_processed + 2 <= self.input_frames_needed
        &&& self.copy_start == 0 || self.copy_start == 2
        &&& self.max_block_frames > 2
    }

    /// The number of frames of the sample that are in the scratch buffers for the
    /// next step.
    pub open spec fn input_frames(&self) -> int {
        let left = self.input_frames_needed - self.input_frames_processed;
        if left < self.max_block_frames {
            left
        } else {
            self.max_block_frames as int
        }
    }

    /// Starts to resample a block. `last_in_frame` is the frame of the sample for
    /// the last frame of the block.
    pub fn new(
        total_out_frames: usize,
        last_in_frame: usize,
        is_first_process: bool,
        max_block_frames: usize,
    ) -> (state: Self)
        requires
            last_in_frame + 2 <= usize::MAX,
            max_block_frames > 2,
        ensures
            state.wf(),
            state == (ResampleLoop {
                total_out_frames,
                output_frames_processed: 0,
                input_frames_needed: (last_in_frame + 2) as usize,
                input_frames_processed: 0,
                copy_start: if is_first_process {
                    0
                } else {
                    2
                },
                max_block_frames,
            }),
    {
        ResampleLoop {
            total_out_frames,
            output_frames_processed: 0,
            input_frames_needed: last_in_frame + 2,
            input_frames_processed: 0,
            copy_start: if is_first_process {
                0
            } else {
                2
            },
            max_block_frames,
        }
    }

    /// The number of frames that are in the scratch buffers for the next step. Those
    /// from [`ResampleLoop::copy_start`] on are to be copied from the sample.
    pub fn next_input(&self) -> (frames: usize)
        requires
            self.wf(),
        ensures
            frames == self.input_frames(),
            2 <= frames <= self.max_block_frames,
    {
        let left: usize = self.input_frames_needed - self.input_frames_processed;
        if left < self.max_block_frames {
            left
        } else {
            self.max_block_frames
        }
    }

    /// A step is done. The last two frames in the scratch buffers are the first two
    /// of the next step.
    pub fn advance(&mut self, out_frames_count: usize)
        requires
            old(self).wf(),
            out_frames_count <= old(self).total_out_frames - old(self).output_frames_processed,
        ensures
            final(self).wf(),
            *final(self) == (ResampleLoop {
                output_frames_processed: (old(self).output_frames_processed
                    + out_frames_count) as usize,
                input_frames_processed: (old(self).input_frames_processed + old(
                    self,
                ).input_frames() - 2) as usize,
                copy_start: 2,
                ..*old(self)
            }),
    {
        let input_frames: usize = self.next_input();
        self.output_frames_processed = self.output_frames_processed + out_frames_count;
        self.input_frames_processed = self.input_frames_processed + (input_frames - 2);
        self.copy_start = 2;
    }
}

/// Whether frame `value` of the output is mixed from the two frames around the
/// position of output frame `frame` in scratch buffers that start at frame `base`.
pub open spec fn interpolated<S, W, F: Fn(usize) -> (usize, W), M: Fn(S, S, W) -> S>(
    position: F,
    mix: M,
    scratch: Seq<S>,
    base: int,
    frame: usize,
    value: S,
) -> bool {
    exists|p: usize, w: W|
        #![trigger call_ensures(position, (frame,), (p, w))]
        call_ensures(position, (frame,), (p, w)) && 0 <= p - base && p - base + 1 < scratch.len()
            && call_ensures(mix, (scratch[p - base], scratch[p - base + 1], w), value)
}

/// Whether the position of output frame `frame` is past the scratch buffers.
pub open spec fn past_end<W, F: Fn(usize) -> (usize, W)>(
    position: F,
    len: int,
    base: int,
    frame: usize,
) -> bool {
    exists|p: usize, w: W|
        #![trigger call_ensures(position, (frame,), (p, w))]
        call_ensures(position, (frame,), (p, w)) && p - base + 1 >= len
}

/// Whether `p` is the frame of the sample before output frame `frame`.
pub open spec fn at_position<W, F: Fn(usize) -> (usize, W)>(
    position: F,
    frame: usize,
    p: usize,
) -> bool {
    exists|w: W| #[trigger] call_ensures(position, (frame,), (p, w))
}

/// Fills frames `start..end` of a channel of the output, of which the first is frame
/// `first` of the block, up to the first one whose position is past the scratch
/// buffer. `position` gives the frame of the sample before a frame of the block and
/// how far it is after it; `mix` interpolates between two frames. Returns the number
/// of frames that were filled.
pub fn interpolate<S: Copy, W: Copy, F: Fn(usize) -> (usize, W), M: Fn(S, S, W) -> S>(
    out: &mut [S],
    start: usize,
    end: usize,
    first: usize,
    scratch: &[S],
    base: usize,
    position: &F,
    mix: &M,
) -> (filled: usize)
    requires
        start <= end <= old(out)@.len(),
        first + (end - start) <= usize::MAX,
        scratch@.len() > 1,
        forall|i: usize| #[trigger] call_requires(*position, (i,)),
        forall|a: S, b: S, w: W| #[trigger] call_requires(*mix, (a, b, w)),
        forall|i: usize, p: usize, w: W|
            first <= i < first + (end - start) && #[trigger] call_ensures(*position, (i,), (p, w))
                ==> p >= base,
    ensures
        final(out)@.len() == old(out)@.len(),
        filled <= end - start,
        forall|i: int|
            0 <= i < old(out)@.len() && !(start <= i < start + filled) ==> #[trigger] final(out)@[i]
                == old(out)@[i],
        forall|i: int|
            start <= i < start + filled ==> interpolated(
                *position,
                *mix,
                scratch@,
                base as int,
                (first + i - start) as usize,
                #[trigger] final(out)@[i],
            ),
        filled < end - start ==> past_end(
            *position,
            scratch@.len() as int,
            base as int,
            (first + filled) as usize,
        ),
{
    let mut count: usize = 0;
    let num: usize = end - start;
    while count < num
        invariant
            num == end - start,
            start <= end <= out@.len(),
            out@.len() == old(out)@.len(),
            count <= num,
            first + num <= usize::MAX,
            scratch@.len() > 1,
            forall|i: usize| #[trigger] call_requires(*position, (i,)),
            forall|a: S, b: S, w: W| #[trigger] call_requires(*mix, (a, b, w)),
            forall|i: usize, p: usize, w: W|
                first <= i < first + num && #[trigger] call_ensures(*position, (i,), (p, w)) ==> p
                    >= base,
            forall|i: int|
                0 <= i < old(out)@.len() && !(start <= i < start + count) ==> #[trigger] out@[i]
                    == old(out)@[i],
            forall|i: int|
                start <= i < start + count ==> interpolated(
                    *position,
                    *mix,
                    scratch@,
                    base as int,
                    (first + i - start) as usize,
                    #[trigger] out@[i],
                ),
        decreases num - count,
    {
        let frame: usize = first + count;
        let (p, w) = position(frame);
        let in_frame: usize = p - base;
        if in_frame >= scratch.len() - 1 {
            assert(past_end(*position, scratch@.len() as int, base as int, frame));
            return count;
        }
        let value = mix(scratch[in_frame], scratch[in_frame + 1], w);
        assert(interpolated(*position, *mix, scratch@, base as int, frame, value));
        out[start + count] = value;
        count += 1;
    }
    count
}

/// Keeps the last two of the frames in a scratch buffer, with which the next step starts.
pub fn carry<S: Copy>(scratch: &[S], input_frames: usize, wrap: &mut [S])
    requires
        2 <= input_frames <= scratch@.len(),
        old(wrap)@.len() == 2,
    ensures
        final(wrap)@ == scratch@.subrange(input_frames - 2, input_frames as int),
{
    wrap[0] = scratch[input_frames - 2];
    wrap[1] = scratch[input_frames - 1];
    assert(wrap@ =~= scratch@.subrange(input_frames - 2, input_frames as int));
}

/// Whether `value` is frame `frame` of what a block is resampled from: the frames that
/// were carried over from the last block, then the frames that are left to play, and
/// then silence.
pub open spec fn input_frame<S, R: Fn(u64) -> S>(
    read: R,
    silence: S,
    carried: Seq<S>,
    loaded: LoadedSampleState,
    mode: RepeatMode,
    frame: int,
    value: S,
) -> bool {
    if frame < carried.len() {
        value == carried[frame]
    } else if loaded.plays(mode, frame - carried.len()) {
        call_ensures(read, (loaded.source(frame - carried.len()) as u64,), value)
    } else {
        value == silence
    }
}

/// Whether `value` is frame `frame` of a resampled block: a mix of the two frames around
/// its position.
pub open spec fn resampled<
    S,
    W,
    F: Fn(usize) -> (usize, W),
    M: Fn(S, S, W) -> S,
    R: Fn(u64) -> S,
>(
    position: F,
    mix: M,
    read: R,
    silence: S,
    carried: Seq<S>,
    loaded: LoadedSampleState,
    mode: RepeatMode,
    frame: usize,
    value: S,
) -> bool {
    exists|p: usize, w: W, a: S, b: S|
        #![trigger call_ensures(position, (frame,), (p, w)), call_ensures(mix, (a, b, w), value)]
        {
            &&& call_ensures(position, (frame,), (p, w))
            &&& input_frame(read, silence, carried, loaded, mode, p as int, a)
            &&& input_frame(read, silence, carried, loaded, mode, p + 1, b)
            &&& call_ensures(mix, (a, b, w), value)
        }
}

/// Whether the frame at `p` and the next one are those that were carried over.
pub open spec fn carries_over<S, R: Fn(u64) -> S>(
    read: R,
    silence: S,
    carried: Seq<S>,
    loaded: LoadedSampleState,
    mode: RepeatMode,
    p: int,
    wrap: Seq<S>,
) -> bool {
    &&& wrap.len() == 2
    &&& input_frame(read, silence, carried, loaded, mode, p, wrap[0])
    &&& input_frame(read, silence, carried, loaded, mode, p + 1, wrap[1])
}

/// Whether later frames of a block are at later positions.
pub open spec fn ascending<W, F: Fn(usize) -> (usize, W)>(position: F, frames: int) -> bool {
    forall|i: usize, j: usize, p: usize, q: usize, w: W, v: W|
        i <= j < frames && #[trigger] call_ensures(position, (i,), (p, w))
            && #[trigger] call_ensures(position, (j,), (q, v)) ==> p <= q
}

/// The frames that were carried over from the last block, if there was one.
pub open spec fn carried<S>(is_first_process: bool, wrap: Seq<S>) -> Seq<S> {
    if is_first_process {
        Seq::empty()
    } else {
        wrap
    }
}

/// Fills frames `start..end` of a buffer with the next frames of a sample, and the rest
/// of them with silence. Returns whether the sample has ended.
pub fn fill<S: Copy, R: Fn(u64) -> S>(
    loaded: &mut LoadedSampleState,
    mode: RepeatMode,
    buffer: &mut [S],
    start: usize,
    end: usize,
    silence: S,
    read: &R,
) -> (finished: bool)
    requires
        start <= end <= old(buffer)@.len(),
        old(loaded).can_play(mode, end - start),
        forall|frame: u64| #[trigger] call_requires(*read, (frame,)),
    ensures
        finished == !old(loaded).goes_on(mode, end - start),
        advanced(*old(loaded), old(loaded).frames_played(mode, end - start), *final(loaded)),
        final(loaded).num_times_looped_back <= old(loaded).num_times_looped_back + (end - start),
        final(buffer)@.len() == old(buffer)@.len(),
        forall|i: int|
            0 <= i < old(buffer)@.len() && !(start <= i < end) ==> #[trigger] final(buffer)@[i]
                == old(buffer)@[i],
        forall|i: int|
            start <= i < end ==> input_frame(
                *read,
                silence,
                Seq::empty(),
                *old(loaded),
                mode,
                i - start,
                #[trigger] final(buffer)@[i],
            ),
{
    let ghost before = *loaded;
    let block_frames: usize = end - start;
    let plan = loaded.copy_from_sample(block_frames, mode);
    let num: usize = plan.segments.len();
    let mut filled: usize = 0;
    for s in 0..num
        invariant
            num == plan.segments@.len(),
            block_frames == end - start,
            start <= end <= buffer@.len(),
            buffer@.len() == old(buffer)@.len(),
            plan.frames <= block_frames,
            plan.frames == before.frames_played(mode, block_frames as int),
            contiguous(plan.segments@, plan.frames as int),
            forall|i: int|
                0 <= i < num ==> copies(#[trigger] plan.segments@[i], before),
            forall|frame: u64| #[trigger] call_requires(*read, (frame,)),
            filled == (if s < num {
                plan.segments@[s as int].start as int
            } else {
                plan.frames as int
            }),
            filled <= plan.frames,
            forall|i: int|
                0 <= i < old(buffer)@.len() && !(start <= i < end) ==> #[trigger] buffer@[i]
                    == old(buffer)@[i],
            forall|i: int|
                start <= i < start + filled ==> input_frame(
                    *read,
                    silence,
                    Seq::empty(),
                    before,
                    mode,
                    i - start,
                    #[trigger] buffer@[i],
                ),
    {
        let segment: CopySegment = plan.segments[s];
        proof {
            lemma_segment_end(plan.segments@, plan.frames as int, s as int);
        }
        for k in 0..segment.frames
            invariant
                segment == plan.segments@[s as int],
                copies(segment, before),
                segment.start + segment.frames <= plan.frames <= block_frames,
                plan.frames == before.frames_played(mode, block_frames as int),
                block_frames == end - start,
                start <= end <= buffer@.len(),
                buffer@.len() == old(buffer)@.len(),
                forall|frame: u64| #[trigger] call_requires(*read, (frame,)),
                filled == segment.start,
                forall|i: int|
                    0 <= i < old(buffer)@.len() && !(start <= i < end) ==> #[trigger] buffer@[i]
                        == old(buffer)@[i],
                forall|i: int|
                    start <= i < start + filled + k ==> input_frame(
                        *read,
                        silence,
                        Seq::empty(),
                        before,
                        mode,
                        i - start,
                        #[trigger] buffer@[i],
                    ),
        {
            assert(before.source(segment.start + k) == segment.from + k);
            let value = read(segment.from + k as u64);
            assert(input_frame(*read, silence, Seq::empty(), before, mode, filled + k, value));
            buffer[start + filled + k] = value;
        }
        filled = filled + segment.frames;
    }
    let mut i: usize = start + filled;
    while i < end
        invariant
            start <= end <= buffer@.len(),
            buffer@.len() == old(buffer)@.len(),
            block_frames == end - start,
            filled == before.frames_played(mode, block_frames as int),
            start + filled <= i <= end,
            forall|j: int|
                0 <= j < old(buffer)@.len() && !(start <= j < end) ==> #[trigger] buffer@[j]
                    == old(buffer)@[j],
            forall|j: int|
                start <= j < i ==> input_frame(
                    *read,
                    silence,
                    Seq::empty(),
                    before,
                    mode,
                    j - start,
                    #[trigger] buffer@[j],
                ),
        decreases end - i,
    {
        buffer[i] = silence;
        i += 1;
    }
    plan.finished
}

/// Whether `loaded` is a sample of which `asked` frames were asked for.
pub open spec fn asked_for(
    before: LoadedSampleState,
    mode: RepeatMode,
    asked: int,
    loaded: LoadedSampleState,
) -> bool {
    &&& advanced(before, before.frames_played(mode, asked), loaded)
    &&& loaded.num_times_looped_back <= before.num_times_looped_back + asked
}

/// Fills a scratch buffer from frame `start` on, where `asked` frames of the sample were
/// asked for already.
fn refill<S: Copy, R: Fn(u64) -> S>(
    loaded: &mut LoadedSampleState,
    mode: RepeatMode,
    scratch: &mut [S],
    start: usize,
    end: usize,
    silence: S,
    read: &R,
    Ghost(kept): Ghost<Seq<S>>,
    Ghost(before): Ghost<LoadedSampleState>,
    Ghost(asked): Ghost<int>,
) -> (ended: bool)
    requires
        start <= end <= old(scratch)@.len(),
        0 <= asked,
        before.can_play(mode, asked + (end - start)),
        asked_for(before, mode, asked, *old(loaded)),
        forall|frame: u64| #[trigger] call_requires(*read, (frame,)),
    ensures
        asked_for(before, mode, asked + (end - start), *final(loaded)),
        before.goes_on(mode, asked + (end - start)) == (before.goes_on(mode, asked) && !ended),
        final(scratch)@.len() == old(scratch)@.len(),
        forall|i: int| 0 <= i < start ==> #[trigger] final(scratch)@[i] == old(scratch)@[i],
        forall|i: int|
            start <= i < end ==> input_frame(
                *read,
                silence,
                kept,
                before,
                mode,
                asked + kept.len() - start + i,
                #[trigger] final(scratch)@[i],
            ),
{
    let ghost mid = *loaded;
    proof {
        lemma_played_on(before, mode, asked, mid, end - start);
    }
    let ended = fill(loaded, mode, scratch, start, end, silence, read);
    proof {
        lemma_advanced_twice(
            before,
            before.frames_played(mode, asked),
            mid,
            mid.frames_played(mode, end - start),
            *loaded,
        );
        assert forall|i: int| start <= i < end implies input_frame(
            *read,
            silence,
            kept,
            before,
            mode,
            asked + kept.len() - start + i,
            #[trigger] scratch@[i],
        ) by {
            lemma_played_frame(before, mode, asked, mid, i - start);
            assert(input_frame(*read, silence, Seq::empty(), mid, mode, i - start, scratch@[i]));
        }
    }
    ended
}

/// Fills the first `frames` frames of `out` with a sample at another speed. `position`
/// gives, for a frame of the block, the frame before it of what the block is resampled
/// from and how far it is after it; `mix` interpolates between two frames; `read` reads a
/// frame of the sample. What the block is resampled from starts with the two frames of
/// `wrap`, unless this is the first block, and goes on with the frames of the sample that
/// are left to play; as many of them at a time are held in `scratch` as fit. The two
/// frames around the last frame of the block are left in `wrap`. Returns whether the
/// sample has ended.
pub fn resample<
    S: Copy,
    W: Copy,
    F: Fn(usize) -> (usize, W),
    M: Fn(S, S, W) -> S,
    R: Fn(u64) -> S,
>(
    loaded: &mut LoadedSampleState,
    mode: RepeatMode,
    out: &mut [S],
    frames: usize,
    is_first_process: bool,
    scratch: &mut [S],
    wrap: &mut [S],
    silence: S,
    position: &F,
    mix: &M,
    read: &R,
) -> (finished: bool)
    requires
        0 < frames <= old(out)@.len(),
        old(scratch)@.len() > 2,
        old(wrap)@.len() == 2,
        forall|i: usize| #[trigger] call_requires(*position, (i,)),
        forall|a: S, b: S, w: W| #[trigger] call_requires(*mix, (a, b, w)),
        forall|frame: u64| #[trigger] call_requires(*read, (frame,)),
        ascending(*position, frames as int),
        forall|p: usize|
            #[trigger] at_position(*position, (frames - 1) as usize, p) ==> p + 2 <= usize::MAX
                && old(loaded).can_play(mode, p + 2),
    ensures
        final(out)@.len() == old(out)@.len(),
        final(scratch)@.len() == old(scratch)@.len(),
        forall|i: int|
            frames <= i < old(out)@.len() ==> #[trigger] final(out)@[i] == old(out)@[i],
        forall|i: int|
            0 <= i < frames ==> resampled(
                *position,
                *mix,
                *read,
                silence,
                carried(is_first_process, old(wrap)@),
                *old(loaded),
                mode,
                i as usize,
                #[trigger] final(out)@[i],
            ),
        exists|p: usize|
            #[trigger] at_position(*position, (frames - 1) as usize, p) && carries_over(
                *read,
                silence,
                carried(is_first_process, old(wrap)@),
                *old(loaded),
                mode,
                p as int,
                final(wrap)@,
            ),
        forall|p: usize|
            #[trigger] at_position(*position, (frames - 1) as usize, p) ==> {
                let needed = p + 2 - carried(is_first_process, old(wrap)@).len();
                let played = old(loaded).frames_played(mode, needed);
                advanced(*old(loaded), played, *final(loaded)) && finished == !old(loaded).goes_on(
                    mode,
                    needed,
                )
            },
{
    let ghost before = *loaded;
    let ghost kept = carried(is_first_process, wrap@);
    let (last, last_weight) = position(frames - 1);
    proof {
        assert(call_ensures(*position, ((frames - 1) as usize,), (last, last_weight)));
        assert(at_position(*position, (frames - 1) as usize, last));
    }
    let mut state = ResampleLoop::new(frames, last, is_first_process, scratch.len());
    let mut finished: bool = false;
    proof {
        lemma_none_played(before, mode);
    }
    while state.output_frames_processed < frames
        invariant
            state.wf(),
            state.total_out_frames == frames,
            state.input_frames_needed == last + 2,
            state.max_block_frames == scratch@.len(),
            state.copy_start == 0 ==> state.input_frames_processed == 0 && is_first_process,
            state.copy_start >= kept.len(),
            0 < frames <= out@.len(),
            out@.len() == old(out)@.len(),
            scratch@.len() == old(scratch)@.len(),
            scratch@.len() > 2,
            wrap@.len() == 2,
            kept.len() == (if is_first_process { 0int } else { 2 }),
            forall|i: usize| #[trigger] call_requires(*position, (i,)),
            forall|a: S, b: S, w: W| #[trigger] call_requires(*mix, (a, b, w)),
            forall|frame: u64| #[trigger] call_requires(*read, (frame,)),
            ascending(*position, frames as int),
            call_ensures(*position, ((frames - 1) as usize,), (last, last_weight)),
            before.can_play(mode, last + 2),
            asked_for(
                before,
                mode,
                state.input_frames_processed + state.copy_start - kept.len(),
                *loaded,
            ),
            finished == !before.goes_on(
                mode,
                state.input_frames_processed + state.copy_start - kept.len(),
            ),
            state.copy_start > 0 ==> carries_over(
                *read,
                silence,
                kept,
                before,
                mode,
                state.input_frames_processed as int,
                wrap@,
            ),
            forall|i: usize, p: usize, w: W|
                state.output_frames_processed <= i < frames && #[trigger] call_ensures(
                    *position,
                    (i,),
                    (p, w),
                ) ==> p >= state.input_frames_processed,
            state.output_frames_processed == frames ==> state.input_frames_processed == last
                && state.copy_start == 2,
            forall|i: int|
                frames <= i < old(out)@.len() ==> #[trigger] out@[i] == old(out)@[i],
            forall|i: int|
                0 <= i < state.output_frames_processed ==> resampled(
                    *position,
                    *mix,
                    *read,
                    silence,
                    kept,
                    before,
                    mode,
                    i as usize,
                    #[trigger] out@[i],
                ),
        decreases
            frames - state.output_frames_processed + state.input_frames_needed
                - state.input_frames_processed,
    {
        let input_frames: usize = state.next_input();
        let ghost base = state.input_frames_processed as int;
        let ghost out0 = out@;
        let ghost asked = base + state.copy_start - kept.len();
        let copy_start: usize = state.copy_start;
        if copy_start > 0 {
            scratch[0] = wrap[0];
            scratch[1] = wrap[1];
        }
        let ended = refill(
            loaded,
            mode,
            scratch,
            copy_start,
            input_frames,
            silence,
            read,
            Ghost(kept),
            Ghost(before),
            Ghost(asked),
        );
        if ended {
            finished = true;
        }
        assert(forall|i: int|
            0 <= i < input_frames ==> input_frame(
                *read,
                silence,
                kept,
                before,
                mode,
                base + i,
                #[trigger] scratch@[i],
            ));
        let first: usize = state.output_frames_processed;
        let filled_scratch = slice_subrange(scratch, 0, input_frames);
        let count: usize = interpolate(
            out,
            first,
            frames,
            first,
            filled_scratch,
            state.input_frames_processed,
            position,
            mix,
        );
        proof {
            assert forall|i: int| 0 <= i < first + count implies resampled(
                *position,
                *mix,
                *read,
                silence,
                kept,
                before,
                mode,
                i as usize,
                #[trigger] out@[i],
            ) by {
                if i < first {
                    assert(out@[i] == out0[i]);
                } else {
                    lemma_resampled(
                        *position,
                        *mix,
                        *read,
                        silence,
                        kept,
                        before,
                        mode,
                        filled_scratch@,
                        base,
                        i as usize,
                        out@[i],
                    );
                }
            }
            if first + count == frames {
                let i = frames - 1;
                assert(interpolated(
                    *position,
                    *mix,
                    filled_scratch@,
                    base,
                    (first + i - first) as usize,
                    out@[i],
                ));
                assert(last - base + 1 < input_frames);
            } else {
                assert(past_end(
                    *position,
                    input_frames as int,
                    base,
                    (first + count) as usize,
                ));
            }
        }
        carry(scratch, input_frames, wrap);
        state.advance(count);
    }
    finished
}

/// Before anything is played, all is left.
proof fn lemma_none_played(state: LoadedSampleState, mode: RepeatMode)
    requires
        state.wf(),
    ensures
        state.frames_played(mode, 0) == 0,
        advanced(state, 0, state),
{
    if let RepeatMode::RepeatMultiple { num_times_to_repeat } = mode {
        if state.num_times_looped_back < num_times_to_repeat {
            assert((num_times_to_repeat - state.num_times_looped_back) * state.sample_len_frames
                >= 0) by (nonlinear_arith)
                requires
                    state.num_times_looped_back < num_times_to_repeat,
                    state.sample_len_frames >= 0,
            ;
        }
    }
}

/// What is left to play is never less than nothing.
proof fn lemma_left(state: LoadedSampleState, mode: RepeatMode)
    requires
        state.wf(),
    ensures
        state.frames_left(mode) matches Some(left) ==> left >= 0,
{
    lemma_none_played(state, mode);
}

/// Once `asked` frames were asked for, a sample can go on with more.
proof fn lemma_played_on(
    before: LoadedSampleState,
    mode: RepeatMode,
    asked: int,
    mid: LoadedSampleState,
    more: int,
)
    requires
        before.can_play(mode, asked + more),
        0 <= asked,
        0 <= more,
        advanced(before, before.frames_played(mode, asked), mid),
        mid.num_times_looped_back <= before.num_times_looped_back + asked,
    ensures
        mid.can_play(mode, more),
        before.frames_played(mode, asked + more) == before.frames_played(mode, asked)
            + mid.frames_played(mode, more),
        before.goes_on(mode, asked + more) == (before.goes_on(mode, asked) && mid.goes_on(
            mode,
            more,
        )),
        0 <= before.frames_played(mode, asked) <= asked,
        0 <= mid.frames_played(mode, more) <= more,
{
    lemma_left(before, mode);
    let played = before.frames_played(mode, asked);
    lemma_advanced(before, mode, played, mid);
    lemma_left(mid, mode);
}

/// The frames that a sample goes on with.
proof fn lemma_played_frame(
    before: LoadedSampleState,
    mode: RepeatMode,
    asked: int,
    mid: LoadedSampleState,
    j: int,
)
    requires
        before.can_play(mode, asked),
        0 <= asked,
        0 <= j,
        advanced(before, before.frames_played(mode, asked), mid),
    ensures
        mid.plays(mode, j) == before.plays(mode, asked + j),
        mid.plays(mode, j) ==> mid.source(j) == before.source(asked + j),
{
    lemma_left(before, mode);
    let played = before.frames_played(mode, asked);
    lemma_advanced(before, mode, played, mid);
    if mid.plays(mode, j) {
        assert(played == asked);
        assert(before.sample_len_frames > 0) by {
            if let RepeatMode::RepeatMultiple { num_times_to_repeat } = mode {
                let r = num_times_to_repeat - mid.num_times_looped_back;
                assert(r * mid.sample_len_frames == 0 || mid.sample_len_frames > 0)
                    by (nonlinear_arith)
                    requires
                        mid.sample_len_frames >= 0,
                ;
            }
        }
        assert(mid.source(j) == before.source(played + j));
    }
}

/// A frame that is mixed from what is in the scratch buffer is resampled.
proof fn lemma_resampled<
    S,
    W,
    F: Fn(usize) -> (usize, W),
    M: Fn(S, S, W) -> S,
    R: Fn(u64) -> S,
>(
    position: F,
    mix: M,
    read: R,
    silence: S,
    kept: Seq<S>,
    loaded: LoadedSampleState,
    mode: RepeatMode,
    scratch: Seq<S>,
    base: int,
    frame: usize,
    value: S,
)
    requires
        interpolated(position, mix, scratch, base, frame, value),
        forall|i: int|
            0 <= i < scratch.len() ==> input_frame(
                read,
                silence,
                kept,
                loaded,
                mode,
                base + i,
                #[trigger] scratch[i],
            ),
    ensures
        resampled(position, mix, read, silence, kept, loaded, mode, frame, value),
{
    let (p, w) = choose|p: usize, w: W|
        #![trigger call_ensures(position, (frame,), (p, w))]
        call_ensures(position, (frame,), (p, w)) && 0 <= p - base && p - base + 1 < scratch.len()
            && call_ensures(mix, (scratch[p - base], scratch[p - base + 1], w), value);
    let a = scratch[p - base];
    let b = scratch[p - base + 1];
    assert(input_frame(read, silence, kept, loaded, mode, base + (p - base), a));
    assert(input_frame(read, silence, kept, loaded, mode, base + (p - base + 1), b));
    assert(call_ensures(position, (frame,), (p, w)) && call_ensures(mix, (a, b, w), value));
}

/// How a block is resampled does not depend on how many frames are held at a time: with
/// functions that always give the same result, only one value can be a frame of it.
pub proof fn law_resampled_frame_is_unique<
    S,
    W,
    F: Fn(usize) -> (usize, W),
    M: Fn(S, S, W) -> S,
    R: Fn(u64) -> S,
>(
    position: F,
    mix: M,
    read: R,
    silence: S,
    kept: Seq<S>,
    loaded: LoadedSampleState,
    mode: RepeatMode,
    frame: usize,
    value1: S,
    value2: S,
)
    requires
        forall|i: usize, r1: (usize, W), r2: (usize, W)| #[trigger]
            call_ensures(position, (i,), r1) && #[trigger] call_ensures(position, (i,), r2) ==> r1
                == r2,
        forall|a: S, b: S, w: W, s1: S, s2: S| #[trigger]
            call_ensures(mix, (a, b, w), s1) && #[trigger] call_ensures(mix, (a, b, w), s2) ==> s1
                == s2,
        forall|i: u64, s1: S, s2: S| #[trigger]
            call_ensures(read, (i,), s1) && #[trigger] call_ensures(read, (i,), s2) ==> s1 == s2,
        resampled(position, mix, read, silence, kept, loaded, mode, frame, value1),
        resampled(position, mix, read, silence, kept, loaded, mode, frame, value2),
    ensures
        value1 == value2,
{
}

/// As many frames of the sample are taken at a time as the block still needs, as far as there
/// is room for them.
pub proof fn law_input_is_taken_as_far_as_there_is_room(state: ResampleLoop)
    ensures
        state.input_frames() <= state.max_block_frames,
        state.input_frames() <= state.input_frames_needed - state.input_frames_processed,
        state.input_frames() == state.max_block_frames || state.input_frames_processed
            + state.input_frames() == state.input_frames_needed,
{
}

/// A frame that is interpolated is mixed of the two frames that are held at its position.
/// Where interpolation stops, one of these is not held.
pub proof fn law_interpolation_mixes_two_held_frames<
    S,
    W,
    F: Fn(usize) -> (usize, W),
    M: Fn(S, S, W) -> S,
>(position: F, mix: M, scratch: Seq<S>, base: int, frame: usize, value: S, p: usize, w: W)
    requires
        forall|r: (usize, W)| #[trigger] call_ensures(position, (frame,), r) ==> r == (p, w),
    ensures
        interpolated(position, mix, scratch, base, frame, value) ==> base <= p && p + 1 < base
            + scratch.len() && call_ensures(
            mix,
            (scratch[p - base], scratch[p + 1 - base], w),
            value,
        ),
        past_end::<W, F>(position, scratch.len() as int, base, frame) ==> p + 1 >= base
            + scratch.len(),
        at_position::<W, F>(position, frame, p) ==> call_ensures(position, (frame,), (p, w)),
        forall|q: usize| #[trigger] at_position::<W, F>(position, frame, q) ==> q == p,
{
}

} // verus!
