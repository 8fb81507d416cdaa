//! What a sampler plays in a block.

use crate::nodes::sampler::copy::{advanced, plan_ok, CopyPlan, LoadedSampleState};
use crate::nodes::sampler::engine::{
    after_mix, delay_of, filled_by, mixes, num_active, patched, wrapped, FadeMix, ResolvedTimes,
    SamplerAction, SamplerChanges, SamplerPatch, SamplerProcessor, SamplerView,
    SharedState, MAX_FRAMES,
};
use crate::nodes::sampler::resampler::{
    ascending, at_position, carried, carries_over, resample, resampled,
};
use crate::nodes::sampler::{PlaybackState, RepeatMode};
use vstd::prelude::*;

verus! {

/// What is heard of a sampler in a block, with the sample at its own speed.
#[derive(Debug)]
pub struct SamplerBlock {
    /// What is done with the audio before, in order.
    pub actions: Vec<SamplerAction>,
    /// Whether anything is heard. If not, all outputs are to be cleared.
    pub has_output: bool,
    /// The frames of the sample to copy, if it is heard.
    pub plan: Option<CopyPlan>,
    /// The number of channels that the sample fills.
    pub sample_channels: usize,
    /// The parts of the fades of samples that were stopped, to be mixed in.
    pub mixes: Vec<FadeMix>,
    /// The number of channels that are filled.
    pub num_filled_channels: usize,
}

/// What is left of a block once the sample was played: the fades that are mixed in, and
/// the sampler `after` it. `finished` says whether the sample has ended.
pub open spec fn block_ends(
    updated: SamplerView,
    frames: int,
    finished: bool,
    sample_channels: usize,
    block_mixes: Seq<FadeMix>,
    num_filled_channels: usize,
    after: SamplerView,
) -> bool {
    &&& block_mixes == mixes(
        updated.fades,
        updated.fade_frames,
        frames,
        updated.fades.len() as int,
    )
    &&& num_filled_channels == filled_by(
        updated.fades,
        sample_channels as int,
        updated.fades.len() as int,
    )
    &&& after == (SamplerView {
        loaded: after.loaded,
        state: if finished {
            PlaybackState::Stop
        } else {
            updated.state
        },
        fades: after_mix(updated.fades, frames),
        shared: if updated.processing() {
            SharedState {
                sample_playhead_frames: after.loaded->0.playhead_frames,
                stopped: updated.shared.stopped || finished,
                finished: if finished {
                    updated.params.playback_id
                } else {
                    updated.shared.finished
                },
                ..updated.shared
            }
        } else {
            updated.shared
        },
        ..updated
    })
}

/// Whether `block` is what is heard of a sampler in `frames` frames once changes of its
/// parameters took effect, and `after` is the sampler then.
pub open spec fn processed(
    before: SamplerView,
    changes: SamplerChanges,
    times: ResolvedTimes,
    num_out: int,
    frames: int,
    block: SamplerBlock,
    after: SamplerView,
) -> bool {
    let updated = before.update(changes, times, num_out);
    let finished = block.plan matches Some(plan) && plan.finished;
    &&& block.actions@ == before.update_actions(changes, times, num_out)
    &&& block.has_output == (updated.processing() || num_active(updated.fades) > 0)
    &&& match block.plan {
        Some(plan) => {
            &&& updated.processing()
            &&& plan_ok(updated.loaded->0, updated.params.repeat_mode, frames, plan)
            &&& after.loaded is Some
            &&& advanced(updated.loaded->0, plan.frames as int, after.loaded->0)
            &&& block.sample_channels == updated.channels_filled(num_out)
        },
        None => {
            &&& !updated.processing()
            &&& after.loaded == updated.loaded
            &&& block.sample_channels == 0
        },
    }
    &&& block_ends(
        updated,
        frames,
        finished,
        block.sample_channels,
        block.mixes@,
        block.num_filled_channels,
        after,
    )
}

/// What a sample is resampled with. `position` gives, for a frame of a block, the frame
/// before it of what the block is resampled from and how far it is after it; `read` reads a
/// frame of the sample.
#[derive(Debug)]
pub struct Resampling<S, F, R> {
    /// Whether the sample was not resampled yet.
    pub is_first_process: bool,
    /// Holds frames of the sample.
    pub scratch: Vec<S>,
    /// The last two frames of the last block.
    pub wrap: Vec<S>,
    /// The resampled frames.
    pub out: Vec<S>,
    /// Gives positions.
    pub position: F,
    /// Reads frames.
    pub read: R,
}

impl<S, W, F: Fn(usize) -> (usize, W), R: Fn(u64) -> S> Resampling<S, F, R> {
    /// Whether a block can be resampled: there is room for its frames, the positions do not
    /// go back, and the sample can be played as far as they go.
    pub open spec fn ready(
        self,
        frames: usize,
        loaded: Option<LoadedSampleState>,
        mode: RepeatMode,
    ) -> bool {
        &&& frames <= self.out@.len()
        &&& self.scratch@.len() > 2
        &&& self.wrap@.len() == 2
        &&& forall|i: usize| #[trigger] call_requires(self.position, (i,))
        &&& forall|frame: u64| #[trigger] call_requires(self.read, (frame,))
        &&& ascending(self.position, frames as int)
        &&& forall|p: usize|
            #[trigger] at_position(self.position, (frames - 1) as usize, p) ==> p + 2 <= usize::MAX
                && (loaded matches Some(l) ==> l.can_play(mode, p + 2))
    }
}

/// What is heard of a sampler in a block, with the sample at another speed.
#[derive(Debug)]
pub struct ResampledBlock {
    /// Whether anything is heard. If not, all outputs are to be cleared.
    pub has_output: bool,
    /// Whether the sample is heard.
    pub played: bool,
    /// Whether the sample has ended.
    pub finished: bool,
    /// The number of channels that the sample fills.
    pub sample_channels: usize,
    /// The parts of the fades of samples that were stopped, to be mixed in.
    pub mixes: Vec<FadeMix>,
    /// The number of channels that are filled.
    pub num_filled_channels: usize,
}

/// Whether `loaded` was resampled to the first `frames` frames of a block: each of them is a
/// mix of the two frames around its position, the two around the last one are carried over,
/// and the sample goes on after them, unless it has `finished`.
pub open spec fn sample_resampled<
    S,
    W,
    F: Fn(usize) -> (usize, W),
    M: Fn(S, S, W) -> S,
    R: Fn(u64) -> S,
>(
    mix: M,
    silence: S,
    loaded: LoadedSampleState,
    mode: RepeatMode,
    frames: usize,
    before: Resampling<S, F, R>,
    after: Resampling<S, F, R>,
    rest: LoadedSampleState,
    finished: bool,
) -> bool {
    let kept = carried(before.is_first_process, before.wrap@);
    let last = (frames - 1) as usize;
    &&& after.out@.len() == before.out@.len()
    &&& forall|i: int|
        0 <= i < frames ==> resampled(
            before.position,
            mix,
            before.read,
            silence,
            kept,
            loaded,
            mode,
            i as usize,
            #[trigger] after.out@[i],
        )
    &&& exists|p: usize|
        #[trigger] at_position(before.position, last, p) && carries_over(
            before.read,
            silence,
            kept,
            loaded,
            mode,
            p as int,
            after.wrap@,
        )
    &&& forall|p: usize|
        #[trigger] at_position(before.position, last, p) ==> {
            let needed = p + 2 - kept.len();
            advanced(loaded, loaded.frames_played(mode, needed), rest) && finished
                == !loaded.goes_on(mode, needed)
        }
}

/// Whether `block` is what is heard of a sampler in `frames` frames once changes of its
/// parameters took effect and what is to be done with the audio was done, with the sample
/// at another speed, and `after` is the sampler then.
pub open spec fn processed_resampled<
    S,
    W,
    F: Fn(usize) -> (usize, W),
    M: Fn(S, S, W) -> S,
    R: Fn(u64) -> S,
>(
    updated: SamplerView,
    num_out: int,
    frames: usize,
    mix: M,
    silence: S,
    ready: Resampling<S, F, R>,
    block: ResampledBlock,
    done: Resampling<S, F, R>,
    after: SamplerView,
) -> bool {
    &&& block.has_output == (updated.processing() || num_active(updated.fades) > 0)
    &&& block.played == updated.processing()
    &&& done.position == ready.position
    &&& done.read == ready.read
    &&& done.is_first_process == (ready.is_first_process && !block.played)
    &&& if block.played {
        &&& after.loaded is Some
        &&& sample_resampled(
            mix,
            silence,
            updated.loaded->0,
            updated.params.repeat_mode,
            frames,
            ready,
            done,
            after.loaded->0,
            block.finished,
        )
        &&& block.sample_channels == updated.channels_filled(num_out)
    } else {
        &&& after.loaded == updated.loaded
        &&& done == ready
        &&& !block.finished
        &&& block.sample_channels == 0
    }
    &&& block_ends(
        updated,
        frames as int,
        block.finished,
        block.sample_channels,
        block.mixes@,
        block.num_filled_channels,
        after,
    )
}

/// The sampler once a patch of its playback state was applied.
pub open spec fn requested(view: SamplerView, playback: PlaybackState, id: u64) -> SamplerView {
    SamplerView {
        params: patched(view.params, SamplerPatch::Playback(playback, id)),
        ..view
    }
}

/// The repetitions that a position accounts for can be counted.
proof fn lemma_wrapped_in_range(frames: int, len: int, mode: RepeatMode, looped: int)
    requires
        0 <= frames <= 2 * MAX_FRAMES,
        0 <= len <= MAX_FRAMES,
        0 <= looped <= MAX_FRAMES,
        mode is RepeatEndlessly ==> len > 0,
    ensures
        0 <= wrapped(frames, len, mode, looped).1 <= 3 * MAX_FRAMES,
{
    if len > 0 {
        assert(0 <= frames / len <= frames) by (nonlinear_arith)
            requires
                len > 0,
                frames >= 0,
        ;
    }
}

impl SamplerView {
    /// In a block, a sample that is heard can be played.
    proof fn lemma_can_play(
        self,
        changes: SamplerChanges,
        times: ResolvedTimes,
        num_out: int,
        frames: int,
    )
        requires
            self.in_range(times),
            self.loaded matches Some(loaded) ==> loaded.wf(),
            self.is_first ==> changes.sample,
            0 <= frames <= MAX_FRAMES,
            self.update(changes, times, num_out).loaded matches Some(loaded) ==> loaded.wf(),
        ensures
            self.update(changes, times, num_out).loaded matches Some(loaded) ==> loaded.can_play(
                self.params.repeat_mode,
                frames,
            ),
    {
        let with_sample = self.with_sample(changes, num_out);
        let mode = self.params.repeat_mode;
        if let Some(loaded) = with_sample.loaded {
            let len = loaded.sample_len_frames as int;
            let looped = if times.playhead_frames is Some {
                0
            } else {
                loaded.num_times_looped_back as int
            };
            let delay1 = delay_of(
                changes.playback_instant,
                times.event_samples,
                times.clock.0 as int,
            );
            let delay2 = delay_of(
                self.queued,
                times.queued_samples,
                times.clock.0 as int,
            );
            lemma_wrapped_in_range(with_sample.seek_frames(times, delay1), len, mode, looped);
            lemma_wrapped_in_range(with_sample.seek_frames(times, delay2), len, mode, looped);
        }
    }
}

impl SamplerProcessor {
    /// Changes of the parameters take effect, and the next `frames` frames are played, the
    /// sample at its own speed.
    #[verifier::spinoff_prover]
    pub fn process(
        &mut self,
        changes: SamplerChanges,
        times: ResolvedTimes,
        num_out_channels: usize,
        frames: usize,
    ) -> (block: SamplerBlock)
        requires
            old(self).wf(),
            old(self)@.in_range(times),
            old(self)@.is_first ==> changes.sample,
            frames <= MAX_FRAMES,
        ensures
            final(self).wf(),
            processed(
                old(self)@,
                changes,
                times,
                num_out_channels as int,
                frames as int,
                block,
                final(self)@,
            ),
    {
        proof {
            self.lemma_wf();
        }
        let actions = self.update(changes, times, num_out_channels);
        proof {
            self.lemma_wf();
            old(self)@.lemma_can_play(changes, times, num_out_channels as int, frames as int);
        }
        let has_output = self.has_output();
        let mut sample_channels: usize = 0;
        let plan = if self.currently_processing_sample() {
            sample_channels = self.num_channels_filled(num_out_channels);
            let plan = self.copy_from_sample(frames);
            self.sample_processed(self.declick_phase(), plan.finished);
            Some(plan)
        } else {
            None
        };
        let (mixes, num_filled_channels) = self.mix_fades(frames, sample_channels);
        SamplerBlock { actions, has_output, plan, sample_channels, mixes, num_filled_channels }
    }

    /// Changes of the parameters take effect, and the next `frames` frames are played, the
    /// sample at another speed. `act` does what is to be done with the audio before, in
    /// order, and then gives what the sample that is loaded is resampled with; `mix`
    /// interpolates between two frames.
    #[verifier::spinoff_prover]
    pub fn process_resampled<
        S: Copy,
        W: Copy,
        F: Fn(usize) -> (usize, W),
        M: Fn(S, S, W) -> S,
        R: Fn(u64) -> S,
        A: FnOnce(Vec<SamplerAction>, Option<LoadedSampleState>) -> Resampling<S, F, R>,
    >(
        &mut self,
        changes: SamplerChanges,
        times: ResolvedTimes,
        num_out_channels: usize,
        frames: usize,
        silence: S,
        mix: &M,
        act: A,
    ) -> (result: (ResampledBlock, Resampling<S, F, R>))
        requires
            old(self).wf(),
            old(self)@.in_range(times),
            old(self)@.is_first ==> changes.sample,
            frames > 0,
            forall|a: S, b: S, w: W| #[trigger] call_requires(*mix, (a, b, w)),
            forall|actions: Vec<SamplerAction>, loaded: Option<LoadedSampleState>| #[trigger]
                call_requires(act, (actions, loaded)),
            forall|
                actions: Vec<SamplerAction>,
                loaded: Option<LoadedSampleState>,
                ready: Resampling<S, F, R>,
            | #[trigger]
                call_ensures(act, (actions, loaded), ready) ==> ready.ready(
                    frames,
                    loaded,
                    old(self)@.params.repeat_mode,
                ),
        ensures
            final(self).wf(),
            exists|actions: Vec<SamplerAction>, ready: Resampling<S, F, R>| #[trigger]
                call_ensures(
                    act,
                    (
                        actions,
                        old(self)@.update(changes, times, num_out_channels as int).loaded,
                    ),
                    ready,
                ) && actions@ == old(self)@.update_actions(
                    changes,
                    times,
                    num_out_channels as int,
                ) && processed_resampled(
                    old(self)@.update(changes, times, num_out_channels as int),
                    num_out_channels as int,
                    frames,
                    *mix,
                    silence,
                    ready,
                    result.0,
                    result.1,
                    final(self)@,
                ),
    {
        let actions = self.update(changes, times, num_out_channels);
        let ghost updated = self@;
        let ghost actions0 = actions;
        proof {
            self.lemma_wf();
        }
        let resampling = act(actions, self.loaded());
        let ghost ready = resampling;
        assert(call_ensures(act, (actions0, updated.loaded), ready));
        let mut resampling = resampling;
        let has_output = self.has_output();
        let played = self.currently_processing_sample();
        let mut finished = false;
        let mut sample_channels: usize = 0;
        if played {
            if let Some(loaded) = self.loaded() {
                let mut loaded = loaded;
                sample_channels = self.num_channels_filled(num_out_channels);
                finished =
                resample(
                    &mut loaded,
                    self.params().repeat_mode,
                    resampling.out.as_mut_slice(),
                    frames,
                    resampling.is_first_process,
                    resampling.scratch.as_mut_slice(),
                    resampling.wrap.as_mut_slice(),
                    silence,
                    &resampling.position,
                    mix,
                    &resampling.read,
                );
                resampling.is_first_process = false;
                self.played_to(loaded);
                self.sample_processed(self.declick_phase(), finished);
            }
        }
        let (mixes, num_filled_channels) = self.mix_fades(frames, sample_channels);
        let block = ResampledBlock {
            has_output,
            played,
            finished,
            sample_channels,
            mixes,
            num_filled_channels,
        };
        (block, resampling)
    }
}

} // verus!
