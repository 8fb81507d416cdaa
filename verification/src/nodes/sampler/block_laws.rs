//! What is heard of a sampler in a block, and what is known of it after.

use crate::clock::{DurationSamples, DurationSeconds, EventInstant, InstantSamples};
use crate::mask::SilenceMask;
use crate::nodes::sampler::block::{
    processed, processed_resampled, requested, ResampledBlock, Resampling, SamplerBlock,
};
use crate::nodes::sampler::copy::{copies, lemma_source, LoadedSampleState};
use crate::nodes::sampler::engine::{
    delay_of, filled_by, first_free, mixes, noted, num_active, patched, silent_from, ResolvedTimes,
    SampleInfo, SamplerAction, SamplerChanges, SamplerParams, SamplerPatch, SamplerView,
    SharedState, StopDeclickerState,
};
use crate::nodes::sampler::resampler::{
    at_position, carried, carries_over, input_frame, resampled,
};
use crate::nodes::sampler::{PlaybackState, Playhead, RepeatMode};
use vstd::prelude::*;

verus! {

/// The number of channels that a sample fills: as many as it has, as far as there are
/// outputs. A mono sample that is converted to stereo fills two.
pub open spec fn fills(loaded: LoadedSampleState, num_out: int, channels: int) -> bool {
    &&& loaded.sample_mono_to_stereo ==> channels == 2
    &&& !loaded.sample_mono_to_stereo ==> channels <= num_out && channels
        <= loaded.sample_num_channels && (channels == num_out || channels
        == loaded.sample_num_channels)
}

/// Whether a sample is as a loaded one says.
pub open spec fn is_loaded(
    sample: SampleInfo,
    mono_to_stereo: bool,
    num_out: int,
    loaded: LoadedSampleState,
) -> bool {
    &&& loaded.sample_len_frames == sample.len_frames
    &&& loaded.sample_num_channels == sample.num_channels
    &&& loaded.sample_mono_to_stereo <==> mono_to_stereo && sample.num_channels == 1 && num_out
        >= 2
}

/// A sample that is heard in a block fills as many channels as it has, as far as there are
/// outputs, unless it is a mono sample that is converted to stereo, which fills two. One
/// that is not heard fills none.
pub proof fn law_heard_sample_fills_its_channels(
    before: SamplerView,
    changes: SamplerChanges,
    times: ResolvedTimes,
    num_out: int,
    frames: int,
    block: SamplerBlock,
    after: SamplerView,
)
    requires
        processed(before, changes, times, num_out, frames, block, after),
    ensures
        block.plan is Some ==> after.loaded is Some && fills(
            after.loaded->0,
            num_out,
            block.sample_channels as int,
        ),
        block.plan is Some && after.loaded->0.sample_num_channels == 1
            && !after.loaded->0.sample_mono_to_stereo && num_out >= 1 ==> block.sample_channels == 1,
        block.plan is None ==> block.sample_channels == 0,
        block.num_filled_channels >= block.sample_channels,
{
    let updated = before.update(changes, times, num_out);
    lemma_filled(updated.fades, block.sample_channels as int, updated.fades.len() as int);
}

/// The same holds where the sample is resampled.
pub proof fn law_heard_resampled_sample_fills_its_channels<
    S,
    W,
    F: Fn(usize) -> (usize, W),
    M: Fn(S, S, W) -> S,
    R: Fn(u64) -> S,
>(
    updated: SamplerView,
    num_out: int,
    frames: usize,
    mix: M,
    silence: S,
    ready: Resampling<S, F, R>,
    block: ResampledBlock,
    done: Resampling<S, F, R>,
    after: SamplerView,
)
    requires
        processed_resampled(updated, num_out, frames, mix, silence, ready, block, done, after),
    ensures
        block.played ==> updated.loaded is Some && fills(
            updated.loaded->0,
            num_out,
            block.sample_channels as int,
        ),
        !block.played ==> block.sample_channels == 0,
        block.num_filled_channels >= block.sample_channels,
        block.played <==> updated.params.sample is Some && updated.loaded is Some && (
        updated.state is Play || (updated.state is Pause && updated.declicker is Fading)),
        block.has_output <==> block.played || block.mixes@.len() > 0,
        block.played ==> done.is_first_process == false,
        !block.played ==> done == ready && after.loaded == updated.loaded,
        block.finished ==> block.played && after.state is Stop && after.shared.stopped
            && after.shared.finished == updated.params.playback_id,
        !block.finished ==> after.state == updated.state && after.shared.finished
            == updated.shared.finished && after.shared.stopped == updated.shared.stopped,
        block.played ==> after.shared.sample_playhead_frames == after.loaded->0.playhead_frames,
{
    lemma_filled(updated.fades, block.sample_channels as int, updated.fades.len() as int);
    lemma_mixes(updated.fades, updated.fade_frames, frames as int, updated.fades.len() as int);
    lemma_active(updated.fades);
}

/// In the block in which a sample is set it is loaded as it is, and if it is heard, it fills
/// as many channels as it has, as far as there are outputs, or two if it is converted to
/// stereo.
#[verifier::spinoff_prover]
#[verifier::rlimit(50)]
pub proof fn law_set_sample_is_the_one_heard(
    before: SamplerView,
    changes: SamplerChanges,
    times: ResolvedTimes,
    num_out: int,
    frames: int,
    block: SamplerBlock,
    after: SamplerView,
)
    requires
        changes.sample,
        before.params.sample is Some,
        processed(before, changes, times, num_out, frames, block, after),
    ensures
        after.loaded is Some,
        is_loaded(before.params.sample->0, before.params.mono_to_stereo, num_out, after.loaded->0),
        block.plan is Some ==> ({
            let sample = before.params.sample->0;
            block.sample_channels == if before.params.mono_to_stereo && sample.num_channels == 1
                && num_out >= 2 {
                2
            } else if sample.num_channels <= num_out {
                sample.num_channels as int
            } else {
                num_out
            }
        }),
        block.actions@.contains(SamplerAction::Load),
        !block.actions@.contains(SamplerAction::Unload),
{
    let first = before.sample_actions(changes, num_out);
    assert(first.last() == SamplerAction::Load);
    assert(block.actions@[first.len() - 1] == SamplerAction::Load);
}

/// In the block in which the sample is taken away nothing of it is heard, and the sampler is
/// stopped.
#[verifier::spinoff_prover]
#[verifier::rlimit(50)]
pub proof fn law_no_sample_is_not_heard(
    before: SamplerView,
    changes: SamplerChanges,
    times: ResolvedTimes,
    num_out: int,
    frames: int,
    block: SamplerBlock,
    after: SamplerView,
)
    requires
        changes.sample,
        before.params.sample is None,
        processed(before, changes, times, num_out, frames, block, after),
    ensures
        after.loaded is None,
        block.plan is None,
        after.state is Stop,
        after.shared.stopped,
        !after.shared.playing,
        block.actions@.contains(SamplerAction::Unload),
        !block.actions@.contains(SamplerAction::Load),
{
    let first = before.sample_actions(changes, num_out);
    assert(first.last() == SamplerAction::Unload);
    assert(block.actions@[first.len() - 1] == SamplerAction::Unload);
}

/// A sample that is set replaces the last one, from its beginning, and as if it had never
/// been repeated. It does not play before it is asked to.
#[verifier::spinoff_prover]
#[verifier::rlimit(50)]
pub proof fn law_set_sample_waits_at_its_beginning(
    before: SamplerView,
    changes: SamplerChanges,
    times: ResolvedTimes,
    num_out: int,
    frames: int,
    block: SamplerBlock,
    after: SamplerView,
)
    requires
        changes.sample,
        before.params.sample is Some,
        processed(before, changes, times, num_out, frames, block, after),
        // There is no request to play it, or its time is not known.
        if changes.playback {
            before.params.playback is Stop
        } else {
            before.params.playback is Stop || (before.queued is Some && times.queued_samples is None)
        },
    ensures
        after.state is Stop,
        block.plan is None,
        after.loaded->0.playhead_frames == 0,
        after.loaded->0.num_times_looped_back == 0,
        !changes.playback ==> after.queued is None,
{
}

/// As long as the sample is not changed, what is loaded stays as it is but for where it is
/// played.
#[verifier::spinoff_prover]
#[verifier::rlimit(50)]
pub proof fn law_loaded_sample_stays(
    before: SamplerView,
    changes: SamplerChanges,
    times: ResolvedTimes,
    num_out: int,
    frames: int,
    block: SamplerBlock,
    after: SamplerView,
)
    requires
        !changes.sample,
        processed(before, changes, times, num_out, frames, block, after),
    ensures
        after.loaded is Some <==> before.loaded is Some,
        before.loaded is Some ==> after.loaded->0.sample_len_frames
            == before.loaded->0.sample_len_frames && after.loaded->0.sample_num_channels
            == before.loaded->0.sample_num_channels && after.loaded->0.sample_mono_to_stereo
            == before.loaded->0.sample_mono_to_stereo,
        after.params == before.params,
        after.fade_frames == before.fade_frames,
        after.fades.len() == before.fades.len(),
        !after.is_first,
        !block.actions@.contains(SamplerAction::Load),
        !block.actions@.contains(SamplerAction::Unload),
{
    let updated = before.update(changes, times, num_out);
    lemma_first_is_valid(before.fades, 0);
    assert(updated.fades.len() == before.fades.len());
    assert(after.fades.len() == updated.fades.len());
}

/// In a block in which nothing changes, the sample is heard if it plays, or if it is paused
/// and still fades out, and only then.
pub proof fn law_what_is_heard_goes_on(
    before: SamplerView,
    changes: SamplerChanges,
    times: ResolvedTimes,
    num_out: int,
    frames: int,
    block: SamplerBlock,
    after: SamplerView,
)
    requires
        !changes.sample,
        !changes.playback,
        !changes.repeat_mode,
        processed(before, changes, times, num_out, frames, block, after),
    ensures
        block.plan is Some <==> before.params.sample is Some && before.loaded is Some && (
        before.state is Play || (before.state is Pause && before.declicker is Fading)),
        block.actions@.len() == 0,
        after.queued == before.queued,
        after.declicker == before.declicker,
        after.shared.playing <==> before.state is Play,
        !(block.plan is Some && block.plan->0.finished) ==> after.state == before.state
            && after.shared.finished == before.shared.finished && (after.shared.stopped
            <==> before.state is Stop),
        block.plan is None ==> after.loaded == before.loaded && after.shared.sample_playhead_frames
            == before.shared.sample_playhead_frames,
{
}

/// Something is heard in a block if and only if the sample is, or a fade of one that was
/// stopped.
pub proof fn law_output_is_sample_or_fade(
    before: SamplerView,
    changes: SamplerChanges,
    times: ResolvedTimes,
    num_out: int,
    frames: int,
    block: SamplerBlock,
    after: SamplerView,
)
    requires
        processed(before, changes, times, num_out, frames, block, after),
    ensures
        block.has_output <==> block.plan is Some || block.mixes@.len() > 0,
{
    let updated = before.update(changes, times, num_out);
    lemma_mixes(updated.fades, updated.fade_frames, frames, updated.fades.len() as int);
    lemma_active(updated.fades);
}

/// A sample that ends in a block is stopped, and the main thread is told which playback has
/// finished. Where the sample was heard, the main thread sees its playhead.
pub proof fn law_end_of_sample_is_told(
    before: SamplerView,
    changes: SamplerChanges,
    times: ResolvedTimes,
    num_out: int,
    frames: int,
    block: SamplerBlock,
    after: SamplerView,
)
    requires
        processed(before, changes, times, num_out, frames, block, after),
    ensures
        block.plan is Some && block.plan->0.finished ==> after.state is Stop && after.shared.stopped
            && after.shared.finished == before.params.playback_id,
        block.plan is Some ==> after.shared.sample_playhead_frames
            == after.loaded->0.playhead_frames,
        block.plan is Some && !block.plan->0.finished ==> (after.shared.playing
            <==> after.state is Play) && (after.shared.stopped <==> after.state is Stop),
        block.plan is None ==> (after.shared.playing <==> after.state is Play) && (
        after.shared.stopped <==> after.state is Stop),
{
}

/// While nothing changes, a sample plays on from its playhead, and from its beginning again
/// where it repeats: frame `j` of the block is frame `playhead + j` of the sample, counted
/// round. Without repetitions it ends with its last frame, and with them after as many.
pub proof fn law_sample_plays_on(
    before: SamplerView,
    changes: SamplerChanges,
    times: ResolvedTimes,
    num_out: int,
    frames: int,
    block: SamplerBlock,
    after: SamplerView,
    i: int,
    k: int,
)
    requires
        !changes.sample,
        !changes.playback,
        !changes.repeat_mode,
        frames >= 0,
        processed(before, changes, times, num_out, frames, block, after),
        block.plan is Some,
        before.loaded is Some,
        before.loaded->0.playhead_frames <= before.loaded->0.sample_len_frames,
    ensures
        ({
            let plan = block.plan->0;
            let old_state = before.loaded->0;
            let new_state = after.loaded->0;
            let len = old_state.sample_len_frames as int;
            let to_end = len - old_state.playhead_frames;
            &&& match before.params.repeat_mode {
                RepeatMode::PlayOnce => {
                    &&& plan.finished <==> to_end < frames
                    &&& plan.frames == if to_end < frames {
                        to_end
                    } else {
                        frames
                    }
                },
                RepeatMode::RepeatEndlessly => !plan.finished && plan.frames == frames,
                RepeatMode::RepeatMultiple { num_times_to_repeat } => {
                    let again = if old_state.num_times_looped_back < num_times_to_repeat {
                        num_times_to_repeat - old_state.num_times_looped_back
                    } else {
                        0
                    };
                    &&& plan.finished <==> to_end + again * len < frames
                    &&& plan.frames == if to_end + again * len < frames {
                        to_end + again * len
                    } else {
                        frames
                    }
                },
            }
            &&& new_state.num_times_looped_back * len + new_state.playhead_frames
                == old_state.num_times_looped_back * len + old_state.playhead_frames + plan.frames
            &&& new_state.playhead_frames <= len
            &&& plan.frames > 0 ==> new_state.playhead_frames > 0
            &&& plan.frames > 0 ==> plan.segments@.len() > 0 && plan.segments@[0].start == 0
                && plan.segments@.last().start + plan.segments@.last().frames == plan.frames
            &&& 0 < i < plan.segments@.len() ==> plan.segments@[i].start == plan.segments@[i
                - 1].start + plan.segments@[i - 1].frames
            &&& 0 <= i < plan.segments@.len() && 0 <= k < plan.segments@[i].frames ==> len > 0
                && plan.segments@[i].from + k < len && plan.segments@[i].from + k == (
            old_state.playhead_frames + plan.segments@[i].start + k) % len
        }),
{
    let plan = block.plan->0;
    let state = before.loaded->0;
    let segments = plan.segments@;
    if 0 < i < segments.len() {
        let h = i - 1;
        assert(segments[i].start == segments[h].start + segments[h].frames);
    }
    if 0 <= i < segments.len() && 0 <= k < segments[i].frames {
        assert(copies(segments[i], state));
        assert(state.source(segments[i].start + k) == segments[i].from + k);
        lemma_counted_round(state, segments[i].start + k);
    }
}

/// Whether a sample has a frame to play `j` frames after its playhead: before its end, or as
/// long as it repeats.
pub open spec fn has_frame(loaded: LoadedSampleState, mode: RepeatMode, j: int) -> bool {
    let len = loaded.sample_len_frames as int;
    match mode {
        RepeatMode::PlayOnce => loaded.playhead_frames + j < len,
        RepeatMode::RepeatEndlessly => true,
        RepeatMode::RepeatMultiple { num_times_to_repeat } => if loaded.num_times_looped_back
            < num_times_to_repeat {
            loaded.playhead_frames + j < len + (num_times_to_repeat - loaded.num_times_looped_back)
                * len
        } else {
            loaded.playhead_frames + j < len
        },
    }
}

/// Whether a value is frame `j` of what is resampled: first come the frames that were kept,
/// then those of the sample from its playhead on, counted round where it repeats, and then
/// silence.
pub open spec fn is_frame<S, R: Fn(u64) -> S>(
    read: R,
    silence: S,
    kept: Seq<S>,
    loaded: LoadedSampleState,
    mode: RepeatMode,
    j: int,
    value: S,
) -> bool {
    &&& j < kept.len() ==> value == kept[j]
    &&& j >= kept.len() && has_frame(loaded, mode, j - kept.len()) && loaded.sample_len_frames > 0
        ==> call_ensures(
        read,
        (((loaded.playhead_frames + j - kept.len()) % (loaded.sample_len_frames as int)) as u64,),
        value,
    )
    &&& j >= kept.len() && !has_frame(loaded, mode, j - kept.len()) ==> value == silence
}

/// A frame of a block that is resampled is mixed of two frames that follow one another, at
/// the position that the frame is given. Where the sample was resampled before, the first two
/// frames are the last two of then, and the last two are kept for the next time. The sample
/// has ended if it has too few frames for the last position.
pub proof fn law_resampling_mixes_neighbours<
    S,
    W,
    F: Fn(usize) -> (usize, W),
    M: Fn(S, S, W) -> S,
    R: Fn(u64) -> S,
>(
    updated: SamplerView,
    num_out: int,
    frames: usize,
    mix: M,
    silence: S,
    ready: Resampling<S, F, R>,
    block: ResampledBlock,
    done: Resampling<S, F, R>,
    after: SamplerView,
    i: usize,
)
    requires
        processed_resampled(updated, num_out, frames, mix, silence, ready, block, done, after),
        block.played,
        0 <= i < frames,
        ready.is_first_process || ready.wrap@.len() == 2,
        updated.loaded->0.playhead_frames <= updated.loaded->0.sample_len_frames,
    ensures
        ({
            let kept = if ready.is_first_process {
                Seq::<S>::empty()
            } else {
                ready.wrap@
            };
            let loaded = updated.loaded->0;
            let mode = updated.params.repeat_mode;
            let last = (frames - 1) as usize;
            &&& done.out@.len() == ready.out@.len()
            &&& done.position == ready.position
            &&& done.read == ready.read
            &&& !done.is_first_process
            &&& exists|p: usize, w: W, a: S, b: S|
                #![trigger call_ensures(ready.position, (i,), (p, w)), call_ensures(mix, (a, b, w), done.out@[i as int])]
                call_ensures(ready.position, (i,), (p, w)) && call_ensures(
                    mix,
                    (a, b, w),
                    done.out@[i as int],
                ) && is_frame(ready.read, silence, kept, loaded, mode, p as int, a) && is_frame(
                    ready.read,
                    silence,
                    kept,
                    loaded,
                    mode,
                    p + 1,
                    b,
                )
            &&& exists|p: usize, w: W|
                #![trigger call_ensures(ready.position, (last,), (p, w))]
                call_ensures(ready.position, (last,), (p, w)) && done.wrap@.len() == 2 && is_frame(
                    ready.read,
                    silence,
                    kept,
                    loaded,
                    mode,
                    p as int,
                    done.wrap@[0],
                ) && is_frame(ready.read, silence, kept, loaded, mode, p + 1, done.wrap@[1])
            &&& forall|p: usize, w: W|
                #![trigger call_ensures(ready.position, (last,), (p, w))]
                call_ensures(ready.position, (last,), (p, w)) && p + 2 > kept.len() ==> (
                block.finished <==> !has_frame(loaded, mode, p + 1 - kept.len()))
            &&& forall|p: usize, w: W|
                #![trigger call_ensures(ready.position, (last,), (p, w))]
                call_ensures(ready.position, (last,), (p, w)) && !block.finished
                    ==> after.loaded->0.num_times_looped_back * loaded.sample_len_frames
                    + after.loaded->0.playhead_frames == loaded.num_times_looped_back
                    * loaded.sample_len_frames + loaded.playhead_frames + p + 2 - kept.len()
        }),
{
    let kept = carried(ready.is_first_process, ready.wrap@);
    let loaded = updated.loaded->0;
    let mode = updated.params.repeat_mode;
    let last = (frames - 1) as usize;
    assert forall|j: int, value: S|
        j >= 0 && #[trigger] input_frame(ready.read, silence, kept, loaded, mode, j, value) implies is_frame(
        ready.read,
        silence,
        kept,
        loaded,
        mode,
        j,
        value,
    ) by {
        lemma_is_frame(ready.read, silence, kept, loaded, mode, j, value);
    }
    assert(resampled(
        ready.position,
        mix,
        ready.read,
        silence,
        kept,
        loaded,
        mode,
        i,
        done.out@[i as int],
    ));
    let (p, w, a, b) = choose|p: usize, w: W, a: S, b: S|
        #![trigger call_ensures(ready.position, (i,), (p, w)), call_ensures(mix, (a, b, w), done.out@[i as int])]
        {
            &&& call_ensures(ready.position, (i,), (p, w))
            &&& input_frame(ready.read, silence, kept, loaded, mode, p as int, a)
            &&& input_frame(ready.read, silence, kept, loaded, mode, p + 1, b)
            &&& call_ensures(mix, (a, b, w), done.out@[i as int])
        };
    let q = choose|q: usize|
        #[trigger] at_position(ready.position, last, q) && carries_over(
            ready.read,
            silence,
            kept,
            loaded,
            mode,
            q as int,
            done.wrap@,
        );
    let v = choose|v: W| #[trigger] call_ensures(ready.position, (last,), (q, v));
    assert(call_ensures(ready.position, (last,), (q, v)));
    assert forall|p: usize, w: W|
        #![trigger call_ensures(ready.position, (last,), (p, w))]
        call_ensures(ready.position, (last,), (p, w)) implies at_position(
        ready.position,
        last,
        p,
    ) by {}
}

proof fn lemma_is_frame<S, R: Fn(u64) -> S>(
    read: R,
    silence: S,
    kept: Seq<S>,
    loaded: LoadedSampleState,
    mode: RepeatMode,
    j: int,
    value: S,
)
    requires
        0 <= j,
        loaded.playhead_frames <= loaded.sample_len_frames,
        input_frame(read, silence, kept, loaded, mode, j, value),
    ensures
        is_frame(read, silence, kept, loaded, mode, j, value),
{
    if j >= kept.len() && loaded.sample_len_frames > 0 {
        lemma_counted_round(loaded, j - kept.len());
    }
}

/// The frame that is played is counted round from the playhead.
proof fn lemma_counted_round(state: LoadedSampleState, j: int)
    requires
        state.playhead_frames <= state.sample_len_frames,
        state.sample_len_frames > 0,
        j >= 0,
    ensures
        state.source(j) == (state.playhead_frames + j) % (state.sample_len_frames as int),
{
    let fresh = LoadedSampleState { num_times_looped_back: 0, ..state };
    lemma_source(fresh, j);
    assert(fresh.source(j) == state.source(j));
    assert(fresh.played() == state.playhead_frames) by (nonlinear_arith)
        requires
            fresh.played() == 0 * fresh.sample_len_frames + state.playhead_frames,
    ;
}

/// A sampler that is asked to stop fades what was heard out, from where it was, in the first
/// fade that is free, and in as many channels as it filled. In the same block the fade is
/// heard from its beginning.
#[verifier::spinoff_prover]
#[verifier::rlimit(50)]
pub proof fn law_stop_fades_out(
    before: SamplerView,
    changes: SamplerChanges,
    times: ResolvedTimes,
    num_out: int,
    frames: int,
    block: SamplerBlock,
    after: SamplerView,
    i: int,
)
    requires
        changes.playback,
        !changes.sample,
        !changes.repeat_mode,
        before.params.playback is Stop,
        before.params.sample is Some,
        before.loaded is Some,
        before.state is Play || (before.state is Pause && before.declicker is Fading),
        0 <= i < before.fades.len() <= usize::MAX,
        before.fades[i].frames_left == 0,
        forall|j: int| 0 <= j < i ==> (#[trigger] before.fades[j]).frames_left > 0,
        0 < before.fade_frames <= usize::MAX,
        0 < num_out <= usize::MAX,
        0 <= frames <= usize::MAX,
        processed(before, changes, times, num_out, frames, block, after),
    ensures
        after.state is Stop,
        after.shared.finished == before.params.playback_id,
        after.loaded->0.playhead_frames == 0,
        after.loaded->0.num_times_looped_back == 0,
        after.declicker is SettledAt1,
        block.actions@.len() == 2,
        block.actions@[0] is FadeOut,
        block.actions@[0]->declicker == i,
        fills(before.loaded->0, num_out, block.actions@[0]->channels as int),
        block.actions@[0]->from == before.loaded,
        block.actions@[1] is Reset,
        block.has_output,
        block.num_filled_channels >= block.actions@[0]->channels,
        exists|m: int|
            0 <= m < block.mixes@.len() && (#[trigger] block.mixes@[m]).declicker == i
                && block.mixes@[m].channels == block.actions@[0]->channels
                && block.mixes@[m].start_frame == 0 && block.mixes@[m].frames == if frames
                < before.fade_frames {
                frames
            } else {
                before.fade_frames
            },
        after.fades[i].frames_left == if frames < before.fade_frames {
            before.fade_frames - frames
        } else {
            0
        },
        forall|j: int|
            0 <= j < before.fades.len() && j != i ==> (#[trigger] after.fades[j]).channels
                == before.fades[j].channels && after.fades[j].frames_left == if frames
                < before.fades[j].frames_left {
                before.fades[j].frames_left - frames
            } else {
                0
            },
{
    lemma_first(before.fades, 0, i);
    let updated = before.update(changes, times, num_out);
    lemma_mixes(updated.fades, updated.fade_frames, frames, updated.fades.len() as int);
    lemma_mixed(updated.fades, updated.fade_frames, frames, updated.fades.len() as int, i);
    lemma_filled(updated.fades, block.sample_channels as int, updated.fades.len() as int);
    lemma_active(updated.fades);
    assert(updated.fades[i].frames_left > 0);
}

/// A sampler that is asked to stop while no fade is free falls silent at once.
pub proof fn law_stop_without_free_fade_is_silent(
    before: SamplerView,
    changes: SamplerChanges,
    times: ResolvedTimes,
    num_out: int,
    frames: int,
    block: SamplerBlock,
    after: SamplerView,
)
    requires
        changes.playback,
        !changes.sample,
        before.params.playback is Stop,
        forall|j: int|
            0 <= j < before.fades.len() ==> (#[trigger] before.fades[j]).frames_left > 0,
        processed(before, changes, times, num_out, frames, block, after),
    ensures
        after.state is Stop,
        block.plan is None,
        block.actions@ =~= seq![SamplerAction::Reset],
        after.declicker is SettledAt1,
{
    lemma_first(before.fades, 0, before.fades.len() as int);
}

/// The fades of samples that were stopped run on while nothing changes: each that has frames
/// left is mixed in from where it was, for the block or for as long as it lasts, in the order
/// of the fades, and has as many frames fewer left. As many channels are filled as the sample
/// or one of these fades fills.
pub proof fn law_fades_run_out(
    before: SamplerView,
    changes: SamplerChanges,
    times: ResolvedTimes,
    num_out: int,
    frames: int,
    block: SamplerBlock,
    after: SamplerView,
)
    requires
        !changes.sample,
        !changes.playback,
        0 <= frames <= usize::MAX,
        before.fades.len() <= usize::MAX,
        before.fade_frames <= usize::MAX,
        forall|j: int|
            0 <= j < before.fades.len() ==> (#[trigger] before.fades[j]).frames_left
                <= before.fade_frames,
        processed(before, changes, times, num_out, frames, block, after),
    ensures
        after.fades.len() == before.fades.len(),
        forall|j: int|
            0 <= j < before.fades.len() ==> (#[trigger] after.fades[j]).channels
                == before.fades[j].channels && after.fades[j].frames_left == if frames
                < before.fades[j].frames_left {
                before.fades[j].frames_left - frames
            } else {
                0
            },
        forall|j: int|
            0 <= j < before.fades.len() && (#[trigger] before.fades[j]).frames_left > 0
                ==> block.num_filled_channels >= before.fades[j].channels && exists|m: int|
                0 <= m < block.mixes@.len() && (#[trigger] block.mixes@[m]).declicker == j,
        forall|m: int|
            0 <= m < block.mixes@.len() ==> ({
                let mix = #[trigger] block.mixes@[m];
                let fade = before.fades[mix.declicker as int];
                &&& mix.declicker < before.fades.len()
                &&& fade.frames_left > 0
                &&& mix.channels == fade.channels
                &&& mix.start_frame + fade.frames_left == before.fade_frames
                &&& mix.frames <= frames && mix.frames <= fade.frames_left && (mix.frames == frames
                    || mix.frames == fade.frames_left)
            }),
        forall|m: int, n: int|
            0 <= m < n < block.mixes@.len() ==> (#[trigger] block.mixes@[m]).declicker < (
            #[trigger] block.mixes@[n]).declicker,
        block.num_filled_channels == block.sample_channels || exists|j: int|
            0 <= j < before.fades.len() && (#[trigger] before.fades[j]).frames_left > 0
                && before.fades[j].channels == block.num_filled_channels,
{
    let fades = before.fades;
    let n = fades.len() as int;
    lemma_mixes(fades, before.fade_frames, frames, n);
    lemma_filled(fades, block.sample_channels as int, n);
    assert forall|j: int| 0 <= j < n && (#[trigger] fades[j]).frames_left > 0 implies exists|m: int|
        0 <= m < block.mixes@.len() && (#[trigger] block.mixes@[m]).declicker == j by {
        lemma_mixed(fades, before.fade_frames, frames, n, j);
    }
}

/// A sampler that plays from a position other than the beginning fades in, and so does one
/// that plays from the beginning while another sample still fades out, if it is to crossfade.
/// Any other starts at full volume.
#[verifier::spinoff_prover]
#[verifier::rlimit(50)]
pub proof fn law_start_fades_in(
    before: SamplerView,
    changes: SamplerChanges,
    times: ResolvedTimes,
    num_out: int,
    frames: int,
    block: SamplerBlock,
    after: SamplerView,
)
    requires
        changes.playback,
        !changes.sample,
        before.params.playback is Play,
        before.state is Stop,
        before.params.sample is Some,
        before.loaded is Some,
        before.loaded->0.playhead_frames == 0,
        times.playhead_frames is Some,
        times.event_samples is None,
        times.playhead_frames->0 < before.loaded->0.sample_len_frames,
        processed(before, changes, times, num_out, frames, block, after),
    ensures
        times.playhead_frames->0 > 0 ==> after.declicker is Fading && block.actions@.last()
            is FadeIn,
        times.playhead_frames->0 == 0 && before.params.crossfade_on_seek && (exists|j: int|
            0 <= j < before.fades.len() && (#[trigger] before.fades[j]).frames_left > 0)
            ==> after.declicker is Fading && block.actions@ =~= seq![SamplerAction::FadeIn],
        times.playhead_frames->0 == 0 && (!before.params.crossfade_on_seek || forall|j: int|
            0 <= j < before.fades.len() ==> (#[trigger] before.fades[j]).frames_left == 0)
            ==> after.declicker is SettledAt1 && block.actions@ =~= seq![SamplerAction::FullVolume],
        block.plan is Some,
        block.plan->0.segments@.len() > 0 ==> block.plan->0.segments@[0].from
            == times.playhead_frames->0,
        after.queued is None,
{
    lemma_active(before.fades);
    let plan = block.plan->0;
    if plan.segments@.len() > 0 {
        let updated = before.update(changes, times, num_out);
        let segment = plan.segments@[0];
        assert(copies(segment, updated.loaded->0));
        assert(segment.frames > 0);
        assert(updated.loaded->0.source(segment.start + 0) == segment.from + 0);
    }
}

/// A sampler that is asked to play while there is no sample remembers when it was asked to,
/// and plays nothing.
pub proof fn law_request_without_sample_is_kept(
    before: SamplerView,
    changes: SamplerChanges,
    times: ResolvedTimes,
    num_out: int,
    frames: int,
    block: SamplerBlock,
    after: SamplerView,
)
    requires
        changes.playback,
        before.params.playback is Play,
        before.state !is Play,
        if changes.sample {
            before.params.sample is None
        } else {
            before.loaded is None
        },
        processed(before, changes, times, num_out, frames, block, after),
    ensures
        after.queued == changes.playback_instant,
        after.state is Stop,
        block.plan is None,
{
}

/// Once a sample is set, a request to play that came before it takes effect, and counts from
/// when it was made: as many frames are skipped as have passed since.
pub proof fn law_kept_request_takes_effect(
    before: SamplerView,
    changes: SamplerChanges,
    times: ResolvedTimes,
    num_out: int,
    frames: int,
    block: SamplerBlock,
    after: SamplerView,
)
    requires
        changes.sample,
        !changes.playback,
        before.params.playback is Play,
        before.params.sample is Some,
        before.queued is Some,
        times.queued_samples is Some,
        (times.queued_samples->0).0 <= times.clock.0,
        times.playhead_frames is Some,
        times.playhead_frames->0 + (times.clock.0 - (times.queued_samples->0).0)
            < before.params.sample->0.len_frames,
        processed(before, changes, times, num_out, frames, block, after),
    ensures
        block.plan is Some,
        after.queued is None,
        block.plan->0.segments@.len() > 0 ==> block.plan->0.segments@[0].from
            == times.playhead_frames->0 + (times.clock.0 - (times.queued_samples->0).0),
{
    let plan = block.plan->0;
    if plan.segments@.len() > 0 {
        let updated = before.update(changes, times, num_out);
        let segment = plan.segments@[0];
        assert(copies(segment, updated.loaded->0));
        assert(segment.frames > 0);
        assert(updated.loaded->0.source(segment.start + 0) == segment.from + 0);
    }
}

/// A request to play that is late is made up for: a delay is as long as the time since the
/// request, and there is none before that time, nor where the time is not known.
pub proof fn law_delay_is_time_since_request(
    event: Option<EventInstant>,
    samples: Option<InstantSamples>,
    clock: int,
)
    ensures
        delay_of(event, samples, clock) >= 0,
        event is None || samples is None ==> delay_of(event, samples, clock) == 0,
        event is Some && samples is Some && (samples->0).0 <= clock ==> (samples->0).0 + delay_of(
            event,
            samples,
            clock,
        ) == clock,
        event is Some && samples is Some && (samples->0).0 >= clock ==> delay_of(
            event,
            samples,
            clock,
        ) == 0,
{
}

/// Where the number of repetitions is changed, those that were made count no longer.
pub proof fn law_new_repeat_mode_counts_anew(
    before: SamplerView,
    changes: SamplerChanges,
    times: ResolvedTimes,
    num_out: int,
    frames: int,
    block: SamplerBlock,
    after: SamplerView,
)
    requires
        changes.repeat_mode,
        !changes.sample,
        !changes.playback,
        frames >= 0,
        before.loaded is Some,
        before.loaded->0.playhead_frames <= before.loaded->0.sample_len_frames,
        processed(before, changes, times, num_out, frames, block, after),
    ensures
        block.plan is None ==> after.loaded->0.num_times_looped_back == 0
            && after.loaded->0.playhead_frames == before.loaded->0.playhead_frames,
        block.plan is Some ==> after.loaded->0.num_times_looped_back
            * before.loaded->0.sample_len_frames + after.loaded->0.playhead_frames
            == before.loaded->0.playhead_frames + block.plan->0.frames,
        block.plan is Some && before.params.repeat_mode is RepeatMultiple ==> (
        block.plan->0.finished <==> before.loaded->0.sample_len_frames
            - before.loaded->0.playhead_frames + before.params.repeat_mode->num_times_to_repeat
            * before.loaded->0.sample_len_frames < frames),
{
    let counted = LoadedSampleState { num_times_looped_back: 0, ..before.loaded->0 };
    assert(counted.played() == counted.playhead_frames) by (nonlinear_arith)
        requires
            counted.played() == 0 * counted.sample_len_frames + counted.playhead_frames,
    ;
    assert((before.params.repeat_mode->num_times_to_repeat - 0) * counted.sample_len_frames
        == before.params.repeat_mode->num_times_to_repeat * counted.sample_len_frames);
}

/// A patch sets the parameter that it is for, and no other.
pub proof fn law_patch_sets_one_parameter(params: SamplerParams, patch: SamplerPatch)
    ensures
        patched(params, patch).sample == if patch is Sample {
            patch->Sample_0
        } else {
            params.sample
        },
        patched(params, patch).playback == if patch is Playback {
            patch->Playback_0
        } else {
            params.playback
        },
        patched(params, patch).playback_id == if patch is Playback {
            patch->Playback_1
        } else {
            params.playback_id
        },
        patched(params, patch).repeat_mode == if patch is RepeatMode {
            patch->RepeatMode_0
        } else {
            params.repeat_mode
        },
        patched(params, patch).mono_to_stereo == if patch is MonoToStereo {
            patch->MonoToStereo_0
        } else {
            params.mono_to_stereo
        },
        patched(params, patch).crossfade_on_seek == if patch is CrossfadeOnSeek {
            patch->CrossfadeOnSeek_0
        } else {
            params.crossfade_on_seek
        },
{
}

/// A patch is noted as a change of its parameter, in addition to those that were noted
/// before, and a change of the playback with its time.
pub proof fn law_patch_is_noted(
    changes: SamplerChanges,
    patch: SamplerPatch,
    timestamp: Option<EventInstant>,
)
    ensures
        noted(changes, patch, timestamp).sample <==> changes.sample || patch is Sample,
        noted(changes, patch, timestamp).playback <==> changes.playback || patch is Playback,
        noted(changes, patch, timestamp).repeat_mode <==> changes.repeat_mode || patch is RepeatMode,
        noted(changes, patch, timestamp).speed <==> changes.speed || patch is Speed,
        noted(changes, patch, timestamp).volume <==> changes.volume || patch is Volume,
        noted(changes, patch, timestamp).playback_instant == if patch is Playback {
            timestamp
        } else {
            changes.playback_instant
        },
{
}

/// A request for a playback state is a patch of that state and of its ID, and of nothing else.
pub proof fn law_request_changes_playback_only(view: SamplerView, playback: PlaybackState, id: u64)
    ensures
        requested(view, playback, id).params.playback == playback,
        requested(view, playback, id).params.playback_id == id,
        requested(view, playback, id) == (SamplerView {
            params: SamplerParams { playback, playback_id: id, ..view.params },
            ..view
        }),
{
}

/// Stopping takes the playhead back to the beginning, at full volume. Neither what was asked
/// for nor what the main thread sees changes by that alone.
pub proof fn law_stop_goes_back_to_the_beginning(view: SamplerView, num_out: int)
    ensures
        view.stop(num_out).params == view.params,
        view.stop(num_out).shared == view.shared,
        view.stop(num_out).state == view.state,
        view.stop(num_out).queued == view.queued,
        view.stop(num_out).fade_frames == view.fade_frames,
        view.stop(num_out).declicker is SettledAt1,
        view.stop(num_out).loaded is Some <==> view.loaded is Some,
        view.loaded is Some ==> view.stop(num_out).loaded->0 == (LoadedSampleState {
            playhead_frames: 0,
            num_times_looped_back: 0,
            ..view.loaded->0
        }),
        view.stop_actions(num_out).last() is Reset,
{
}

/// Loading a sample stops the last one, and takes the sample of the parameters in its place.
/// The main thread sees that nothing plays if there is none.
pub proof fn law_load_takes_the_sample_of_the_parameters(view: SamplerView, num_out: int)
    ensures
        view.load(num_out).params == view.params,
        view.load(num_out).state is Stop,
        view.load(num_out).declicker is SettledAt1,
        view.load(num_out).queued == view.queued,
        view.load(num_out).loaded is Some <==> view.params.sample is Some,
        view.params.sample is Some ==> is_loaded(
            view.params.sample->0,
            view.params.mono_to_stereo,
            num_out,
            view.load(num_out).loaded->0,
        ) && view.load(num_out).loaded->0.playhead_frames == 0,
        view.load(num_out).shared.stopped <==> view.shared.stopped || view.params.sample is None,
        view.load(num_out).shared.playing == view.shared.playing,
        view.load(num_out).shared.finished == view.shared.finished,
        view.load(num_out).shared.sample_playhead_frames == view.shared.sample_playhead_frames,
        view.load_actions(num_out).last() is Load <==> view.params.sample is Some,
        view.load_actions(num_out).last() is Unload <==> view.params.sample is None,
{
}

/// A sampler that plays and is asked to pause fades out, and the fade is heard to its end. One
/// that does not play stays as it is.
#[verifier::spinoff_prover]
#[verifier::rlimit(50)]
pub proof fn law_pause_fades_out(
    before: SamplerView,
    changes: SamplerChanges,
    times: ResolvedTimes,
    num_out: int,
    frames: int,
    block: SamplerBlock,
    after: SamplerView,
)
    requires
        changes.playback,
        !changes.sample,
        !changes.repeat_mode,
        before.params.playback is Pause,
        processed(before, changes, times, num_out, frames, block, after),
    ensures
        before.state is Play && before.declicker !is SettledAt0 ==> after.declicker is Fading
            && block.actions@ =~= seq![SamplerAction::FadeTo0] && (before.params.sample is Some
            && before.loaded is Some ==> block.plan is Some),
        before.state is Play && before.declicker is SettledAt0 ==> after.declicker is SettledAt0
            && block.plan is None,
        before.state !is Play ==> block.actions@.len() == 0 && after.declicker == before.declicker
            && (block.plan is None ==> after.loaded == before.loaded && after.state
            == before.state),
        before.state is Stop ==> block.plan is None,
        after.queued == before.queued,
{
}

/// A sampler that plays, and is asked to play without a position, plays on.
pub proof fn law_play_while_playing_changes_nothing(
    before: SamplerView,
    changes: SamplerChanges,
    times: ResolvedTimes,
    num_out: int,
    frames: int,
    block: SamplerBlock,
    after: SamplerView,
)
    requires
        changes.playback,
        !changes.sample,
        !changes.repeat_mode,
        before.state is Play,
        before.params.playback == (PlaybackState::Play { playhead: None }),
        before.params.sample is Some,
        before.loaded is Some,
        processed(before, changes, times, num_out, frames, block, after),
    ensures
        block.plan is Some,
        block.actions@.len() == 0,
        after.queued is None,
        after.declicker == before.declicker,
        block.plan->0.segments@.len() > 0 && before.loaded->0.playhead_frames
            < before.loaded->0.sample_len_frames ==> block.plan->0.segments@[0].from
            == before.loaded->0.playhead_frames,
{
    let plan = block.plan->0;
    if plan.segments@.len() > 0 {
        let segment = plan.segments@[0];
        assert(copies(segment, before.loaded->0));
        assert(segment.frames > 0);
        assert(before.loaded->0.source(segment.start + 0) == segment.from + 0);
    }
}

/// A sampler that plays and is asked to play from elsewhere fades out what was heard, from
/// where it was, and fades the new place in. One that is there already does not fade out.
#[verifier::spinoff_prover]
#[verifier::rlimit(50)]
pub proof fn law_seek_crossfades(
    before: SamplerView,
    changes: SamplerChanges,
    times: ResolvedTimes,
    num_out: int,
    frames: int,
    block: SamplerBlock,
    after: SamplerView,
    i: int,
)
    requires
        changes.playback,
        !changes.sample,
        !changes.repeat_mode,
        before.state is Play,
        before.params.playback is Play,
        before.params.playback->playhead is Some,
        before.params.sample is Some,
        before.loaded is Some,
        times.playhead_frames is Some,
        times.event_samples is None,
        0 < times.playhead_frames->0 < before.loaded->0.sample_len_frames,
        0 <= i < before.fades.len() <= usize::MAX,
        before.fades[i].frames_left == 0,
        forall|j: int| 0 <= j < i ==> (#[trigger] before.fades[j]).frames_left > 0,
        0 < num_out <= usize::MAX,
        processed(before, changes, times, num_out, frames, block, after),
    ensures
        times.playhead_frames->0 != before.loaded->0.playhead_frames ==> {
            &&& block.actions@.len() == 3
            &&& block.actions@[0] is FadeOut
            &&& block.actions@[0]->declicker == i
            &&& fills(before.loaded->0, num_out, block.actions@[0]->channels as int)
            &&& block.actions@[0]->from is Some
            &&& block.actions@[0]->from->0.playhead_frames == before.loaded->0.playhead_frames
            &&& block.actions@[1] is Reset
            &&& block.actions@[2] is FadeIn
        },
        times.playhead_frames->0 == before.loaded->0.playhead_frames ==> block.actions@
            =~= seq![SamplerAction::FadeIn],
        after.declicker is Fading,
        after.queued is None,
        block.plan is Some,
        block.plan->0.segments@.len() > 0 ==> block.plan->0.segments@[0].from
            == times.playhead_frames->0,
{
    lemma_first(before.fades, 0, i);
    let plan = block.plan->0;
    if plan.segments@.len() > 0 {
        let updated = before.update(changes, times, num_out);
        let segment = plan.segments@[0];
        assert(copies(segment, updated.loaded->0));
        assert(segment.frames > 0);
        assert(updated.loaded->0.source(segment.start + 0) == segment.from + 0);
    }
}

/// A sampler that is asked to play from the end of a sample that is not repeated, or from
/// beyond it, has finished: nothing of it is heard, and the main thread is told.
#[verifier::spinoff_prover]
#[verifier::rlimit(50)]
pub proof fn law_play_past_the_end_finishes(
    before: SamplerView,
    changes: SamplerChanges,
    times: ResolvedTimes,
    num_out: int,
    frames: int,
    block: SamplerBlock,
    after: SamplerView,
)
    requires
        changes.playback,
        !changes.sample,
        before.state is Stop,
        before.params.playback is Play,
        before.params.repeat_mode is PlayOnce,
        before.loaded is Some,
        before.loaded->0.playhead_frames < before.loaded->0.sample_len_frames,
        times.playhead_frames is Some,
        times.event_samples is None,
        times.playhead_frames->0 >= before.loaded->0.sample_len_frames,
        processed(before, changes, times, num_out, frames, block, after),
    ensures
        after.state is Stop,
        block.plan is None,
        after.shared.finished == before.params.playback_id,
        after.shared.stopped,
        !after.shared.playing,
        after.loaded->0.playhead_frames == before.loaded->0.sample_len_frames,
        after.shared.sample_playhead_frames == before.loaded->0.sample_len_frames,
        after.queued is None,
{
}

/// The best sampler to take for new work is one without a sample; then one that was asked to
/// stop; then one that is paused, before it was heard at all; then one that is paused; then
/// one that has finished; then one that has not started; and then the one that has played
/// the longest.
pub proof fn law_worker_scores_are_ordered(
    a: SharedState,
    b: SharedState,
    playhead: PlaybackState,
    other: PlaybackState,
)
    requires
        playhead is Play,
        other is Play,
    ensures
        a.score(false, playhead) == b.score(false, other),
        a.score(false, playhead) > b.score(true, PlaybackState::Stop),
        a.score(true, PlaybackState::Stop) == b.score(true, PlaybackState::Stop),
        a.score(true, PlaybackState::Stop) > b.score(true, PlaybackState::Pause),
        a.stopped && !b.stopped ==> a.score(true, PlaybackState::Pause) > b.score(
            true,
            PlaybackState::Pause,
        ),
        a.stopped == b.stopped ==> a.score(true, PlaybackState::Pause) == b.score(
            true,
            PlaybackState::Pause,
        ),
        a.score(true, PlaybackState::Pause) > b.score(true, other) || b.sample_playhead_frames
            >= u64::MAX - 3,
        a.stopped && b.stopped && 0 < a.sample_playhead_frames <= i64::MAX
            && b.sample_playhead_frames == 0 ==> a.score(true, playhead) > b.score(true, other),
        a.stopped && !b.stopped && b.sample_playhead_frames < u64::MAX - 5 ==> a.score(
            true,
            playhead,
        ) > b.score(true, other),
        !a.stopped && !b.stopped ==> (a.score(true, playhead) > b.score(true, other)
            <==> a.sample_playhead_frames > b.sample_playhead_frames),
        !a.stopped ==> a.score(true, playhead) == a.sample_playhead_frames,
        a.score(false, playhead) == u64::MAX,
        a.score(true, PlaybackState::Stop) == u64::MAX - 1,
        a.stopped ==> a.score(true, PlaybackState::Pause) == u64::MAX - 2,
        !a.stopped ==> a.score(true, PlaybackState::Pause) == u64::MAX - 3,
        a.stopped && a.sample_playhead_frames == 0 ==> a.score(true, playhead) == u64::MAX - 5,
        a.stopped && 0 < a.sample_playhead_frames <= i64::MAX ==> a.score(true, playhead)
            == u64::MAX - 4,
{
}

/// The playhead that the main thread is told moves on while the sample plays, by as much as
/// has passed since it was told, and stands still otherwise.
pub proof fn law_told_playhead_moves_on_while_playing(
    shared: SharedState,
    elapsed: Option<DurationSamples>,
    frames: DurationSamples,
)
    requires
        call_ensures(SharedState::playhead_frames_corrected, (&shared, elapsed), frames),
    ensures
        shared.playing && elapsed is Some ==> frames.0 - shared.sample_playhead_frames
            == (elapsed->0).0,
        !shared.playing || elapsed is None ==> frames.0 == shared.sample_playhead_frames,
{
}

/// The channels that are not filled are silent, and no others.
pub proof fn law_channels_that_are_not_filled_are_silent(
    filled: usize,
    num_out: usize,
    mask: SilenceMask,
    ch: int,
)
    requires
        call_ensures(silent_from, (filled, num_out), mask),
        0 <= ch < 64,
    ensures
        ch < filled ==> !mask.silent(ch),
        filled <= ch < num_out ==> mask.silent(ch),
        ch >= num_out ==> !mask.silent(ch),
{
}

/// A position in frames is as it is, and one in seconds is converted.
pub proof fn law_position_is_converted<F: Fn(DurationSeconds) -> u64>(
    playhead: Playhead,
    seconds_to_frames: &F,
    frames: u64,
)
    requires
        call_ensures(Playhead::as_frames::<F>, (&playhead, seconds_to_frames), frames),
    ensures
        playhead is Frames ==> frames == playhead->Frames_0,
        playhead is Seconds ==> call_ensures(
            *seconds_to_frames,
            (playhead->Seconds_0,),
            frames,
        ),
{
}

/// A sample repeats once more if it repeats without an end, or has not been repeated as often
/// as it is to be.
pub proof fn law_sample_repeats_as_often_as_asked(mode: RepeatMode, looped: u64, repeat: bool)
    requires
        call_ensures(RepeatMode::do_loop, (&mode, looped), repeat),
    ensures
        mode is PlayOnce ==> !repeat,
        mode is RepeatEndlessly ==> repeat,
        mode is RepeatMultiple ==> (repeat <==> looped < mode->num_times_to_repeat),
{
}

/// The first fade that is free is the one with none before it that is.
proof fn lemma_first(fades: Seq<StopDeclickerState>, i: int, j: int)
    requires
        0 <= i <= j <= fades.len(),
        forall|k: int| i <= k < j ==> (#[trigger] fades[k]).frames_left > 0,
        j < fades.len() ==> fades[j].frames_left == 0,
    ensures
        first_free(fades, i) == j,
    decreases j - i,
{
    if i < j {
        assert(fades[i].frames_left > 0);
        lemma_first(fades, i + 1, j);
    }
}

proof fn lemma_first_is_valid(fades: Seq<StopDeclickerState>, i: int)
    requires
        0 <= i <= fades.len(),
    ensures
        i <= first_free(fades, i) <= fades.len(),
    decreases fades.len() - i,
{
    if i < fades.len() && fades[i].frames_left > 0 {
        lemma_first_is_valid(fades, i + 1);
    }
}

/// There are active fades if one has frames left.
proof fn lemma_active(fades: Seq<StopDeclickerState>)
    ensures
        num_active(fades) >= 0,
        num_active(fades) > 0 <==> exists|j: int|
            0 <= j < fades.len() && (#[trigger] fades[j]).frames_left > 0,
        num_active(fades) > 0 <==> mixes(fades, 0, 0, fades.len() as int).len() > 0,
    decreases fades.len(),
{
    if fades.len() > 0 {
        let rest = fades.drop_last();
        lemma_active(rest);
        assert(fades.last() == fades[fades.len() - 1]);
        assert(forall|j: int| 0 <= j < rest.len() ==> #[trigger] rest[j] == fades[j]);
        if exists|j: int| 0 <= j < rest.len() && (#[trigger] rest[j]).frames_left > 0 {
            let j = choose|j: int| 0 <= j < rest.len() && (#[trigger] rest[j]).frames_left > 0;
            assert(fades[j].frames_left > 0);
        }
        if exists|j: int| 0 <= j < fades.len() && (#[trigger] fades[j]).frames_left > 0 {
            let j = choose|j: int| 0 <= j < fades.len() && (#[trigger] fades[j]).frames_left > 0;
            if j < rest.len() {
                assert(rest[j].frames_left > 0);
            }
        }
        lemma_same_mixes(fades, rest, rest.len() as int);
    }
}

proof fn lemma_same_mixes(fades: Seq<StopDeclickerState>, rest: Seq<StopDeclickerState>, n: int)
    requires
        0 <= n <= rest.len() <= fades.len(),
        forall|j: int| 0 <= j < rest.len() ==> #[trigger] rest[j] == fades[j],
    ensures
        mixes(fades, 0, 0, n) == mixes(rest, 0, 0, n),
    decreases n,
{
    if n > 0 {
        lemma_same_mixes(fades, rest, n - 1);
        assert(rest[n - 1] == fades[n - 1]);
    }
}

/// What is mixed in are the fades that have frames left, in order.
proof fn lemma_mixes(fades: Seq<StopDeclickerState>, fade_frames: int, frames: int, n: int)
    requires
        0 <= n <= fades.len(),
    ensures
        mixes(fades, fade_frames, frames, n).len() == mixes(fades, 0, 0, n).len(),
        n <= usize::MAX ==> forall|m: int|
            0 <= m < mixes(fades, fade_frames, frames, n).len() ==> {
                let mix = #[trigger] mixes(fades, fade_frames, frames, n)[m];
                &&& mix.declicker < n
                &&& fades[mix.declicker as int].frames_left > 0
                &&& mix.channels == fades[mix.declicker as int].channels
                &&& mix.start_frame == (fade_frames - fades[mix.declicker as int].frames_left) as usize
                &&& mix.frames == (if fades[mix.declicker as int].frames_left < frames {
                    fades[mix.declicker as int].frames_left as int
                } else {
                    frames
                }) as usize
            },
        n <= usize::MAX ==> forall|m: int, k: int|
            0 <= m < k < mixes(fades, fade_frames, frames, n).len() ==> (#[trigger] mixes(
                fades,
                fade_frames,
                frames,
                n,
            )[m]).declicker < (#[trigger] mixes(fades, fade_frames, frames, n)[k]).declicker,
    decreases n,
{
    if n > 0 {
        lemma_mixes(fades, fade_frames, frames, n - 1);
    }
}

/// A fade that has frames left is mixed in.
proof fn lemma_mixed(fades: Seq<StopDeclickerState>, fade_frames: int, frames: int, n: int, j: int)
    requires
        0 <= j < n <= fades.len(),
        n <= usize::MAX,
        fades[j].frames_left > 0,
    ensures
        exists|m: int|
            0 <= m < mixes(fades, fade_frames, frames, n).len() && (#[trigger] mixes(
                fades,
                fade_frames,
                frames,
                n,
            )[m]).declicker == j,
    decreases n,
{
    let before = mixes(fades, fade_frames, frames, n - 1);
    if j == n - 1 {
        assert(mixes(fades, fade_frames, frames, n)[before.len() as int].declicker == j);
    } else {
        lemma_mixed(fades, fade_frames, frames, n - 1, j);
        let m = choose|m: int| 0 <= m < before.len() && (#[trigger] before[m]).declicker == j;
        assert(mixes(fades, fade_frames, frames, n)[m].declicker == j);
    }
}

/// As many channels are filled as the sample or an active fade fills, whichever is the most.
proof fn lemma_filled(fades: Seq<StopDeclickerState>, filled: int, n: int)
    requires
        0 <= n <= fades.len(),
    ensures
        filled_by(fades, filled, n) >= filled,
        forall|j: int|
            0 <= j < n && (#[trigger] fades[j]).frames_left > 0 ==> filled_by(fades, filled, n)
                >= fades[j].channels,
        filled_by(fades, filled, n) == filled || exists|j: int|
            0 <= j < n && (#[trigger] fades[j]).frames_left > 0 && fades[j].channels == filled_by(
                fades,
                filled,
                n,
            ),
    decreases n,
{
    if n > 0 {
        lemma_filled(fades, filled, n - 1);
        if filled_by(fades, filled, n - 1) == filled_by(fades, filled, n) && filled_by(
            fades,
            filled,
            n,
        ) != filled {
            let j = choose|j: int|
                0 <= j < n - 1 && (#[trigger] fades[j]).frames_left > 0 && fades[j].channels
                    == filled_by(fades, filled, n - 1);
            assert(fades[j].frames_left > 0);
        }
    }
}

} // verus!
