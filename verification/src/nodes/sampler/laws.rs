//! What holds of the playback of a sample as a whole.

use crate::clock::EventInstant;
use crate::nodes::sampler::block::{processed, requested, SamplerBlock};
use crate::nodes::sampler::copy::{
    advanced, copies, lemma_advanced, lemma_segment_end, lemma_source, LoadedSampleState,
};
use crate::nodes::sampler::engine::{
    delay_of, DeclickPhase, ResolvedTimes, SamplerChanges, SamplerParams, SamplerView,
};
use crate::nodes::sampler::{PlaybackState, Playhead, RepeatMode};
use vstd::prelude::*;

verus! {

/// The sampler once a playback state was asked for at a time that is known, if it
/// has one, and the request took effect.
pub open spec fn asked(
    view: SamplerView,
    playback: PlaybackState,
    event: Option<EventInstant>,
    times: ResolvedTimes,
    num_out: int,
) -> SamplerView {
    SamplerView { params: SamplerParams { playback, ..view.params }, ..view }.play(
        event,
        times.event_samples,
        times,
        num_out,
    )
}

/// The frames that are played in a block are those from the playhead on, and then the
/// playhead is past them.
pub open spec fn plays_from(
    block: SamplerBlock,
    playhead: int,
    frames: int,
    after: SamplerView,
) -> bool {
    &&& block.plan matches Some(plan)
    &&& plan.frames == frames
    &&& !plan.finished
    &&& plan.segments@.len() > 0
    &&& plan.segments@[0].start == 0
    &&& forall|i: int, k: int|
        0 <= i < plan.segments@.len() && 0 <= k < plan.segments@[i].frames
            ==> plan.segments@[i].from + k == playhead + #[trigger] (plan.segments@[i].start + k)
    &&& after.state is Play
    &&& after.loaded is Some
    &&& after.loaded->0.playhead_frames == playhead + frames
    &&& after.shared.sample_playhead_frames == playhead + frames
}

/// A sampler that was asked to stop in a block is stopped, whatever else has changed, and
/// stays so in blocks in which nothing changes.
pub proof fn law_stop_lasts(
    before: SamplerView,
    changes: SamplerChanges,
    times: ResolvedTimes,
    num_out: int,
    frames: int,
    block: SamplerBlock,
    after: SamplerView,
)
    requires
        processed(before, changes, times, num_out, frames, block, after),
        (changes.playback && before.params.playback is Stop) || (!changes.playback
            && !changes.sample && before.state is Stop),
    ensures
        after.state is Stop,
        block.plan is None,
{
}

/// Once a sampler is stopped, the block in which it is asked to play without a position
/// restarts the sample from the beginning.
pub proof fn law_play_after_stop_restarts(
    stopped: SamplerView,
    id: u64,
    changes: SamplerChanges,
    times: ResolvedTimes,
    num_out: int,
    frames: int,
    block: SamplerBlock,
    after: SamplerView,
)
    requires
        stopped.state is Stop,
        stopped.params.sample is Some,
        stopped.loaded is Some,
        0 < frames <= stopped.loaded->0.sample_len_frames,
        changes.playback,
        !changes.sample,
        times.playhead_frames is None,
        delay_of(changes.playback_instant, times.event_samples, times.clock.0 as int) == 0,
        processed(
            requested(stopped, PlaybackState::Play { playhead: None }, id),
            changes,
            times,
            num_out,
            frames,
            block,
            after,
        ),
    ensures
        plays_from(block, 0, frames, after),
{
    lemma_plays_from(
        requested(stopped, PlaybackState::Play { playhead: None }, id),
        changes,
        times,
        num_out,
        frames,
        block,
        after,
    );
}

/// A sampler that was playing and is asked to pause in a block pauses, unless the sample
/// ends in it.
pub proof fn law_pause_takes_effect(
    before: SamplerView,
    changes: SamplerChanges,
    times: ResolvedTimes,
    num_out: int,
    frames: int,
    block: SamplerBlock,
    after: SamplerView,
)
    requires
        before.state is Play,
        before.params.playback is Pause,
        changes.playback,
        !changes.sample,
        processed(before, changes, times, num_out, frames, block, after),
    ensures
        after.state == (if block.plan is Some && block.plan->0.finished {
            PlaybackState::Stop
        } else {
            PlaybackState::Pause
        }),
{
}

/// A sampler that is paused, and whose fade has settled, plays nothing and stays where it
/// is in blocks in which nothing changes.
pub proof fn law_pause_lasts(
    before: SamplerView,
    changes: SamplerChanges,
    times: ResolvedTimes,
    num_out: int,
    frames: int,
    block: SamplerBlock,
    after: SamplerView,
)
    requires
        before.state is Pause,
        before.declicker !is Fading,
        !changes.playback,
        !changes.sample,
        !changes.repeat_mode,
        processed(before, changes, times, num_out, frames, block, after),
    ensures
        after.state is Pause,
        after.declicker == before.declicker,
        after.loaded == before.loaded,
        block.plan is None,
{
}

/// Once a sampler is paused and its fade has settled, the block in which it is asked to
/// play without a position resumes where it left off.
pub proof fn law_play_after_pause_resumes(
    paused: SamplerView,
    id: u64,
    changes: SamplerChanges,
    times: ResolvedTimes,
    num_out: int,
    frames: int,
    block: SamplerBlock,
    after: SamplerView,
)
    requires
        paused.state is Pause,
        paused.declicker is SettledAt0,
        paused.params.sample is Some,
        paused.loaded is Some,
        0 < frames,
        paused.loaded->0.playhead_frames + frames <= paused.loaded->0.sample_len_frames,
        changes.playback,
        !changes.sample,
        times.playhead_frames is None,
        delay_of(changes.playback_instant, times.event_samples, times.clock.0 as int) == 0,
        processed(
            requested(paused, PlaybackState::Play { playhead: None }, id),
            changes,
            times,
            num_out,
            frames,
            block,
            after,
        ),
    ensures
        plays_from(block, paused.loaded->0.playhead_frames as int, frames, after),
{
    lemma_plays_from(
        requested(paused, PlaybackState::Play { playhead: None }, id),
        changes,
        times,
        num_out,
        frames,
        block,
        after,
    );
}

/// A sample that is stopped in a block and played again without a position in a later one
/// restarts from the beginning, wherever its fade stands by then.
pub proof fn law_stop_then_play_restarts(
    view: SamplerView,
    stop_id: u64,
    stop: SamplerChanges,
    stop_times: ResolvedTimes,
    stop_frames: int,
    stop_block: SamplerBlock,
    stopped: SamplerView,
    declicker: DeclickPhase,
    play_id: u64,
    play: SamplerChanges,
    play_times: ResolvedTimes,
    frames: int,
    block: SamplerBlock,
    after: SamplerView,
    num_out: int,
)
    requires
        view.params.sample is Some,
        view.loaded is Some,
        0 < frames <= view.loaded->0.sample_len_frames,
        stop.playback && !stop.sample,
        processed(
            requested(view, PlaybackState::Stop, stop_id),
            stop,
            stop_times,
            num_out,
            stop_frames,
            stop_block,
            stopped,
        ),
        play.playback && !play.sample,
        play_times.playhead_frames is None,
        delay_of(play.playback_instant, play_times.event_samples, play_times.clock.0 as int) == 0,
        processed(
            requested(
                SamplerView { declicker, ..stopped },
                PlaybackState::Play { playhead: None },
                play_id,
            ),
            play,
            play_times,
            num_out,
            frames,
            block,
            after,
        ),
    ensures
        plays_from(block, 0, frames, after),
{
    law_stop_lasts(
        requested(view, PlaybackState::Stop, stop_id),
        stop,
        stop_times,
        num_out,
        stop_frames,
        stop_block,
        stopped,
    );
    law_play_after_stop_restarts(
        SamplerView { declicker, ..stopped },
        play_id,
        play,
        play_times,
        num_out,
        frames,
        block,
        after,
    );
}

/// A sample that is paused in a block, and whose fade has settled, resumes where it left
/// off if it is played again without a position in a later one.
pub proof fn law_pause_then_play_resumes(
    view: SamplerView,
    pause_id: u64,
    pause: SamplerChanges,
    pause_times: ResolvedTimes,
    pause_frames: int,
    pause_block: SamplerBlock,
    paused: SamplerView,
    play_id: u64,
    play: SamplerChanges,
    play_times: ResolvedTimes,
    frames: int,
    block: SamplerBlock,
    after: SamplerView,
    num_out: int,
)
    requires
        view.state is Play,
        view.params.sample is Some,
        view.loaded is Some,
        pause.playback && !pause.sample,
        processed(
            requested(view, PlaybackState::Pause, pause_id),
            pause,
            pause_times,
            num_out,
            pause_frames,
            pause_block,
            paused,
        ),
        !(pause_block.plan is Some && pause_block.plan->0.finished),
        0 < frames,
        paused.loaded->0.playhead_frames + frames <= paused.loaded->0.sample_len_frames,
        play.playback && !play.sample,
        play_times.playhead_frames is None,
        delay_of(play.playback_instant, play_times.event_samples, play_times.clock.0 as int) == 0,
        processed(
            requested(
                SamplerView { declicker: DeclickPhase::SettledAt0, ..paused },
                PlaybackState::Play { playhead: None },
                play_id,
            ),
            play,
            play_times,
            num_out,
            frames,
            block,
            after,
        ),
    ensures
        plays_from(block, paused.loaded->0.playhead_frames as int, frames, after),
{
    law_pause_takes_effect(
        requested(view, PlaybackState::Pause, pause_id),
        pause,
        pause_times,
        num_out,
        pause_frames,
        pause_block,
        paused,
    );
    law_play_after_pause_resumes(
        SamplerView { declicker: DeclickPhase::SettledAt0, ..paused },
        play_id,
        play,
        play_times,
        num_out,
        frames,
        block,
        after,
    );
}

/// A block within a sample plays the frames from the playhead on.
proof fn lemma_plays_from(
    before: SamplerView,
    changes: SamplerChanges,
    times: ResolvedTimes,
    num_out: int,
    frames: int,
    block: SamplerBlock,
    after: SamplerView,
)
    requires
        processed(before, changes, times, num_out, frames, block, after),
        ({
            let updated = before.update(changes, times, num_out);
            &&& updated.processing()
            &&& updated.state is Play
            &&& 0 < frames <= updated.loaded->0.to_end()
        }),
    ensures
        plays_from(
            block,
            before.update(changes, times, num_out).loaded->0.playhead_frames as int,
            frames,
            after,
        ),
{
    let loaded = before.update(changes, times, num_out).loaded->0;
    let mode = before.params.repeat_mode;
    let plan = block.plan->0;
    if let RepeatMode::RepeatMultiple { num_times_to_repeat } = mode {
        if loaded.num_times_looped_back < num_times_to_repeat {
            assert((num_times_to_repeat - loaded.num_times_looped_back) * loaded.sample_len_frames
                >= 0) by (nonlinear_arith)
                requires
                    loaded.num_times_looped_back < num_times_to_repeat,
                    loaded.sample_len_frames >= 0,
            ;
        }
    }
    assert(plan.frames == frames);
    assert forall|i: int, k: int|
        0 <= i < plan.segments@.len() && 0 <= k < plan.segments@[i].frames implies
        plan.segments@[i].from + k == loaded.playhead_frames + #[trigger] (plan.segments@[i].start
        + k) by {
        let segment = plan.segments@[i];
        assert(copies(segment, loaded));
        lemma_segment_end(plan.segments@, frames, i);
        assert(loaded.source(segment.start + k) == segment.from + k);
    }
}

/// A sample that is played from a position jumps there, and if the request is late,
/// the delay is accounted for: what would have been played since then, repetitions
/// included, counts as played. If all of it would have been, the sample has finished.
pub proof fn law_seek_accounts_for_delay(
    view: SamplerView,
    playhead: Playhead,
    event: Option<EventInstant>,
    times: ResolvedTimes,
    num_out: int,
)
    requires
        view.loaded is Some,
        view.loaded->0.sample_len_frames > 0,
        times.playhead_frames is Some,
        times.playhead_frames->0 + delay_of(event, times.event_samples, times.clock.0 as int)
            <= u64::MAX,
    ensures
        ({
            let at = times.playhead_frames->0 + delay_of(
                event,
                times.event_samples,
                times.clock.0 as int,
            );
            let start = LoadedSampleState {
                playhead_frames: 0,
                num_times_looped_back: 0,
                ..view.loaded->0
            };
            let after = asked(
                view,
                PlaybackState::Play { playhead: Some(playhead) },
                event,
                times,
                num_out,
            );
            let mode = view.params.repeat_mode;
            let loaded = after.loaded->0;
            &&& after.loaded is Some
            &&& loaded == (LoadedSampleState {
                playhead_frames: loaded.playhead_frames,
                num_times_looped_back: loaded.num_times_looped_back,
                ..start
            })
            &&& match start.frames_left(mode) {
                Some(total) => {
                    &&& after.state is Play <==> at < total
                    &&& at < total ==> loaded.played() == at && loaded.frames_left(mode) == Some(
                        total - at,
                    )
                    &&& at >= total ==> after.state is Stop && after.shared.finished
                        == view.params.playback_id && loaded.frames_left(mode) == Some(0int)
                },
                None => after.state is Play && loaded.played() == at,
            }
        }),
{
    let at = times.playhead_frames->0 + delay_of(
        event,
        times.event_samples,
        times.clock.0 as int,
    );
    let len = view.loaded->0.sample_len_frames as int;
    let q = at / len;
    vstd::arithmetic::div_mod::lemma_fundamental_div_mod(at, len);
    assert(0 <= q <= at && q * len == len * q) by (nonlinear_arith)
        requires
            q == at / len,
            len > 0,
            at >= 0,
    ;
    assert(0 * len == 0) by (nonlinear_arith);
    if let RepeatMode::RepeatMultiple { num_times_to_repeat } = view.params.repeat_mode {
        let n = num_times_to_repeat as int;
        assert((n - q) * len == n * len - q * len) by (nonlinear_arith);
        assert((n - 0) * len == n * len) by (nonlinear_arith);
        assert((n - n) * len == 0) by (nonlinear_arith);
        if q <= n {
            assert(q * len <= n * len) by (nonlinear_arith)
                requires
                    q <= n,
                    len > 0,
            ;
        } else {
            assert(q * len >= n * len + len) by (nonlinear_arith)
                requires
                    q >= n + 1,
                    len > 0,
            ;
        }
    }
}

/// From its beginning, a sample plays once, or once and then as many times as it is
/// to be repeated, or without an end.
pub proof fn law_sample_plays_as_often_as_asked(state: LoadedSampleState, mode: RepeatMode)
    requires
        state.playhead_frames == 0,
        state.num_times_looped_back == 0,
    ensures
        state.frames_left(mode) == match mode {
            RepeatMode::PlayOnce => Some(state.sample_len_frames as int),
            RepeatMode::RepeatMultiple { num_times_to_repeat } => Some(
                (1 + num_times_to_repeat) * state.sample_len_frames,
            ),
            RepeatMode::RepeatEndlessly => None,
        },
{
    if let RepeatMode::RepeatMultiple { num_times_to_repeat } = mode {
        let n = num_times_to_repeat as int;
        let len = state.sample_len_frames as int;
        assert((1 + n) * len == len + n * len) by (nonlinear_arith);
        assert(0 * len == 0) by (nonlinear_arith);
    }
}

/// The frames that are played are those that are no longer left.
pub proof fn law_played_frames_are_no_longer_left(
    before: LoadedSampleState,
    mode: RepeatMode,
    frames: int,
    after: LoadedSampleState,
)
    requires
        before.wf(),
        frames >= 0,
        advanced(before, frames, after),
        before.frames_left(mode) matches Some(left) ==> frames <= left,
    ensures
        before.frames_left(mode) matches Some(left) ==> after.frames_left(mode) == Some(
            left - frames,
        ),
        before.frames_left(mode) is None ==> after.frames_left(mode) is None,
{
    lemma_advanced(before, mode, frames, after);
}

/// What is heard does not depend on the sizes of the blocks: what is played `j`
/// frames after some frames is what would have been played at that place.
pub proof fn law_blocks_join_seamlessly(
    before: LoadedSampleState,
    frames: int,
    after: LoadedSampleState,
    j: int,
)
    requires
        before.wf(),
        before.sample_len_frames > 0,
        frames >= 0,
        j >= 0,
        advanced(before, frames, after),
    ensures
        after.source(j) == before.source(frames + j),
{
    lemma_source(before, frames + j);
    lemma_source(after, j);
}

} // verus!
