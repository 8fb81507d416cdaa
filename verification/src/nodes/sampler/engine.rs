//! The state machine of the sampler node.

use crate::clock::{DurationSamples, EventInstant, InstantSamples};
use crate::mask::SilenceMask;
use crate::nodes::sampler::copy::{advanced, plan_ok, CopyPlan, LoadedSampleState};
use crate::nodes::sampler::{PlaybackState, RepeatMode};
use vstd::prelude::*;

verus! {

/// What the sampler needs to know of a sample.
#[derive(Debug, Clone, Copy, PartialEq, Eq, Structural)]
pub struct SampleInfo {
    /// The length of the sample in frames.
    pub len_frames: u64,
    /// The number of channels of the sample.
    pub num_channels: usize,
}

/// Where the fade of a sample stands.
#[derive(Debug, Clone, Copy, PartialEq, Eq, Structural)]
pub enum DeclickPhase {
    /// The sample is silent.
    SettledAt0,
    /// The sample is at full volume.
    SettledAt1,
    /// The sample fades in or out.
    Fading,
}

/// A sample that was stopped and fades out.
#[derive(Debug, Clone, Copy, PartialEq, Eq, Structural)]
pub struct StopDeclickerState {
    /// The number of frames of the fade that are left.
    pub frames_left: usize,
    /// The number of channels of the fade.
    pub channels: usize,
}

/// What a sampler shows to the main thread.
#[derive(Debug, Clone, Copy, PartialEq, Eq, Structural)]
pub struct SharedState {
    /// The playhead.
    pub sample_playhead_frames: u64,
    /// Whether the sample is playing.
    pub playing: bool,
    /// Whether the sample has either not started playing yet or has finished
    /// playing.
    pub stopped: bool,
    /// The ID of the playback that has finished last.
    pub finished: u64,
}

impl Default for SharedState {
    fn default() -> (state: Self)
        ensures
            state == (SharedState {
                sample_playhead_frames: 0,
                playing: false,
                stopped: true,
                finished: 0,
            }),
    {
        SharedState { sample_playhead_frames: 0, playing: false, stopped: true, finished: 0 }
    }
}

/// The parameters of a sampler that decide what is played.
#[derive(Debug, Clone, Copy, PartialEq, Eq, Structural)]
pub struct SamplerParams {
    /// The sample.
    pub sample: Option<SampleInfo>,
    /// The playback state that was asked for.
    pub playback: PlaybackState,
    /// The ID of the request.
    pub playback_id: u64,
    /// How many times the sample is repeated.
    pub repeat_mode: RepeatMode,
    /// Whether mono samples are converted to stereo.
    pub mono_to_stereo: bool,
    /// Whether samples are crossfaded when the playhead or sample is changed.
    pub crossfade_on_seek: bool,
}

/// A change of a parameter of a sampler.
#[derive(Debug, Clone, Copy, PartialEq, Eq, Structural)]
pub enum SamplerPatch {
    Sample(Option<SampleInfo>),
    Volume,
    Playback(PlaybackState, u64),
    RepeatMode(RepeatMode),
    Speed,
    MonoToStereo(bool),
    CrossfadeOnSeek(bool),
    MinGain,
}

/// Which parameters have changed.
#[derive(Debug, Clone, Copy, PartialEq, Eq, Structural)]
pub struct SamplerChanges {
    pub sample: bool,
    pub playback: bool,
    pub repeat_mode: bool,
    pub speed: bool,
    pub volume: bool,
    /// The time of the last change of the playback state.
    pub playback_instant: Option<EventInstant>,
}

/// What is to be done with the audio of a sampler, in order.
#[derive(Debug, Clone, Copy, PartialEq, Eq, Structural)]
pub enum SamplerAction {
    /// Fade the sample out, from where it was, into a buffer.
    FadeOut { declicker: usize, channels: usize, from: Option<LoadedSampleState> },
    /// Reset the fade to full volume, and the resampler.
    Reset,
    /// Use the sample of the parameters.
    Load,
    /// Use no sample.
    Unload,
    /// Start to fade out.
    FadeTo0,
    /// Start from silence to fade in.
    FadeIn,
    /// Play at full volume.
    FullVolume,
}

/// The state of a sampler.
pub struct SamplerProcessor {
    params: SamplerParams,
    shared_state: SharedState,
    loaded_sample_state: Option<LoadedSampleState>,
    declicker: DeclickPhase,
    playback_state: PlaybackState,
    stop_declickers: Vec<StopDeclickerState>,
    num_active_stop_declickers: usize,
    declick_frames: usize,
    queued_playback_instant: Option<EventInstant>,
    is_first_process: bool,
}

/// The state of a sampler.
#[verifier::ext_equal]
pub struct SamplerView {
    /// The parameters.
    pub params: SamplerParams,
    /// What is shown to the main thread.
    pub shared: SharedState,
    /// The sample that is played.
    pub loaded: Option<LoadedSampleState>,
    /// Where its fade stands.
    pub declicker: DeclickPhase,
    /// The playback state.
    pub state: PlaybackState,
    /// The fades of samples that were stopped.
    pub fades: Seq<StopDeclickerState>,
    /// The length of a fade.
    pub fade_frames: int,
    /// The time of a request to play that came before there was a sample.
    pub queued: Option<EventInstant>,
    /// Whether nothing was processed yet.
    pub is_first: bool,
}

impl View for SamplerProcessor {
    type V = SamplerView;

    closed spec fn view(&self) -> SamplerView {
        SamplerView {
            params: self.params,
            shared: self.shared_state,
            loaded: self.loaded_sample_state,
            declicker: self.declicker,
            state: self.playback_state,
            fades: self.stop_declickers@,
            fade_frames: self.declick_frames as int,
            queued: self.queued_playback_instant,
            is_first: self.is_first_process,
        }
    }
}

/// The number of fades that are not over.
pub open spec fn num_active(fades: Seq<StopDeclickerState>) -> int
    decreases fades.len(),
{
    if fades.len() == 0 {
        0
    } else {
        num_active(fades.drop_last()) + if fades.last().frames_left > 0 {
            1int
        } else {
            0
        }
    }
}

/// The first fade that is over from position `i` on, or the number of fades.
pub open spec fn first_free(fades: Seq<StopDeclickerState>, i: int) -> int
    decreases fades.len() - i,
{
    if i >= fades.len() {
        fades.len() as int
    } else if fades[i].frames_left == 0 {
        i
    } else {
        first_free(fades, i + 1)
    }
}

proof fn lemma_num_active(fades: Seq<StopDeclickerState>)
    ensures
        0 <= num_active(fades) <= fades.len(),
        num_active(fades) == fades.len() <==> forall|i: int|
            0 <= i < fades.len() ==> (#[trigger] fades[i]).frames_left > 0,
        num_active(fades) == 0 <==> forall|i: int|
            0 <= i < fades.len() ==> (#[trigger] fades[i]).frames_left == 0,
    decreases fades.len(),
{
    if fades.len() > 0 {
        let rest = fades.drop_last();
        lemma_num_active(rest);
        assert(forall|i: int| 0 <= i < rest.len() ==> #[trigger] rest[i] == fades[i]);
        assert(fades[fades.len() - 1] == fades.last());
        if num_active(fades) == fades.len() {
            assert forall|i: int| 0 <= i < fades.len() implies (#[trigger] fades[i]).frames_left
                > 0 by {
                if i < rest.len() {
                    assert(rest[i] == fades[i]);
                }
            }
        }
        if forall|i: int| 0 <= i < fades.len() ==> (#[trigger] fades[i]).frames_left > 0 {
            assert forall|i: int| 0 <= i < rest.len() implies (#[trigger] rest[i]).frames_left
                > 0 by {
                assert(rest[i] == fades[i]);
            }
        }
        if num_active(fades) == 0 {
            assert forall|i: int| 0 <= i < fades.len() implies (#[trigger] fades[i]).frames_left
                == 0 by {
                if i < rest.len() {
                    assert(rest[i] == fades[i]);
                }
            }
        }
        if forall|i: int| 0 <= i < fades.len() ==> (#[trigger] fades[i]).frames_left == 0 {
            assert forall|i: int| 0 <= i < rest.len() implies (#[trigger] rest[i]).frames_left
                == 0 by {
                assert(rest[i] == fades[i]);
            }
        }
    }
}

proof fn lemma_num_active_update(fades: Seq<StopDeclickerState>, i: int, fade: StopDeclickerState)
    requires
        0 <= i < fades.len(),
    ensures
        num_active(fades.update(i, fade)) == num_active(fades) + (if fade.frames_left > 0 {
            1int
        } else {
            0
        }) - (if fades[i].frames_left > 0 {
            1int
        } else {
            0
        }),
    decreases fades.len(),
{
    let next = fades.update(i, fade);
    if i == fades.len() - 1 {
        assert(next.drop_last() =~= fades.drop_last());
    } else {
        lemma_num_active_update(fades.drop_last(), i, fade);
        assert(next.drop_last() =~= fades.drop_last().update(i, fade));
        assert(next.last() == fades.last());
    }
}

proof fn lemma_first_free(fades: Seq<StopDeclickerState>, i: int, j: int)
    requires
        0 <= i <= j <= fades.len(),
        forall|k: int| i <= k < j ==> (#[trigger] fades[k]).frames_left > 0,
        j < fades.len() ==> fades[j].frames_left == 0,
    ensures
        first_free(fades, i) == j,
    decreases j - i,
{
    if i < j {
        assert(fades[i].frames_left > 0);
        lemma_first_free(fades, i + 1, j);
    }
}

impl SamplerView {
    /// Whether a sample is heard: one is loaded, and it is playing, or it is paused and
    /// still fading.
    pub open spec fn processing(self) -> bool {
        &&& self.params.sample is Some
        &&& self.loaded is Some
        &&& self.state is Play || (self.state is Pause && self.declicker is Fading)
    }

    /// The number of channels that the sample fills.
    pub open spec fn channels_filled(self, num_out: int) -> int {
        match self.loaded {
            Some(loaded) => if loaded.sample_mono_to_stereo {
                2
            } else if loaded.sample_num_channels < num_out {
                loaded.sample_num_channels as int
            } else {
                num_out
            },
            None => 0,
        }
    }

    /// The sampler once its sample was stopped: if it was heard and there is a fade
    /// that is over, a new one starts; then the playhead is at the beginning.
    pub open spec fn stop(self, num_out: int) -> SamplerView {
        let i = first_free(self.fades, 0);
        SamplerView {
            fades: if self.processing() && i < self.fades.len() {
                self.fades.update(
                    i,
                    StopDeclickerState {
                        frames_left: self.fade_frames as usize,
                        channels: self.channels_filled(num_out) as usize,
                    },
                )
            } else {
                self.fades
            },
            loaded: match self.loaded {
                Some(loaded) => Some(
                    LoadedSampleState { playhead_frames: 0, num_times_looped_back: 0, ..loaded },
                ),
                None => None,
            },
            declicker: DeclickPhase::SettledAt1,
            ..self
        }
    }

    /// What is done when the sample is stopped.
    pub open spec fn stop_actions(self, num_out: int) -> Seq<SamplerAction> {
        let i = first_free(self.fades, 0);
        if self.processing() && i < self.fades.len() {
            seq![
                SamplerAction::FadeOut {
                    declicker: i as usize,
                    channels: self.channels_filled(num_out) as usize,
                    from: self.loaded,
                },
                SamplerAction::Reset,
            ]
        } else {
            seq![SamplerAction::Reset]
        }
    }

    /// The sampler once the sample of the parameters was loaded: it is stopped, at
    /// the beginning.
    pub open spec fn load(self, num_out: int) -> SamplerView {
        let stopped = self.stop(num_out);
        SamplerView {
            loaded: match self.params.sample {
                Some(sample) => Some(
                    LoadedSampleState {
                        sample_len_frames: sample.len_frames,
                        sample_num_channels: sample.num_channels,
                        sample_mono_to_stereo: self.params.mono_to_stereo && num_out > 1
                            && sample.num_channels == 1,
                        playhead_frames: 0,
                        num_times_looped_back: 0,
                    },
                ),
                None => None,
            },
            shared: SharedState {
                stopped: self.shared.stopped || self.params.sample is None,
                ..self.shared
            },
            state: PlaybackState::Stop,
            ..stopped
        }
    }

    /// What is done when the sample of the parameters is loaded.
    pub open spec fn load_actions(self, num_out: int) -> Seq<SamplerAction> {
        self.stop_actions(num_out).push(
            if self.params.sample is Some {
                SamplerAction::Load
            } else {
                SamplerAction::Unload
            },
        )
    }
}

impl SamplerProcessor {
    /// Well-formedness: the fades that are not over are counted, no fade has more
    /// frames left than there are, and the playhead is in the sample.
    pub closed spec fn wf(&self) -> bool {
        &&& self.num_active_stop_declickers == num_active(self.stop_declickers@)
        &&& self.declick_frames > 0
        &&& forall|i: int|
            0 <= i < self.stop_declickers@.len() ==> (
            #[trigger] self.stop_declickers@[i]).frames_left <= self.declick_frames
        &&& self.loaded_sample_state matches Some(loaded) ==> loaded.wf()
        &&& self.playback_state is Play && !self.is_first_process ==> self.loaded_sample_state is Some
    }

    /// The playhead is in the sample, and a fade has no more frames left than there are.
    pub proof fn lemma_wf(&self)
        requires
            self.wf(),
        ensures
            self@.loaded matches Some(loaded) ==> loaded.wf(),
            forall|i: int|
                0 <= i < self@.fades.len() ==> (#[trigger] self@.fades[i]).frames_left
                    <= self@.fade_frames,
    {
    }

    /// A sampler that has not processed anything yet.
    pub fn new(params: SamplerParams, num_declickers: u32, declick_frames: u32) -> (sampler: Self)
        requires
            declick_frames > 0,
        ensures
            sampler.wf(),
            sampler@ == (SamplerView {
                params,
                shared: SharedState {
                    sample_playhead_frames: 0,
                    playing: false,
                    stopped: true,
                    finished: 0,
                },
                loaded: None,
                declicker: DeclickPhase::SettledAt1,
                state: params.playback,
                fades: Seq::new(
                    num_declickers as nat,
                    |i: int| StopDeclickerState { frames_left: 0, channels: 0 },
                ),
                fade_frames: declick_frames as int,
                queued: None,
                is_first: true,
            }),
    {
        let mut stop_declickers: Vec<StopDeclickerState> = Vec::new();
        for i in 0..num_declickers
            invariant
                stop_declickers@ == Seq::new(
                    i as nat,
                    |i: int| StopDeclickerState { frames_left: 0, channels: 0 },
                ),
        {
            stop_declickers.push(StopDeclickerState { frames_left: 0, channels: 0 });
            assert(stop_declickers@ =~= Seq::new(
                (i + 1) as nat,
                |i: int| StopDeclickerState { frames_left: 0, channels: 0 },
            ));
        }
        proof {
            lemma_num_active(stop_declickers@);
        }
        SamplerProcessor {
            params,
            shared_state: SharedState::default(),
            loaded_sample_state: None,
            declicker: DeclickPhase::SettledAt1,
            playback_state: params.playback,
            stop_declickers,
            num_active_stop_declickers: 0,
            declick_frames: declick_frames as usize,
            queued_playback_instant: None,
            is_first_process: true,
        }
    }

    /// Whether the sample is heard.
    pub fn currently_processing_sample(&self) -> (processing: bool)
        ensures
            processing == self@.processing(),
    {
        if self.params.sample.is_none() || self.loaded_sample_state.is_none() {
            false
        } else {
            match self.playback_state {
                PlaybackState::Play { .. } => true,
                PlaybackState::Pause => match self.declicker {
                    DeclickPhase::Fading => true,
                    _ => false,
                },
                PlaybackState::Stop => false,
            }
        }
    }

    /// The number of channels that the sample fills.
    pub fn num_channels_filled(&self, num_out_channels: usize) -> (num: usize)
        ensures
            num == self@.channels_filled(num_out_channels as int),
    {
        match self.loaded_sample_state {
            Some(state) => {
                if state.sample_mono_to_stereo {
                    2
                } else if state.sample_num_channels < num_out_channels {
                    state.sample_num_channels
                } else {
                    num_out_channels
                }
            },
            None => 0,
        }
    }

    /// Stops the sample: fades it out into a temporary look-ahead buffer to
    /// declick.
    pub fn stop(&mut self, num_out_channels: usize, actions: &mut Vec<SamplerAction>)
        requires
            old(self).wf(),
        ensures
            final(self).wf(),
            final(self)@ == old(self)@.stop(num_out_channels as int),
            final(actions)@ == old(actions)@ + old(self)@.stop_actions(num_out_channels as int),
    {
        let ghost fades0 = self.stop_declickers@;
        if self.currently_processing_sample() {
            let len: usize = self.stop_declickers.len();
            let mut i: usize = 0;
            while i < len && self.stop_declickers[i].frames_left != 0
                invariant
                    len == self.stop_declickers@.len(),
                    i <= len,
                    *self == *old(self),
                    forall|k: int|
                        0 <= k < i ==> (#[trigger] self.stop_declickers@[k]).frames_left > 0,
                decreases len - i,
            {
                i += 1;
            }
            proof {
                lemma_first_free(fades0, 0, i as int);
            }
            if i < len {
                let channels: usize = self.num_channels_filled(num_out_channels);
                let from = self.loaded_sample_state;
                let fade = StopDeclickerState { frames_left: self.declick_frames, channels };
                proof {
                    lemma_num_active_update(fades0, i as int, fade);
                    lemma_num_active(fades0);
                }
                self.stop_declickers.set(i, fade);
                self.num_active_stop_declickers = self.num_active_stop_declickers + 1;
                actions.push(SamplerAction::FadeOut { declicker: i, channels, from });
            }
        }
        if let Some(state) = self.loaded_sample_state {
            self.loaded_sample_state = Some(
                LoadedSampleState { playhead_frames: 0, num_times_looped_back: 0, ..state },
            );
        }
        self.declicker = DeclickPhase::SettledAt1;
        actions.push(SamplerAction::Reset);
        proof {
            assert(self@ =~= old(self)@.stop(num_out_channels as int));
            assert(actions@ =~= old(actions)@ + old(self)@.stop_actions(num_out_channels as int));
        }
    }

    /// Loads the sample of the parameters.
    pub fn load_sample(&mut self, num_out_channels: usize, actions: &mut Vec<SamplerAction>)
        requires
            old(self).wf(),
        ensures
            final(self).wf(),
            final(self)@ == old(self)@.load(num_out_channels as int),
            final(actions)@ == old(actions)@ + old(self)@.load_actions(num_out_channels as int),
    {
        self.stop(num_out_channels, actions);
        self.loaded_sample_state = None;
        match self.params.sample {
            Some(sample) => {
                self.loaded_sample_state = Some(
                    LoadedSampleState {
                        sample_len_frames: sample.len_frames,
                        sample_num_channels: sample.num_channels,
                        sample_mono_to_stereo: self.params.mono_to_stereo && num_out_channels > 1
                            && sample.num_channels == 1,
                        playhead_frames: 0,
                        num_times_looped_back: 0,
                    },
                );
                actions.push(SamplerAction::Load);
            },
            None => {
                self.shared_state.stopped = true;
                actions.push(SamplerAction::Unload);
            },
        }
        self.playback_state = PlaybackState::Stop;
        proof {
            assert(self@ =~= old(self)@.load(num_out_channels as int));
            assert(actions@ =~= old(actions)@ + old(self)@.load_actions(num_out_channels as int));
        }
    }
}

/// The largest number of frames, or of repetitions, that is counted.
pub const MAX_FRAMES: u64 = 0x3FFF_FFFF_FFFF_FFFF;

/// The times and positions that come with a change, in frames.
#[derive(Debug, Clone, Copy, PartialEq, Eq, Structural)]
pub struct ResolvedTimes {
    /// The time of the first frame to process.
    pub clock: InstantSamples,
    /// The playhead that was asked for.
    pub playhead_frames: Option<u64>,
    /// When the playback state was asked for, if that can be told.
    pub event_samples: Option<InstantSamples>,
    /// When the queued playback was asked for, if that can be told.
    pub queued_samples: Option<InstantSamples>,
}

/// The parameters after a change.
pub open spec fn patched(params: SamplerParams, patch: SamplerPatch) -> SamplerParams {
    match patch {
        SamplerPatch::Sample(sample) => SamplerParams { sample, ..params },
        SamplerPatch::Playback(playback, playback_id) => SamplerParams {
            playback,
            playback_id,
            ..params
        },
        SamplerPatch::RepeatMode(repeat_mode) => SamplerParams { repeat_mode, ..params },
        SamplerPatch::MonoToStereo(mono_to_stereo) => SamplerParams { mono_to_stereo, ..params },
        SamplerPatch::CrossfadeOnSeek(crossfade_on_seek) => SamplerParams {
            crossfade_on_seek,
            ..params
        },
        SamplerPatch::Volume | SamplerPatch::Speed | SamplerPatch::MinGain => params,
    }
}

/// What has changed after another change.
pub open spec fn noted(
    changes: SamplerChanges,
    patch: SamplerPatch,
    timestamp: Option<EventInstant>,
) -> SamplerChanges {
    match patch {
        SamplerPatch::Sample(_) => SamplerChanges { sample: true, ..changes },
        SamplerPatch::Volume => SamplerChanges { volume: true, ..changes },
        SamplerPatch::Playback(..) => SamplerChanges {
            playback: true,
            playback_instant: timestamp,
            ..changes
        },
        SamplerPatch::RepeatMode(_) => SamplerChanges { repeat_mode: true, ..changes },
        SamplerPatch::Speed => SamplerChanges { speed: true, ..changes },
        _ => changes,
    }
}

/// The playhead and the number of repetitions when a position is `frames` frames
/// after the beginning of a sample of `len` frames: past the end, the sample is
/// repeated as often as the mode says, and then it is at its end.
pub open spec fn wrapped(frames: int, len: int, mode: RepeatMode, looped: int) -> (int, int) {
    if frames < len {
        (frames, looped)
    } else {
        match mode {
            RepeatMode::PlayOnce => (len, looped),
            RepeatMode::RepeatEndlessly => (frames % len, looped + frames / len),
            RepeatMode::RepeatMultiple { num_times_to_repeat } => if len == 0 || (looped
                <= num_times_to_repeat && frames / len > num_times_to_repeat - looped) {
                (len, num_times_to_repeat as int)
            } else {
                (frames % len, looped + frames / len)
            },
        }
    }
}

/// How many frames ago an event happened that has a time: none, if that cannot be
/// told or if it is still to come.
pub open spec fn delay_of(event: Option<EventInstant>, samples: Option<InstantSamples>, clock: int) -> int {
    match (event, samples) {
        (Some(_), Some(t)) => if t.0 < clock {
            clock - t.0
        } else {
            0
        },
        _ => 0,
    }
}

impl SamplerView {
    /// The playback is asked to start at a position: the one given, or else where
    /// it was paused, or the beginning if it was stopped; a delay is accounted for.
    pub open spec fn seek_frames(self, times: ResolvedTimes, delay: int) -> int {
        let at = match times.playhead_frames {
            Some(frames) => frames as int,
            None => if self.state is Stop {
                0
            } else {
                self.loaded->0.playhead_frames as int
            },
        };
        at + delay
    }

    /// The playhead and the number of repetitions for such a request.
    pub open spec fn seek_target(self, times: ResolvedTimes, delay: int) -> (int, int) {
        let loaded = self.loaded->0;
        wrapped(
            self.seek_frames(times, delay),
            loaded.sample_len_frames as int,
            self.params.repeat_mode,
            if times.playhead_frames is Some {
                0
            } else {
                loaded.num_times_looped_back as int
            },
        )
    }

    /// The sampler with its playhead moved: where that is a change, the sample that
    /// was playing is stopped first.
    pub open spec fn moved(self, times: ResolvedTimes, delay: int, num_out: int) -> SamplerView {
        let (playhead, looped) = self.seek_target(times, delay);
        let loaded = self.loaded->0;
        let counted = SamplerView {
            loaded: Some(LoadedSampleState { num_times_looped_back: looped as u64, ..loaded }),
            ..self
        };
        if playhead != loaded.playhead_frames {
            SamplerView {
                loaded: Some(
                    LoadedSampleState {
                        playhead_frames: playhead as u64,
                        num_times_looped_back: looped as u64,
                        ..loaded
                    },
                ),
                shared: SharedState { sample_playhead_frames: playhead as u64, ..self.shared },
                ..counted.stop(num_out)
            }
        } else {
            counted
        }
    }

    /// What is done when the playhead is moved.
    pub open spec fn move_actions(self, times: ResolvedTimes, delay: int, num_out: int) -> Seq<
        SamplerAction,
    > {
        let (playhead, looped) = self.seek_target(times, delay);
        let loaded = self.loaded->0;
        if playhead != loaded.playhead_frames {
            SamplerView {
                loaded: Some(LoadedSampleState { num_times_looped_back: looped as u64, ..loaded }),
                ..self
            }.stop_actions(num_out)
        } else {
            Seq::empty()
        }
    }

    /// Whether a sample that starts to play fades in: if it does not start at its
    /// beginning, or if another one fades out and samples are crossfaded.
    pub open spec fn fades_in(self) -> bool {
        self.loaded->0.playhead_frames != 0 || (num_active(self.fades) > 0
            && self.params.crossfade_on_seek)
    }

    /// The sampler once playing has started at the playhead: at the end of the
    /// sample it has finished.
    pub open spec fn started(self) -> SamplerView {
        let loaded = self.loaded->0;
        if loaded.playhead_frames == loaded.sample_len_frames {
            SamplerView {
                state: PlaybackState::Stop,
                shared: SharedState { finished: self.params.playback_id, ..self.shared },
                ..self
            }
        } else {
            SamplerView {
                state: self.params.playback,
                declicker: if self.fades_in() {
                    DeclickPhase::Fading
                } else {
                    DeclickPhase::SettledAt1
                },
                ..self
            }
        }
    }

    /// What is done when playing starts.
    pub open spec fn start_actions(self) -> Seq<SamplerAction> {
        let loaded = self.loaded->0;
        if loaded.playhead_frames == loaded.sample_len_frames {
            Seq::empty()
        } else if self.fades_in() {
            seq![SamplerAction::FadeIn]
        } else {
            seq![SamplerAction::FullVolume]
        }
    }

    /// The sampler once the playback state that was asked for is reached.
    pub open spec fn play(
        self,
        event: Option<EventInstant>,
        samples: Option<InstantSamples>,
        times: ResolvedTimes,
        num_out: int,
    ) -> SamplerView {
        match self.params.playback {
            PlaybackState::Stop => {
                let stopped = self.stop(num_out);
                SamplerView {
                    state: PlaybackState::Stop,
                    shared: SharedState { finished: self.params.playback_id, ..stopped.shared },
                    ..stopped
                }
            },
            PlaybackState::Pause => if self.state is Play {
                SamplerView {
                    state: PlaybackState::Pause,
                    declicker: if self.declicker is SettledAt0 {
                        DeclickPhase::SettledAt0
                    } else {
                        DeclickPhase::Fading
                    },
                    ..self
                }
            } else {
                self
            },
            PlaybackState::Play { playhead } => if self.state is Play && playhead is None {
                SamplerView { queued: None, ..self }
            } else if self.loaded is Some {
                SamplerView {
                    queued: None,
                    ..self.moved(
                        times,
                        delay_of(event, samples, times.clock.0 as int),
                        num_out,
                    ).started()
                }
            } else {
                SamplerView { state: PlaybackState::Stop, queued: event, ..self }
            },
        }
    }

    /// What is done to reach the playback state that was asked for.
    pub open spec fn play_actions(
        self,
        event: Option<EventInstant>,
        samples: Option<InstantSamples>,
        times: ResolvedTimes,
        num_out: int,
    ) -> Seq<SamplerAction> {
        match self.params.playback {
            PlaybackState::Stop => self.stop_actions(num_out),
            PlaybackState::Pause => if self.state is Play {
                seq![SamplerAction::FadeTo0]
            } else {
                Seq::empty()
            },
            PlaybackState::Play { playhead } => if self.state is Play && playhead is None {
                Seq::empty()
            } else if self.loaded is Some {
                let delay = delay_of(event, samples, times.clock.0 as int);
                self.move_actions(times, delay, num_out) + self.moved(
                    times,
                    delay,
                    num_out,
                ).start_actions()
            } else {
                Seq::empty()
            },
        }
    }

    /// The sampler with repetitions counted anew.
    pub open spec fn recounted(self) -> SamplerView {
        SamplerView {
            loaded: match self.loaded {
                Some(loaded) => Some(LoadedSampleState { num_times_looped_back: 0, ..loaded }),
                None => None,
            },
            ..self
        }
    }

    /// Whether the playback state is to be reached anew: if it was asked for, or
    /// for a new sample, unless the request was queued and its time cannot be told.
    pub open spec fn plays_now(self, changes: SamplerChanges, times: ResolvedTimes) -> bool {
        changes.playback || (changes.sample && (self.queued is None || times.queued_samples is Some))
    }

    /// Whether the request to play is the queued one.
    pub open spec fn uses_queued(self, changes: SamplerChanges) -> bool {
        !changes.playback && changes.sample && self.queued is Some
    }

    /// The sampler once a change of its sample, and of how often it is repeated,
    /// took effect.
    pub open spec fn with_sample(self, changes: SamplerChanges, num_out: int) -> SamplerView {
        let counted = if changes.repeat_mode {
            self.recounted()
        } else {
            self
        };
        if changes.sample {
            SamplerView {
                queued: if changes.playback {
                    self.queued
                } else {
                    None
                },
                ..counted
            }.load(num_out)
        } else {
            counted
        }
    }

    /// What is done when the sample changes.
    pub open spec fn sample_actions(self, changes: SamplerChanges, num_out: int) -> Seq<
        SamplerAction,
    > {
        if changes.sample {
            if changes.repeat_mode {
                self.recounted().load_actions(num_out)
            } else {
                self.load_actions(num_out)
            }
        } else {
            Seq::empty()
        }
    }

    /// The sampler once changes of its parameters took effect.
    pub open spec fn update(
        self,
        changes: SamplerChanges,
        times: ResolvedTimes,
        num_out: int,
    ) -> SamplerView {
        let loaded = self.with_sample(changes, num_out);
        let played = if !self.plays_now(changes, times) {
            loaded
        } else if self.uses_queued(changes) {
            loaded.play(self.queued, times.queued_samples, times, num_out)
        } else {
            loaded.play(changes.playback_instant, times.event_samples, times, num_out)
        };
        SamplerView {
            is_first: false,
            shared: SharedState {
                playing: played.state is Play,
                stopped: played.state is Stop,
                ..played.shared
            },
            ..played
        }
    }

    /// What is done when changes of the parameters take effect.
    pub open spec fn update_actions(
        self,
        changes: SamplerChanges,
        times: ResolvedTimes,
        num_out: int,
    ) -> Seq<SamplerAction> {
        let first = self.sample_actions(changes, num_out);
        let loaded = self.with_sample(changes, num_out);
        if !self.plays_now(changes, times) {
            first
        } else if self.uses_queued(changes) {
            first + loaded.play_actions(self.queued, times.queued_samples, times, num_out)
        } else {
            first + loaded.play_actions(
                changes.playback_instant,
                times.event_samples,
                times,
                num_out,
            )
        }
    }

    /// Whether nothing is too large to be counted, and a sample that is repeated
    /// endlessly has a length.
    pub open spec fn in_range(self, times: ResolvedTimes) -> bool {
        &&& self.params.sample matches Some(sample) ==> sample.len_frames <= MAX_FRAMES && (
        self.params.repeat_mode is RepeatEndlessly ==> sample.len_frames > 0)
        &&& self.loaded matches Some(loaded) ==> loaded.sample_len_frames <= MAX_FRAMES
            && loaded.num_times_looped_back <= MAX_FRAMES && (
        self.params.repeat_mode is RepeatEndlessly ==> loaded.sample_len_frames > 0)
        &&& times.playhead_frames matches Some(frames) ==> frames <= MAX_FRAMES
        &&& times.event_samples matches Some(t) ==> times.clock.0 - t.0 <= MAX_FRAMES
        &&& times.queued_samples matches Some(t) ==> times.clock.0 - t.0 <= MAX_FRAMES
        &&& self.params.playback matches PlaybackState::Play { playhead } ==> (playhead is Some
            <==> times.playhead_frames is Some)
    }
}

/// The playhead and the number of repetitions for a position.
fn wrap_playhead(frames: u64, len: u64, mode: RepeatMode, looped: u64) -> (result: (u64, u64))
    requires
        frames + looped <= u64::MAX,
        mode is RepeatEndlessly ==> len > 0,
    ensures
        (result.0 as int, result.1 as int) == wrapped(
            frames as int,
            len as int,
            mode,
            looped as int,
        ),
        result.0 <= len,
{
    if frames < len {
        return (frames, looped);
    }
    proof {
        if len > 0 {
            assert(frames / len <= frames) by (nonlinear_arith)
                requires
                    len > 0,
            ;
        }
    }
    match mode {
        RepeatMode::PlayOnce => (len, looped),
        RepeatMode::RepeatEndlessly => (frames % len, looped + frames / len),
        RepeatMode::RepeatMultiple { num_times_to_repeat } => {
            let times: u64 = num_times_to_repeat as u64;
            if len == 0 || (looped <= times && frames / len > times - looped) {
                (len, times)
            } else {
                (frames % len, looped + frames / len)
            }
        },
    }
}

impl SamplerProcessor {
    /// No change, except that the first time the sample has to be loaded.
    pub fn changes(&self) -> (changes: SamplerChanges)
        ensures
            changes == (SamplerChanges {
                sample: self@.is_first,
                playback: false,
                repeat_mode: false,
                speed: false,
                volume: false,
                playback_instant: None,
            }),
    {
        SamplerChanges {
            sample: self.is_first_process,
            playback: false,
            repeat_mode: false,
            speed: false,
            volume: false,
            playback_instant: None,
        }
    }

    /// Applies a change to the parameters, and notes what has changed.
    pub fn apply_patch(
        &mut self,
        patch: SamplerPatch,
        timestamp: Option<EventInstant>,
        changes: &mut SamplerChanges,
    )
        requires
            old(self).wf(),
        ensures
            final(self).wf(),
            final(self)@ == (SamplerView {
                params: patched(old(self)@.params, patch),
                ..old(self)@
            }),
            *final(changes) == noted(*old(changes), patch, timestamp),
    {
        match patch {
            SamplerPatch::Sample(sample) => {
                changes.sample = true;
                self.params.sample = sample;
            },
            SamplerPatch::Volume => {
                changes.volume = true;
            },
            SamplerPatch::Playback(playback, playback_id) => {
                changes.playback = true;
                changes.playback_instant = timestamp;
                self.params.playback = playback;
                self.params.playback_id = playback_id;
            },
            SamplerPatch::RepeatMode(repeat_mode) => {
                changes.repeat_mode = true;
                self.params.repeat_mode = repeat_mode;
            },
            SamplerPatch::Speed => {
                changes.speed = true;
            },
            SamplerPatch::MonoToStereo(mono_to_stereo) => {
                self.params.mono_to_stereo = mono_to_stereo;
            },
            SamplerPatch::CrossfadeOnSeek(crossfade_on_seek) => {
                self.params.crossfade_on_seek = crossfade_on_seek;
            },
            SamplerPatch::MinGain => {},
        }
    }

    /// The parameters.
    pub fn params(&self) -> (params: SamplerParams)
        ensures
            params == self@.params,
    {
        self.params
    }

    /// The time of a request to play that came before there was a sample.
    pub fn queued_playback_instant(&self) -> (instant: Option<EventInstant>)
        ensures
            instant == self@.queued,
    {
        self.queued_playback_instant
    }

    /// Moves the playhead to where the playback is asked to start.
    fn move_playhead(
        &mut self,
        times: ResolvedTimes,
        delay: u64,
        num_out_channels: usize,
        actions: &mut Vec<SamplerAction>,
    )
        requires
            old(self).wf(),
            old(self)@.loaded is Some,
            old(self)@.in_range(times),
            delay <= MAX_FRAMES,
        ensures
            final(self).wf(),
            final(self)@ == old(self)@.moved(times, delay as int, num_out_channels as int),
            final(actions)@ == old(actions)@ + old(self)@.move_actions(
                times,
                delay as int,
                num_out_channels as int,
            ),
    {
        let ghost v0 = self@;
        let ghost num_out = num_out_channels as int;
        if let Some(loaded) = self.loaded_sample_state {
            let at: u64 = match times.playhead_frames {
                Some(frames) => frames,
                None => match self.playback_state {
                    PlaybackState::Stop => 0,
                    _ => loaded.playhead_frames,
                },
            };
            let looped: u64 = if times.playhead_frames.is_some() {
                0
            } else {
                loaded.num_times_looped_back
            };
            let (new_playhead, new_looped) = wrap_playhead(
                at + delay,
                loaded.sample_len_frames,
                self.params.repeat_mode,
                looped,
            );
            assert(v0.seek_target(times, delay as int) == (new_playhead as int, new_looped as int));
            self.loaded_sample_state = Some(
                LoadedSampleState { num_times_looped_back: new_looped, ..loaded },
            );
            let ghost v1 = self@;
            if loaded.playhead_frames != new_playhead {
                self.stop(num_out_channels, actions);
                self.loaded_sample_state = Some(
                    LoadedSampleState {
                        playhead_frames: new_playhead,
                        num_times_looped_back: new_looped,
                        ..loaded
                    },
                );
                self.shared_state.sample_playhead_frames = new_playhead;
            }
            assert(self@ =~= v0.moved(times, delay as int, num_out));
            assert(actions@ =~= old(actions)@ + v0.move_actions(times, delay as int, num_out));
        }
    }

    /// Starts to play at the playhead.
    fn start_playing(&mut self, actions: &mut Vec<SamplerAction>)
        requires
            old(self).wf(),
            old(self)@.loaded is Some,
        ensures
            final(self).wf(),
            final(self)@ == old(self)@.started(),
            final(actions)@ == old(actions)@ + old(self)@.start_actions(),
    {
        let ghost v0 = self@;
        if let Some(loaded) = self.loaded_sample_state {
            if loaded.playhead_frames == loaded.sample_len_frames {
                self.playback_state = PlaybackState::Stop;
                self.shared_state.finished = self.params.playback_id;
            } else {
                if loaded.playhead_frames != 0 || (self.num_active_stop_declickers > 0
                    && self.params.crossfade_on_seek) {
                    self.declicker = DeclickPhase::Fading;
                    actions.push(SamplerAction::FadeIn);
                } else {
                    self.declicker = DeclickPhase::SettledAt1;
                    actions.push(SamplerAction::FullVolume);
                }
                self.playback_state = self.params.playback;
            }
            assert(self@ =~= v0.started());
            assert(actions@ =~= old(actions)@ + v0.start_actions());
        }
    }

    /// Reaches the playback state that was asked for.
    #[verifier::spinoff_prover]
    #[verifier::rlimit(40)]
    fn change_playback(
        &mut self,
        event: Option<EventInstant>,
        samples: Option<InstantSamples>,
        times: ResolvedTimes,
        num_out_channels: usize,
        actions: &mut Vec<SamplerAction>,
    )
        requires
            old(self).wf(),
            old(self)@.state is Play ==> old(self)@.loaded is Some,
            old(self)@.in_range(times),
            samples matches Some(t) ==> times.clock.0 - t.0 <= MAX_FRAMES,
        ensures
            final(self).wf(),
            final(self)@.state is Play ==> final(self)@.loaded is Some,
            final(self)@ == old(self)@.play(event, samples, times, num_out_channels as int),
            final(actions)@ == old(actions)@ + old(self)@.play_actions(
                event,
                samples,
                times,
                num_out_channels as int,
            ),
    {
        let ghost v0 = self@;
        let ghost num_out = num_out_channels as int;
        match self.params.playback {
            PlaybackState::Stop => {
                self.stop(num_out_channels, actions);
                self.shared_state.finished = self.params.playback_id;
                self.playback_state = PlaybackState::Stop;
                assert(self@ =~= v0.play(event, samples, times, num_out));
            },
            PlaybackState::Pause => {
                if self.playback_state.is_playing() {
                    self.playback_state = PlaybackState::Pause;
                    self.declicker = match self.declicker {
                        DeclickPhase::SettledAt0 => DeclickPhase::SettledAt0,
                        _ => DeclickPhase::Fading,
                    };
                    actions.push(SamplerAction::FadeTo0);
                }
                assert(self@ =~= v0.play(event, samples, times, num_out));
                assert(actions@ =~= old(actions)@ + v0.play_actions(
                    event,
                    samples,
                    times,
                    num_out,
                ));
            },
            PlaybackState::Play { playhead } => {
                if self.playback_state.is_playing() && playhead.is_none() {
                    // Sample is already playing, no need to do anything.
                    self.queued_playback_instant = None;
                    assert(actions@ =~= old(actions)@ + v0.play_actions(
                        event,
                        samples,
                        times,
                        num_out,
                    ));
                } else if self.loaded_sample_state.is_some() {
                    let delay: u64 = match (event, samples) {
                        (Some(_), Some(t)) => if t.0 < times.clock.0 {
                            (times.clock.0 - t.0) as u64
                        } else {
                            0
                        },
                        _ => 0,
                    };
                    assert(delay == delay_of(event, samples, times.clock.0 as int));
                    self.move_playhead(times, delay, num_out_channels, actions);
                    let ghost v1 = self@;
                    assert(v1.loaded is Some);
                    self.start_playing(actions);
                    self.queued_playback_instant = None;
                    assert(actions@ =~= old(actions)@ + v0.play_actions(
                        event,
                        samples,
                        times,
                        num_out,
                    ));
                } else {
                    self.playback_state = PlaybackState::Stop;
                    self.queued_playback_instant = event;
                    assert(actions@ =~= old(actions)@ + v0.play_actions(
                        event,
                        samples,
                        times,
                        num_out,
                    ));
                }
            },
        }
    }

    /// Counts repetitions anew if the mode has changed, and loads the sample if it
    /// has changed.
    fn change_sample(
        &mut self,
        changes: SamplerChanges,
        num_out_channels: usize,
        actions: &mut Vec<SamplerAction>,
    )
        requires
            old(self).wf(),
            old(self)@.is_first ==> changes.sample,
        ensures
            final(self).wf(),
            final(self)@.state is Play ==> final(self)@.loaded is Some,
            final(self)@ == old(self)@.with_sample(changes, num_out_channels as int),
            final(actions)@ == old(actions)@ + old(self)@.sample_actions(
                changes,
                num_out_channels as int,
            ),
    {
        let ghost v0 = self@;
        if changes.repeat_mode {
            if let Some(loaded) = self.loaded_sample_state {
                self.loaded_sample_state = Some(
                    LoadedSampleState { num_times_looped_back: 0, ..loaded },
                );
            }
        }
        if changes.sample {
            if !changes.playback {
                self.queued_playback_instant = None;
            }
            self.load_sample(num_out_channels, actions);
        }
        assert(self@ =~= v0.with_sample(changes, num_out_channels as int));
        assert(actions@ =~= old(actions)@ + v0.sample_actions(changes, num_out_channels as int));
    }

    /// Changes of the parameters take effect. Returns what is to be done with the
    /// audio, in order.
    #[verifier::spinoff_prover]
    #[verifier::rlimit(40)]
    pub fn update(
        &mut self,
        changes: SamplerChanges,
        times: ResolvedTimes,
        num_out_channels: usize,
    ) -> (actions: Vec<SamplerAction>)
        requires
            old(self).wf(),
            old(self)@.in_range(times),
            old(self)@.is_first ==> changes.sample,
        ensures
            final(self).wf(),
            final(self)@ == old(self)@.update(changes, times, num_out_channels as int),
            actions@ == old(self)@.update_actions(changes, times, num_out_channels as int),
    {
        let ghost v0 = self@;
        let ghost num_out = num_out_channels as int;
        let mut actions: Vec<SamplerAction> = Vec::new();
        let mut playback_changed = changes.playback;
        let mut event = changes.playback_instant;
        let mut samples = times.event_samples;
        if changes.sample && !playback_changed {
            playback_changed = true;
            if let Some(queued) = self.queued_playback_instant {
                if times.queued_samples.is_some() {
                    event = Some(queued);
                    samples = times.queued_samples;
                } else {
                    // Handle an edge case where the user sent a scheduled play event at
                    // a musical time, but there is no sample and a musical transport
                    // is not playing.
                    playback_changed = false;
                }
            }
        }
        self.change_sample(changes, num_out_channels, &mut actions);
        assert(actions@ =~= v0.sample_actions(changes, num_out));
        if playback_changed {
            self.change_playback(event, samples, times, num_out_channels, &mut actions);
        }
        self.is_first_process = false;
        self.shared_state.playing = self.playback_state.is_playing();
        self.shared_state.stopped = match self.playback_state {
            PlaybackState::Stop => true,
            _ => false,
        };
        assert(self@ =~= v0.update(changes, times, num_out));
        actions
    }
}

/// A part of the fade of a sample that was stopped, to be mixed into the outputs.
#[derive(Debug, Clone, Copy, PartialEq, Eq, Structural)]
pub struct FadeMix {
    /// Which fade.
    pub declicker: usize,
    /// The number of channels of the fade.
    pub channels: usize,
    /// The first frame of the fade.
    pub start_frame: usize,
    /// The number of frames.
    pub frames: usize,
}

/// The number of frames of a fade that fit in a block.
pub open spec fn mixed_frames(fade: StopDeclickerState, frames: int) -> int {
    if fade.frames_left < frames {
        fade.frames_left as int
    } else {
        frames
    }
}

/// The fades after a block.
pub open spec fn after_mix(fades: Seq<StopDeclickerState>, frames: int) -> Seq<StopDeclickerState> {
    fades.map_values(
        |f: StopDeclickerState|
            StopDeclickerState {
                frames_left: (f.frames_left - mixed_frames(f, frames)) as usize,
                channels: f.channels,
            },
    )
}

/// The parts of the first `n` fades that are mixed in a block: each that is not
/// over goes on from where it was.
pub open spec fn mixes(
    fades: Seq<StopDeclickerState>,
    fade_frames: int,
    frames: int,
    n: int,
) -> Seq<FadeMix>
    decreases n,
{
    if n <= 0 {
        Seq::empty()
    } else {
        let before = mixes(fades, fade_frames, frames, n - 1);
        let f = fades[n - 1];
        if f.frames_left == 0 {
            before
        } else {
            before.push(
                FadeMix {
                    declicker: (n - 1) as usize,
                    channels: f.channels,
                    start_frame: (fade_frames - f.frames_left) as usize,
                    frames: mixed_frames(f, frames) as usize,
                },
            )
        }
    }
}

/// The number of channels that are filled when the first `n` fades are mixed into
/// `filled` channels.
pub open spec fn filled_by(fades: Seq<StopDeclickerState>, filled: int, n: int) -> int
    decreases n,
{
    if n <= 0 {
        filled
    } else {
        let before = filled_by(fades, filled, n - 1);
        let f = fades[n - 1];
        if f.frames_left > 0 && f.channels > before {
            f.channels as int
        } else {
            before
        }
    }
}

/// The mask of the channels from `num_filled_channels` on.
pub fn silent_from(num_filled_channels: usize, num_out_channels: usize) -> (mask: SilenceMask)
    ensures
        forall|ch: int|
            0 <= ch < 64 ==> #[trigger] mask.silent(ch) == (num_filled_channels <= ch
                < num_out_channels),
{
    if num_filled_channels >= num_out_channels {
        return SilenceMask::none_silent();
    }
    let mut mask = SilenceMask::new_all_silent(num_out_channels);
    let num: usize = if num_filled_channels < 64 {
        num_filled_channels
    } else {
        64
    };
    for i in 0..num
        invariant
            num <= 64,
            num <= num_filled_channels < num_out_channels,
            forall|ch: int|
                0 <= ch < 64 ==> #[trigger] mask.silent(ch) == (i <= ch < num_out_channels),
    {
        mask.set_channel(i, false);
    }
    mask
}

impl SamplerProcessor {
    /// Whether there is something to play: the sample, or a fade. If not, all
    /// outputs are to be cleared.
    pub fn has_output(&self) -> (has: bool)
        requires
            self.wf(),
        ensures
            has == (self@.processing() || num_active(self@.fades) > 0),
    {
        self.currently_processing_sample() || self.num_active_stop_declickers > 0
    }

    /// What shows to the main thread.
    pub fn shared_state(&self) -> (state: SharedState)
        ensures
            state == self@.shared,
    {
        self.shared_state
    }

    /// The sample that is played.
    pub fn loaded(&self) -> (loaded: Option<LoadedSampleState>)
        ensures
            loaded == self@.loaded,
    {
        self.loaded_sample_state
    }

    /// The frames of the sample to copy to the next `block_frames` frames of a
    /// buffer, starting from the current playhead. Then increments the playhead.
    /// Without a sample there is nothing to copy.
    pub fn copy_from_sample(&mut self, block_frames: usize) -> (plan: CopyPlan)
        requires
            old(self).wf(),
            old(self)@.loaded matches Some(loaded) ==> loaded.can_play(
                old(self)@.params.repeat_mode,
                block_frames as int,
            ),
        ensures
            final(self).wf(),
            final(self)@ == (SamplerView { loaded: final(self)@.loaded, ..old(self)@ }),
            match old(self)@.loaded {
                Some(loaded) => {
                    &&& plan_ok(loaded, old(self)@.params.repeat_mode, block_frames as int, plan)
                    &&& final(self)@.loaded is Some
                    &&& advanced(loaded, plan.frames as int, final(self)@.loaded->0)
                },
                None => {
                    &&& plan.finished
                    &&& plan.frames == 0
                    &&& plan.segments@.len() == 0
                    &&& final(self)@.loaded is None
                },
            },
    {
        match self.loaded_sample_state {
            Some(loaded) => {
                let mut loaded = loaded;
                let plan = loaded.copy_from_sample(block_frames, self.params.repeat_mode);
                self.loaded_sample_state = Some(loaded);
                plan
            },
            None => CopyPlan { segments: Vec::new(), frames: 0, finished: true },
        }
    }

    /// The sample was played up to another place.
    pub fn played_to(&mut self, loaded: LoadedSampleState)
        requires
            old(self).wf(),
            old(self)@.loaded is Some,
            loaded.wf(),
        ensures
            final(self).wf(),
            final(self)@ == (SamplerView { loaded: Some(loaded), ..old(self)@ }),
    {
        self.loaded_sample_state = Some(loaded);
    }

    /// Where the fade of the sample stands.
    pub fn declick_phase(&self) -> (phase: DeclickPhase)
        ensures
            phase == self@.declicker,
    {
        self.declicker
    }

    /// The fade of the sample went on in a block.
    pub fn fade_advanced(&mut self, declicker: DeclickPhase)
        requires
            old(self).wf(),
        ensures
            final(self).wf(),
            final(self)@ == (SamplerView { declicker, ..old(self)@ }),
    {
        self.declicker = declicker;
    }

    /// The sample was played in a block: where its fade stands now, and whether it
    /// has finished.
    pub fn sample_processed(&mut self, declicker: DeclickPhase, finished: bool)
        requires
            old(self).wf(),
            old(self)@.loaded is Some,
        ensures
            final(self).wf(),
            final(self)@ == (SamplerView {
                declicker,
                state: if finished {
                    PlaybackState::Stop
                } else {
                    old(self)@.state
                },
                shared: SharedState {
                    sample_playhead_frames: old(self)@.loaded->0.playhead_frames,
                    stopped: old(self)@.shared.stopped || finished,
                    finished: if finished {
                        old(self)@.params.playback_id
                    } else {
                        old(self)@.shared.finished
                    },
                    ..old(self)@.shared
                },
                ..old(self)@
            }),
    {
        self.declicker = declicker;
        if let Some(loaded) = self.loaded_sample_state {
            self.shared_state.sample_playhead_frames = loaded.playhead_frames;
        }
        if finished {
            self.playback_state = PlaybackState::Stop;
            self.shared_state.stopped = true;
            self.shared_state.finished = self.params.playback_id;
        }
    }

    /// The parts of the fades of samples that were stopped that are to be mixed into
    /// the outputs of a block, and the number of channels that are then filled.
    pub fn mix_fades(&mut self, frames: usize, num_filled_channels: usize) -> (result: (
        Vec<FadeMix>,
        usize,
    ))
        requires
            old(self).wf(),
        ensures
            final(self).wf(),
            final(self)@ == (SamplerView {
                fades: after_mix(old(self)@.fades, frames as int),
                ..old(self)@
            }),
            result.0@ == mixes(
                old(self)@.fades,
                old(self)@.fade_frames,
                frames as int,
                old(self)@.fades.len() as int,
            ),
            result.1 == filled_by(
                old(self)@.fades,
                num_filled_channels as int,
                old(self)@.fades.len() as int,
            ),
    {
        let ghost fades0 = self.stop_declickers@;
        let ghost after = after_mix(fades0, frames as int);
        let mut list: Vec<FadeMix> = Vec::new();
        let mut filled: usize = num_filled_channels;
        let len: usize = self.stop_declickers.len();
        let fade_frames: usize = self.declick_frames;
        let ghost start = *self;
        for i in 0..len
            invariant
                len == fades0.len(),
                start.wf(),
                start == *old(self),
                fades0 == start.stop_declickers@,
                fade_frames == start.declick_frames,
                after == after_mix(fades0, frames as int),
                *self == (SamplerProcessor {
                    stop_declickers: self.stop_declickers,
                    num_active_stop_declickers: self.num_active_stop_declickers,
                    ..start
                }),
                self.stop_declickers@.len() == len,
                forall|j: int| 0 <= j < i ==> #[trigger] self.stop_declickers@[j] == after[j],
                forall|j: int| i <= j < len ==> #[trigger] self.stop_declickers@[j] == fades0[j],
                self.num_active_stop_declickers == num_active(self.stop_declickers@),
                list@ == mixes(fades0, fade_frames as int, frames as int, i as int),
                filled == filled_by(fades0, num_filled_channels as int, i as int),
        {
            let fade = self.stop_declickers[i];
            if fade.frames_left > 0 {
                let copy_frames: usize = if fade.frames_left < frames {
                    fade.frames_left
                } else {
                    frames
                };
                list.push(
                    FadeMix {
                        declicker: i,
                        channels: fade.channels,
                        start_frame: fade_frames - fade.frames_left,
                        frames: copy_frames,
                    },
                );
                let left = StopDeclickerState {
                    frames_left: fade.frames_left - copy_frames,
                    channels: fade.channels,
                };
                proof {
                    lemma_num_active_update(self.stop_declickers@, i as int, left);
                    lemma_num_active(self.stop_declickers@.update(i as int, left));
                }
                self.stop_declickers.set(i, left);
                if left.frames_left == 0 {
                    self.num_active_stop_declickers = self.num_active_stop_declickers - 1;
                }
                if fade.channels > filled {
                    filled = fade.channels;
                }
            }
        }
        assert(self.stop_declickers@ =~= after);
        (list, filled)
    }

    /// Whether the fades that are not over fit in fades of another length.
    pub fn fades_fit(&self, declick_frames: u32) -> (fit: bool)
        ensures
            fit == forall|i: int|
                0 <= i < self@.fades.len() ==> (#[trigger] self@.fades[i]).frames_left
                    <= declick_frames,
    {
        let len: usize = self.stop_declickers.len();
        for i in 0..len
            invariant
                len == self.stop_declickers@.len(),
                forall|j: int|
                    0 <= j < i ==> (#[trigger] self.stop_declickers@[j]).frames_left
                        <= declick_frames,
        {
            if self.stop_declickers[i].frames_left > declick_frames as usize {
                assert(self@.fades[i as int].frames_left > declick_frames);
                return false;
            }
        }
        true
    }

    /// Called when a new audio stream has been started. If the sample rate has
    /// changed, the sample resources have the incorrect sample rate and the user
    /// must reload them.
    pub fn new_stream(&mut self, sample_rate: u32, prev_sample_rate: u32, declick_frames: u32)
        requires
            old(self).wf(),
            sample_rate != prev_sample_rate ==> declick_frames > 0 && forall|i: int|
                0 <= i < old(self)@.fades.len() ==> (#[trigger] old(self)@.fades[i]).frames_left
                    <= declick_frames,
        ensures
            final(self).wf(),
            final(self)@ == (if sample_rate != prev_sample_rate {
                SamplerView {
                    params: SamplerParams { sample: None, ..old(self)@.params },
                    loaded: None,
                    state: PlaybackState::Stop,
                    shared: SharedState {
                        playing: false,
                        stopped: true,
                        finished: 0,
                        ..old(self)@.shared
                    },
                    fade_frames: declick_frames as int,
                    ..old(self)@
                }
            } else {
                old(self)@
            }),
    {
        if sample_rate != prev_sample_rate {
            self.declick_frames = declick_frames as usize;
            self.params.sample = None;
            self.loaded_sample_state = None;
            self.playback_state = PlaybackState::Stop;
            self.shared_state.playing = false;
            self.shared_state.stopped = true;
            self.shared_state.finished = 0;
        }
    }
}

impl SharedState {
    /// A score of how suitable a node is to start new work (Play a new sample). The
    /// higher the score, the better the candidate.
    pub open spec fn score(self, has_sample: bool, playback: PlaybackState) -> int {
        if !has_sample {
            u64::MAX as int
        } else {
            match playback {
                PlaybackState::Stop => u64::MAX - 1,
                PlaybackState::Pause => if self.stopped {
                    u64::MAX - 2
                } else {
                    u64::MAX - 3
                },
                PlaybackState::Play { .. } => if self.stopped {
                    // The sample has likely finished, or it has likely not started yet.
                    if 0 < self.sample_playhead_frames <= i64::MAX {
                        u64::MAX - 4
                    } else {
                        u64::MAX - 5
                    }
                } else {
                    // The older the sample is, the better it is as a candidate to steal
                    // work from.
                    self.sample_playhead_frames as int
                },
            }
        }
    }

    /// A score of how suitable this node is to start new work (Play a new sample). The
    /// higher the score, the better the candidate.
    pub fn worker_score(&self, has_sample: bool, playback: PlaybackState) -> (score: u64)
        ensures
            score == self.score(has_sample, playback),
    {
        if has_sample {
            match playback {
                PlaybackState::Stop => u64::MAX - 1,
                PlaybackState::Pause => {
                    if self.stopped {
                        u64::MAX - 2
                    } else {
                        u64::MAX - 3
                    }
                },
                PlaybackState::Play { .. } => {
                    if self.stopped {
                        if 0 < self.sample_playhead_frames && self.sample_playhead_frames
                            <= i64::MAX as u64 {
                            u64::MAX - 4
                        } else {
                            u64::MAX - 5
                        }
                    } else {
                        self.sample_playhead_frames
                    }
                },
            }
        } else {
            u64::MAX
        }
    }

    /// The position of the playhead in frames, corrected with the number of frames
    /// that have passed since the clock was last updated, if that is known and the
    /// sample is playing.
    pub fn playhead_frames_corrected(&self, elapsed: Option<DurationSamples>) -> (frames:
        DurationSamples)
        requires
            self.sample_playhead_frames <= i64::MAX,
            elapsed matches Some(e) ==> self.playing ==> i64::MIN <= self.sample_playhead_frames
                + e.0 <= i64::MAX,
        ensures
            frames.0 == self.sample_playhead_frames + (match elapsed {
                Some(e) => if self.playing {
                    e.0 as int
                } else {
                    0
                },
                None => 0,
            }),
    {
        let frames: i64 = self.sample_playhead_frames as i64;
        match elapsed {
            Some(e) => if self.playing {
                DurationSamples(frames + e.0)
            } else {
                DurationSamples(frames)
            },
            None => DurationSamples(frames),
        }
    }
}

} // verus!
