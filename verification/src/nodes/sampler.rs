//! The sampler node.

pub mod block;
pub mod block_laws;
pub mod copy;
pub mod engine;
pub mod laws;
pub mod resampler;

use crate::channel_config::{ChannelConfig, ChannelCount, NonZeroChannelCount};
use crate::clock::DurationSeconds;
use crate::diff::{Notify, ParamPath};
use crate::event::param_data::{F32Bits, F64Bits, Volume};
use crate::event::{NodeEventType, ParamData};
use crate::node::{AudioNode, AudioNodeInfo};
use vstd::prelude::*;

verus! {

/// The largest number of channels of a sampler.
pub const MAX_OUT_CHANNELS: usize = 8;

/// The default number of declickers.
pub const DEFAULT_NUM_DECLICKERS: u32 = 2;

/// The configuration of a sampler node.
#[derive(Debug, Clone, Copy, PartialEq, Eq, Structural)]
pub struct SamplerConfig {
    /// The number of channels in this node.
    pub channels: NonZeroChannelCount,
    /// The maximum number of "declickers" present on this node.
    /// The more declickers there are, the more samples that can be declicked
    /// when played in rapid succession. (Note more declickers will allocate
    /// more memory).
    ///
    /// By default this is set to `2`.
    pub num_declickers: u32,
    /// The quality of the resampling algorithm used when changing the playback
    /// speed.
    pub speed_quality: PlaybackSpeedQuality,
}

impl Default for SamplerConfig {
    fn default() -> (config: Self)
        ensures
            config.channels.spec_get() == 2,
            config.num_declickers == DEFAULT_NUM_DECLICKERS,
            config.num_declickers == 2,
            config.speed_quality == PlaybackSpeedQuality::LinearFast,
    {
        SamplerConfig {
            channels: NonZeroChannelCount::stereo(),
            num_declickers: DEFAULT_NUM_DECLICKERS,
            speed_quality: PlaybackSpeedQuality::LinearFast,
        }
    }
}

/// The quality of the resampling algorithm used for changing the playback
/// speed of a sampler node.
#[non_exhaustive]
#[derive(Debug, Clone, Copy, PartialEq, Eq, Structural)]
pub enum PlaybackSpeedQuality {
    /// Low quality, fast performance. Recommended for most use cases.
    ///
    /// More specifically, this uses a linear resampling algorithm with no
    /// antialiasing filter.
    LinearFast,
}

/// How many times a sample should be repeated.
#[derive(Debug, Clone, Copy, PartialEq, Eq, Structural)]
pub enum RepeatMode {
    /// Play the sample once and then stop.
    PlayOnce,
    /// Repeat the sample the given number of times.
    RepeatMultiple { num_times_to_repeat: u32 },
    /// Repeat the sample endlessly.
    RepeatEndlessly,
}

impl Default for RepeatMode {
    fn default() -> (mode: Self)
        ensures
            mode == RepeatMode::PlayOnce,
    {
        RepeatMode::PlayOnce
    }
}

impl RepeatMode {
    /// Whether a sample that was repeated `looped` times is repeated again.
    pub open spec fn repeats_after(self, looped: int) -> bool {
        match self {
            RepeatMode::PlayOnce => false,
            RepeatMode::RepeatMultiple { num_times_to_repeat } => looped < num_times_to_repeat,
            RepeatMode::RepeatEndlessly => true,
        }
    }

    /// Whether a sample that was repeated `num_times_looped_back` times is
    /// repeated again.
    pub fn do_loop(&self, num_times_looped_back: u64) -> (repeat: bool)
        ensures
            repeat == self.repeats_after(num_times_looped_back as int),
    {
        match self {
            RepeatMode::PlayOnce => false,
            RepeatMode::RepeatMultiple { num_times_to_repeat } => num_times_looped_back
                < *num_times_to_repeat as u64,
            RepeatMode::RepeatEndlessly => true,
        }
    }
}

/// The playhead of a sample.
#[derive(Debug, Clone, Copy, PartialEq, Eq, Structural)]
pub enum Playhead {
    /// The playhead in units of seconds.
    Seconds(DurationSeconds),
    /// The playhead in units of frames (samples in a single channel of audio).
    Frames(u64),
}

impl Playhead {
    /// The beginning of a sample.
    pub fn zero() -> (playhead: Self)
        ensures
            playhead == Playhead::Frames(0),
    {
        Playhead::Frames(0)
    }

    /// The playhead in frames. `seconds_to_frames` gives the number of frames in a
    /// number of seconds.
    pub fn as_frames<F: Fn(DurationSeconds) -> u64>(&self, seconds_to_frames: &F) -> (frames: u64)
        requires
            self matches Playhead::Seconds(s) ==> call_requires(*seconds_to_frames, (*s,)),
        ensures
            match self {
                Playhead::Seconds(s) => call_ensures(*seconds_to_frames, (*s,), frames),
                Playhead::Frames(f) => frames == f,
            },
    {
        match self {
            Playhead::Seconds(seconds) => seconds_to_frames(*seconds),
            Playhead::Frames(frames) => *frames,
        }
    }
}

impl Default for Playhead {
    fn default() -> (playhead: Self)
        ensures
            playhead == Playhead::Frames(0),
    {
        Playhead::Frames(0)
    }
}

/// A parameter representing the current playback state of a sample.
#[derive(Debug, Clone, Copy, PartialEq, Eq, Structural)]
pub enum PlaybackState {
    /// Stop the sample.
    ///
    /// If the sample is started again with `PlaybackState::Play { playhead: None}`,
    /// it will restart from the beginning.
    Stop,
    /// Pause the sample.
    ///
    /// If the sample is started again with `PlaybackState::Play { playhead: None}`,
    /// it will resume from where it left off.
    Pause,
    /// Play the sample.
    Play {
        /// If this is `None`, then one of the two will happen:
        /// * If the previous state was `PlaybackState::Stop`, then the sample will
        /// be restarted from the beginning.
        /// * If the previous state was `PlaybackState::Pause`, then the sample will
        /// resume where it left off.
        ///
        /// If this is `Some`, then the sample will jump to the given position
        /// when the event is recieved. If the scheduled instant of this
        /// `PlaybackState` event is in the past when this node receives this
        /// event, then the delay will automatically be accounted for.
        playhead: Option<Playhead>,
    },
}

impl Default for PlaybackState {
    fn default() -> (state: Self)
        ensures
            state == PlaybackState::Stop,
    {
        PlaybackState::Stop
    }
}

impl PlaybackState {
    /// Start or resume playing.
    pub fn resume() -> (state: Self)
        ensures
            state == (PlaybackState::Play { playhead: None }),
    {
        PlaybackState::Play { playhead: None }
    }

    /// Play from the beginning.
    pub fn restart() -> (state: Self)
        ensures
            state == (PlaybackState::Play { playhead: Some(Playhead::Frames(0)) }),
    {
        PlaybackState::Play { playhead: Some(Playhead::zero()) }
    }

    /// Whether the sample is to play.
    pub fn is_playing(&self) -> (playing: bool)
        ensures
            playing == (*self is Play),
    {
        match self {
            PlaybackState::Play { .. } => true,
            _ => false,
        }
    }
}

/// A node that plays samples. `S` is a sample resource.
pub struct SamplerNode<S> {
    /// The sample resource to use.
    pub sample: Option<S>,
    /// The volume to play the sample at.
    ///
    /// Note, this gain parameter is *NOT* smoothed!
    pub volume: Volume,
    /// The current playback state.
    pub playback: Notify<PlaybackState>,
    /// How many times a sample should be repeated.
    pub repeat_mode: RepeatMode,
    /// The speed at which to play the sample at. `1.0` means to play the sound at
    /// its original speed, `< 1.0` means to play the sound slower (which will make
    /// it lower-pitched), and `> 1.0` means to play the sound faster (which will
    /// make it higher-pitched).
    pub speed: F64Bits,
    /// If `true`, then mono samples will be converted to stereo during playback.
    ///
    /// By default this is set to `true`.
    pub mono_to_stereo: bool,
    /// If true, then samples will be crossfaded when the playhead or sample is
    /// changed (if a sample was currently playing when the event was sent).
    ///
    /// By default this is set to `true`.
    pub crossfade_on_seek: bool,
    /// If the resutling gain (in raw amplitude, not decibels) is less
    /// than or equal to this value, then the gain will be clamped to
    /// `0.0` (silence).
    ///
    /// By default this is set to `0.00001` (-100 decibels).
    pub min_gain: F32Bits,
}

impl<S> Default for SamplerNode<S> {
    fn default() -> (node: Self)
        ensures
            node.sample is None,
            node.volume == Volume::Linear(F32Bits(0x3F80_0000)),
            node.playback.spec_value() == PlaybackState::Stop,
            node.playback.spec_id() == 0,
            node.repeat_mode == RepeatMode::PlayOnce,
            node.speed == F64Bits(0x3FF0_0000_0000_0000),
            node.mono_to_stereo,
            node.crossfade_on_seek,
            node.min_gain == F32Bits(0x3727_C5AC),
    {
        SamplerNode {
            sample: None,
            volume: Volume::Linear(F32Bits(0x3F80_0000)),
            playback: Notify::new(PlaybackState::Stop, 0),
            repeat_mode: RepeatMode::PlayOnce,
            speed: F64Bits(0x3FF0_0000_0000_0000),
            mono_to_stereo: true,
            crossfade_on_seek: true,
            min_gain: F32Bits(0x3727_C5AC),
        }
    }
}

impl<S> SamplerNode<S> {
    /// Set the parameters to a play a single sample.
    pub fn set_sample(&mut self, sample: S)
        ensures
            *final(self) == (SamplerNode { sample: Some(sample), ..*old(self) }),
    {
        self.sample = Some(sample);
    }

    /// Returns an event type to sync the `sample` parameter, given the sample as
    /// event data.
    pub fn sync_sample_event<E>(&self, sample: E) -> (event: NodeEventType<E>)
        ensures
            event matches NodeEventType::Param { data, path } && data == ParamData::Any(sample)
                && path@ == seq![0u32],
    {
        let path = ParamPath::Single(0);
        assert(path@ =~= seq![0u32]);
        NodeEventType::Param { data: ParamData::any(sample), path }
    }

    /// Returns an event type to sync the `volume` parameter.
    pub fn sync_volume_event<E>(&self) -> (event: NodeEventType<E>)
        ensures
            event matches NodeEventType::Param { data, path } && data == ParamData::<E>::Volume(
                self.volume,
            ) && path@ == seq![1u32],
    {
        let path = ParamPath::Single(1);
        assert(path@ =~= seq![1u32]);
        NodeEventType::Param { data: ParamData::Volume(self.volume), path }
    }

    /// Returns an event type to sync the `playback` parameter. `wrap` makes event
    /// data of it.
    pub fn sync_playback_event<E, F: Fn(PlaybackState, u64) -> E>(&self, wrap: &F) -> (event:
        NodeEventType<E>)
        requires
            call_requires(*wrap, (self.playback.spec_value(), self.playback.spec_id())),
        ensures
            event matches NodeEventType::Param { data, path } && data matches ParamData::Any(e)
                && call_ensures(*wrap, (self.playback.spec_value(), self.playback.spec_id()), e)
                && path@ == seq![2u32],
    {
        let path = ParamPath::Single(2);
        assert(path@ =~= seq![2u32]);
        let data = wrap(*self.playback.get(), self.playback.id());
        NodeEventType::Param { data: ParamData::any(data), path }
    }

    /// Returns an event type to sync the `repeat_mode` parameter. `wrap` makes event
    /// data of it.
    pub fn sync_repeat_mode_event<E, F: Fn(RepeatMode) -> E>(&self, wrap: &F) -> (event:
        NodeEventType<E>)
        requires
            call_requires(*wrap, (self.repeat_mode,)),
        ensures
            event matches NodeEventType::Param { data, path } && data matches ParamData::Any(e)
                && call_ensures(*wrap, (self.repeat_mode,), e) && path@ == seq![3u32],
    {
        let path = ParamPath::Single(3);
        assert(path@ =~= seq![3u32]);
        NodeEventType::Param { data: ParamData::any(wrap(self.repeat_mode)), path }
    }

    /// Returns an event type to sync the `speed` parameter.
    pub fn sync_speed_event<E>(&self) -> (event: NodeEventType<E>)
        ensures
            event matches NodeEventType::Param { data, path } && data == ParamData::<E>::F64(
                self.speed,
            ) && path@ == seq![4u32],
    {
        let path = ParamPath::Single(4);
        assert(path@ =~= seq![4u32]);
        NodeEventType::Param { data: ParamData::F64(self.speed), path }
    }

    /// Play the sample in this node.
    ///
    /// If a sample is already playing, then it will restart from the given playhead.
    ///
    /// * `playhead` - The playhead to start playing from. If this is `None`, then
    /// the sample will start from the beginning.
    pub fn start_or_restart(&mut self, playhead: Option<Playhead>, id: u64)
        ensures
            final(self).playback.spec_value() == (PlaybackState::Play {
                playhead: Some(
                    match playhead {
                        Some(p) => p,
                        None => Playhead::Frames(0),
                    },
                ),
            }),
            final(self).playback.spec_id() == id,
            *final(self) == (SamplerNode { playback: final(self).playback, ..*old(self) }),
    {
        let playhead = match playhead {
            Some(p) => p,
            None => Playhead::default(),
        };
        self.playback.set(PlaybackState::Play { playhead: Some(playhead) }, id);
    }

    /// Pause sample playback.
    pub fn pause(&mut self, id: u64)
        ensures
            final(self).playback.spec_value() == PlaybackState::Pause,
            final(self).playback.spec_id() == id,
            *final(self) == (SamplerNode { playback: final(self).playback, ..*old(self) }),
    {
        self.playback.set(PlaybackState::Pause, id);
    }

    /// Start/resume sample playback.
    pub fn resume(&mut self, id: u64)
        ensures
            final(self).playback.spec_value() == (PlaybackState::Play { playhead: None }),
            final(self).playback.spec_id() == id,
            *final(self) == (SamplerNode { playback: final(self).playback, ..*old(self) }),
    {
        self.playback.set(PlaybackState::resume(), id);
    }

    /// Stop sample playback.
    ///
    /// Calling [`SamplerNode::resume`] after this will restart the sample from
    /// the beginning.
    pub fn stop(&mut self, id: u64)
        ensures
            final(self).playback.spec_value() == PlaybackState::Stop,
            final(self).playback.spec_id() == id,
            *final(self) == (SamplerNode { playback: final(self).playback, ..*old(self) }),
    {
        self.playback.set(PlaybackState::Stop, id);
    }
}

impl<S> AudioNode for SamplerNode<S> {
    type Configuration = SamplerConfig;

    fn info(&self, config: &SamplerConfig) -> (info: AudioNodeInfo)
        ensures
            info.debug_name@ == "sampler"@,
            info.channel_config.inputs() == 0,
            info.channel_config.outputs() == config.channels.spec_get(),
            !info.call_update_method,
    {
        AudioNodeInfo::new(
            "sampler",
            ChannelConfig { num_inputs: ChannelCount::zero(), num_outputs: config.channels.get() },
        )
    }
}

} // verus!
