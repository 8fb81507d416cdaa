//! The time of the audio clock, as the main thread sees it.

use crate::channel::{shared, SharedInput, SharedOutput};
use crate::clock::{DurationSamples, InstantMusical, InstantSamples, InstantSeconds};
use vstd::prelude::*;

verus! {

/// The state of the clock that the audio thread publishes. `I` is an instant of
/// the audio backend.
#[derive(Clone)]
pub struct SharedClock<I> {
    /// The time of the next frame.
    pub clock_samples: InstantSamples,
    /// The time of the musical transport, if there is one.
    pub current_playhead: Option<InstantMusical>,
    /// The speed of the musical transport, as the bits of a 64-bit floating point
    /// number.
    pub speed_multiplier: u64,
    /// Whether the musical transport is playing.
    pub transport_is_playing: bool,
    /// When the audio thread was last called.
    pub process_timestamp: Option<I>,
}

impl<I> Default for SharedClock<I> {
    fn default() -> (clock: Self)
        ensures
            clock == (SharedClock::<I> {
                clock_samples: InstantSamples(0),
                current_playhead: None,
                speed_multiplier: 0x3FF0_0000_0000_0000,
                transport_is_playing: false,
                process_timestamp: None,
            }),
    {
        SharedClock {
            clock_samples: InstantSamples(0),
            current_playhead: None,
            speed_multiplier: 0x3FF0_0000_0000_0000,
            transport_is_playing: false,
            process_timestamp: None,
        }
    }
}

/// The time of the audio clock. `J` is an instant of the system.
pub struct AudioClock<J> {
    /// The time in samples.
    pub samples: InstantSamples,
    /// The time in seconds.
    pub seconds: InstantSeconds,
    /// The time of the musical transport, if there is one.
    pub musical: Option<InstantMusical>,
    /// Whether the musical transport is playing.
    pub transport_is_playing: bool,
    /// The instant the audio clock was last updated, if it is known.
    pub update_instant: Option<J>,
}

/// What a shared clock says, without accounting for a delay.
pub open spec fn clock_as_is<I, J, F: Fn(InstantSamples) -> InstantSeconds>(
    clock: SharedClock<I>,
    update_instant: Option<J>,
    to_seconds: F,
    result: AudioClock<J>,
) -> bool {
    &&& result.samples == clock.clock_samples
    &&& call_ensures(to_seconds, (result.samples,), result.seconds)
    &&& result.musical == clock.current_playhead
    &&& result.transport_is_playing == clock.transport_is_playing
    &&& result.update_instant == update_instant
}

/// What a shared clock says once the delay since its last update is accounted
/// for. The time of the musical transport advances if it is playing and there is
/// a transport. If the delay is not known, there is assumed to be none.
pub open spec fn clock_corrected<
    I,
    J,
    F: Fn(InstantSamples) -> InstantSeconds,
    G: Fn(InstantMusical) -> InstantMusical,
>(
    clock: SharedClock<I>,
    update: Option<(J, DurationSamples)>,
    to_seconds: F,
    transport: Option<&G>,
    result: AudioClock<J>,
) -> bool {
    match update {
        Some((update_instant, delay)) => {
            &&& result.samples.0 == clock.clock_samples.0 + delay.0
            &&& call_ensures(to_seconds, (result.samples,), result.seconds)
            &&& match (clock.current_playhead, transport) {
                (Some(playhead), Some(advance)) if clock.transport_is_playing => {
                    result.musical matches Some(m) && call_ensures(*advance, (playhead,), m)
                },
                _ => result.musical == clock.current_playhead,
            }
            &&& result.transport_is_playing == clock.transport_is_playing
            &&& result.update_instant == Some(update_instant)
        },
        None => clock_as_is(clock, None, to_seconds, result),
    }
}

impl<I> SharedClock<I> {
    /// The time of the clock, without accounting for the delay between when it was
    /// last updated and now.
    pub fn audio_clock<J, F: Fn(InstantSamples) -> InstantSeconds>(
        &self,
        update_instant: Option<J>,
        to_seconds: &F,
    ) -> (result: AudioClock<J>)
        requires
            call_requires(*to_seconds, (self.clock_samples,)),
        ensures
            clock_as_is(*self, update_instant, *to_seconds, result),
            result.transport_is_playing == self.transport_is_playing,
    {
        AudioClock {
            samples: self.clock_samples,
            seconds: to_seconds(self.clock_samples),
            musical: self.current_playhead,
            transport_is_playing: self.transport_is_playing,
            update_instant,
        }
    }

    /// The time of the clock. `update` is the instant at which it was last updated
    /// and how many samples have passed since then; `transport` advances the time of
    /// the musical transport by as much.
    pub fn audio_clock_corrected<
        J,
        F: Fn(InstantSamples) -> InstantSeconds,
        G: Fn(InstantMusical) -> InstantMusical,
    >(
        &self,
        update: Option<(J, DurationSamples)>,
        to_seconds: &F,
        transport: Option<&G>,
    ) -> (result: AudioClock<J>)
        requires
            forall|t: InstantSamples| #[trigger] call_requires(*to_seconds, (t,)),
            transport matches Some(advance) ==> forall|m: InstantMusical| #[trigger]
                call_requires(*advance, (m,)),
            update matches Some((_, delay)) ==> i64::MIN <= self.clock_samples.0 + delay.0
                <= i64::MAX,
        ensures
            clock_corrected(*self, update, *to_seconds, transport, result),
            result.transport_is_playing == self.transport_is_playing,
    {
        let (update_instant, delay) = match update {
            Some(update) => update,
            None => {
                // The audio thread is not currently running, so just return the
                // latest value of the clock.
                return self.audio_clock(None, to_seconds);
            },
        };

        // Account for the delay between when the clock was last updated and now.
        let samples = InstantSamples(self.clock_samples.0 + delay.0);
        let musical = match self.current_playhead {
            Some(musical_time) => {
                match transport {
                    Some(advance) => {
                        if self.transport_is_playing {
                            Some(advance(musical_time))
                        } else {
                            Some(musical_time)
                        }
                    },
                    None => Some(musical_time),
                }
            },
            None => None,
        };
        AudioClock {
            samples,
            seconds: to_seconds(samples),
            musical,
            transport_is_playing: self.transport_is_playing,
            update_instant: Some(update_instant),
        }
    }
}

/// Where the delay is not known, none is assumed: the corrected clock is the clock as it
/// is, as long as the conversion to seconds always gives the same result.
pub proof fn law_unknown_delay_is_no_delay<
    I,
    J,
    F: Fn(InstantSamples) -> InstantSeconds,
    G: Fn(InstantMusical) -> InstantMusical,
>(
    clock: SharedClock<I>,
    update_instant: Option<J>,
    to_seconds: F,
    transport: Option<&G>,
    plain: AudioClock<J>,
    corrected: AudioClock<J>,
)
    requires
        forall|t: InstantSamples, s1: InstantSeconds, s2: InstantSeconds| #[trigger]
            call_ensures(to_seconds, (t,), s1) && #[trigger] call_ensures(to_seconds, (t,), s2)
                ==> s1 == s2,
        clock_as_is(clock, update_instant, to_seconds, plain),
        clock_corrected(clock, None::<(J, DurationSamples)>, to_seconds, transport, corrected),
    ensures
        corrected == (AudioClock { update_instant: None, ..plain }),
{
}

/// The clock as it is has the time and the playhead that the audio thread has published, and
/// its transport plays if that of the audio thread does.
pub proof fn law_clock_is_what_was_published<I, J, F: Fn(InstantSamples) -> InstantSeconds>(
    clock: SharedClock<I>,
    update_instant: Option<J>,
    to_seconds: F,
    result: AudioClock<J>,
)
    requires
        clock_as_is(clock, update_instant, to_seconds, result),
    ensures
        result.samples == clock.clock_samples,
        call_ensures(to_seconds, (clock.clock_samples,), result.seconds),
        result.musical == clock.current_playhead,
        result.transport_is_playing == clock.transport_is_playing,
        result.update_instant == update_instant,
{
}

/// A correction moves the time of the clock, and nothing else: whatever the delay and
/// whatever the transport, the transport plays if that of the audio thread does. The time is
/// later by the delay, and the playhead is advanced only where the transport plays and the
/// way to advance it is known.
pub proof fn law_correction_moves_the_time_only<
    I,
    J,
    F: Fn(InstantSamples) -> InstantSeconds,
    G: Fn(InstantMusical) -> InstantMusical,
>(
    clock: SharedClock<I>,
    update: Option<(J, DurationSamples)>,
    to_seconds: F,
    transport: Option<&G>,
    result: AudioClock<J>,
)
    requires
        clock_corrected(clock, update, to_seconds, transport, result),
    ensures
        result.transport_is_playing == clock.transport_is_playing,
        result.samples.0 - clock.clock_samples.0 == match update {
            Some((_, delay)) => delay.0 as int,
            None => 0,
        },
        call_ensures(to_seconds, (result.samples,), result.seconds),
        result.musical is Some <==> clock.current_playhead is Some,
        !clock.transport_is_playing || transport is None || update is None ==> result.musical
            == clock.current_playhead,
        clock.transport_is_playing && transport is Some && update is Some
            && clock.current_playhead is Some ==> call_ensures(
            *transport->0,
            (clock.current_playhead->0,),
            result.musical->0,
        ),
        result.update_instant is Some <==> update is Some,
        update is Some ==> result.update_instant == Some((update->0).0),
{
}

/// Corrections add up: two of one clock differ by as much as their delays do, and agree on
/// whether the transport plays and on whether there is a playhead.
pub proof fn law_corrections_differ_by_their_delays<
    I,
    J,
    F: Fn(InstantSamples) -> InstantSeconds,
    G: Fn(InstantMusical) -> InstantMusical,
>(
    clock: SharedClock<I>,
    instants: (J, J),
    first: DurationSamples,
    second: DurationSamples,
    to_seconds: F,
    transport: Option<&G>,
    earlier: AudioClock<J>,
    later: AudioClock<J>,
)
    requires
        clock_corrected(clock, Some((instants.0, first)), to_seconds, transport, earlier),
        clock_corrected(clock, Some((instants.1, second)), to_seconds, transport, later),
    ensures
        later.samples.0 - earlier.samples.0 == second.0 - first.0,
        earlier.transport_is_playing == later.transport_is_playing,
        earlier.musical is Some <==> later.musical is Some,
{
}

/// Reads the clock of the audio thread.
#[verifier::reject_recursive_types(I)]
pub struct ClockReader<I: Clone + Send> {
    output: SharedOutput<SharedClock<I>>,
}

impl<I: Clone + Send> View for ClockReader<I> {
    type V = Seq<SharedClock<I>>;

    /// The states that were read, in order.
    closed spec fn view(&self) -> Seq<SharedClock<I>> {
        self.output@
    }
}

/// The end to which the audio thread writes its clock, and the one that reads it.
pub fn shared_clock<I: Clone + Send>() -> (ends: (SharedInput<SharedClock<I>>, ClockReader<I>))
    ensures
        ends.0@ == Seq::<SharedClock<I>>::empty(),
        ends.1@ == Seq::<SharedClock<I>>::empty(),
{
    let clock: SharedClock<I> = SharedClock::default();
    let (input, output) = shared(&clock);
    (input, ClockReader { output })
}

impl<I: Clone + Send> ClockReader<I> {
    /// The state of the clock that the audio thread has published last.
    pub fn latest(&mut self) -> (clock: &SharedClock<I>)
        ensures
            final(self)@ == old(self)@.push(*clock),
    {
        self.output.read()
    }

    /// Get the current time of the audio clock, without accounting for the delay
    /// between when the clock was last updated and now.
    ///
    /// Note, due to the nature of audio processing, this clock is is *NOT* synced with
    /// the system's time. (Instead it is based on the amount of data that has been
    /// processed.)
    pub fn audio_clock<J, F: Fn(InstantSamples) -> InstantSeconds>(
        &mut self,
        update_instant: Option<J>,
        to_seconds: &F,
    ) -> (result: AudioClock<J>)
        requires
            forall|t: InstantSamples| #[trigger] call_requires(*to_seconds, (t,)),
        ensures
            final(self)@.len() == old(self)@.len() + 1,
            final(self)@.drop_last() == old(self)@,
            clock_as_is(final(self)@.last(), update_instant, *to_seconds, result),
    {
        let clock = self.output.read();
        let ghost clock0 = *clock;
        let result = clock.audio_clock(update_instant, to_seconds);
        assert(clock_as_is(clock0, update_instant, *to_seconds, result));
        assert(self@.drop_last() =~= old(self)@);
        result
    }
}

} // verus!
