//! A node that calculates the peak of each of its inputs.

use crate::channel_config::{ChannelConfig, ChannelCount};
use crate::node::AudioNodeInfo;
use vstd::prelude::*;

verus! {

/// A node that calculates the peak amplitude of a signal, and then sends that
/// value to its state.
#[derive(Debug, Clone, Copy)]
pub struct PeakMeterNode<const NUM_CHANNELS: usize> {
    pub enabled: bool,
}

impl<const NUM_CHANNELS: usize> PeakMeterNode<NUM_CHANNELS> {
    /// The information about the node, which has as many inputs as outputs.
    pub fn info(&self) -> (info: AudioNodeInfo)
        requires
            0 < NUM_CHANNELS <= 64,
        ensures
            info.debug_name@ == "peak_meter"@,
            info.channel_config.inputs() == NUM_CHANNELS,
            info.channel_config.outputs() == NUM_CHANNELS,
            !info.call_update_method,
    {
        let channels = match ChannelCount::new(NUM_CHANNELS as u32) {
            Some(channels) => channels,
            None => ChannelCount::zero(),
        };
        AudioNodeInfo::new(
            "peak_meter",
            ChannelConfig { num_inputs: channels, num_outputs: channels },
        )
    }
}

/// What becomes of the peak of a channel in a block.
#[derive(Debug, Clone, Copy, PartialEq, Eq, Structural)]
pub enum PeakUpdate {
    /// It stays as it is.
    Keep,
    /// It is set to zero.
    Zero,
    /// It is set to the largest amplitude of the input.
    Measure,
}

/// What becomes of the peak of a channel in a block, given whether the meter was and
/// is enabled and whether the input is known to be silent. A disabled meter shows
/// silence.
pub fn peak_update(was_enabled: bool, enabled: bool, in_silent: bool) -> (update: PeakUpdate)
    ensures
        update == (if enabled {
            if in_silent {
                PeakUpdate::Zero
            } else {
                PeakUpdate::Measure
            }
        } else if was_enabled {
            PeakUpdate::Zero
        } else {
            PeakUpdate::Keep
        }),
{
    if was_enabled && !enabled {
        return PeakUpdate::Zero;
    }
    if !enabled {
        return PeakUpdate::Keep;
    }
    if in_silent {
        PeakUpdate::Zero
    } else {
        PeakUpdate::Measure
    }
}

/// Whether a channel of a peak meter has clipped. The value holds for a number of
/// frames before it is reset to `false`.
#[derive(Debug, Clone, Copy, PartialEq, Eq, Structural)]
pub struct ClipHold {
    clipped_frames_left: usize,
    clip_hold_frames: usize,
}

impl ClipHold {
    /// The number of frames for which the value still holds.
    pub closed spec fn frames_left(self) -> int {
        self.clipped_frames_left as int
    }

    /// The number of frames for which the value holds.
    pub closed spec fn hold_frames(self) -> int {
        self.clip_hold_frames as int
    }

    /// Well-formedness: the value does not hold for longer than it should.
    pub open spec fn wf(self) -> bool {
        self.frames_left() <= self.hold_frames() && self.hold_frames() > 0
    }

    /// A channel that has not clipped.
    pub fn new(clip_hold_frames: usize) -> (hold: Self)
        requires
            clip_hold_frames > 0,
        ensures
            hold.wf(),
            hold.frames_left() == 0,
            hold.hold_frames() == clip_hold_frames,
    {
        ClipHold { clipped_frames_left: 0, clip_hold_frames }
    }

    /// The channel has not clipped.
    pub fn reset(&mut self)
        ensures
            final(self).frames_left() == 0,
            final(self).frames_left() == old(self).left_then(
                old(self).frames_left(),
                MeterEvent::Reset,
            ),
            final(self).hold_frames() == old(self).hold_frames(),
    {
        self.clipped_frames_left = 0;
    }

    /// The peak of the input is at least the one that is shown; it clips if it is
    /// above zero decibels.
    pub fn on_peak(&mut self, clips: bool)
        ensures
            final(self).hold_frames() == old(self).hold_frames(),
            final(self).frames_left() == (if clips {
                old(self).hold_frames()
            } else {
                old(self).frames_left()
            }),
            final(self).frames_left() == old(self).left_then(
                old(self).frames_left(),
                MeterEvent::Peak { clips },
            ),
    {
        if clips {
            self.clipped_frames_left = self.clip_hold_frames;
        }
    }

    /// A frame has passed, after which the peak that is shown clips or not.
    pub fn on_frame(&mut self, clips: bool)
        ensures
            final(self).hold_frames() == old(self).hold_frames(),
            final(self).frames_left() == (if clips {
                old(self).hold_frames()
            } else if old(self).frames_left() > 0 {
                old(self).frames_left() - 1
            } else {
                0
            }),
            final(self).frames_left() == old(self).left_then(
                old(self).frames_left(),
                MeterEvent::Frame { clips },
            ),
    {
        if clips {
            self.clipped_frames_left = self.clip_hold_frames;
        } else if self.clipped_frames_left > 0 {
            self.clipped_frames_left = self.clipped_frames_left - 1;
        }
    }

    /// Whether the channel has clipped.
    pub fn has_clipped(&self) -> (clipped: bool)
        ensures
            clipped == (self.frames_left() > 0),
    {
        self.clipped_frames_left > 0
    }
}

/// What happens to a channel of a peak meter.
#[derive(Debug, Clone, Copy, PartialEq, Eq, Structural)]
pub enum MeterEvent {
    /// It is reset.
    Reset,
    /// The peak of the input is at least the one that is shown, and clips or not.
    Peak { clips: bool },
    /// A frame has passed, after which the peak that is shown clips or not.
    Frame { clips: bool },
}

impl MeterEvent {
    /// Whether the peak that is shown clips after this.
    pub open spec fn is_clip(self) -> bool {
        self == (MeterEvent::Peak { clips: true }) || self == (MeterEvent::Frame { clips: true })
    }
}

impl ClipHold {
    /// The number of frames for which the value still holds after an event.
    pub open spec fn left_then(self, frames_left: int, event: MeterEvent) -> int {
        match event {
            MeterEvent::Reset => 0,
            MeterEvent::Peak { clips } => if clips {
                self.hold_frames()
            } else {
                frames_left
            },
            MeterEvent::Frame { clips } => if clips {
                self.hold_frames()
            } else if frames_left > 0 {
                frames_left - 1
            } else {
                0
            },
        }
    }

    /// The number of frames for which the value still holds after some events, if it has
    /// not clipped before them.
    pub open spec fn left_at(self, events: Seq<MeterEvent>) -> int
        decreases events.len(),
    {
        if events.len() == 0 {
            0
        } else {
            self.left_then(self.left_at(events.drop_last()), events.last())
        }
    }
}

/// The number of frames that have passed in some events.
pub open spec fn num_frames(events: Seq<MeterEvent>) -> int
    decreases events.len(),
{
    if events.len() == 0 {
        0
    } else {
        num_frames(events.drop_last()) + if events.last() is Frame {
            1int
        } else {
            0
        }
    }
}

/// Whatever has happened to a channel, it is shown as clipped while the peak that is shown
/// clips.
pub proof fn law_shown_clip_has_clipped(hold: ClipHold, events: Seq<MeterEvent>)
    requires
        hold.wf(),
        events.len() > 0,
        events.last().is_clip(),
    ensures
        hold.left_at(events) > 0,
{
}

/// Whatever has happened to a channel, it is not shown as clipped any more once the number
/// of frames to hold the value has passed without a clip.
pub proof fn law_clip_is_over(hold: ClipHold, events: Seq<MeterEvent>, quiet: Seq<MeterEvent>)
    requires
        hold.wf(),
        forall|i: int| 0 <= i < quiet.len() ==> !(#[trigger] quiet[i]).is_clip(),
        num_frames(quiet) >= hold.hold_frames(),
    ensures
        hold.left_at(events + quiet) == 0,
{
    lemma_left_at(hold, events);
    lemma_quiet(hold, events, quiet);
}

/// The value never holds for longer than it should.
proof fn lemma_left_at(hold: ClipHold, events: Seq<MeterEvent>)
    requires
        hold.wf(),
    ensures
        0 <= hold.left_at(events) <= hold.hold_frames(),
    decreases events.len(),
{
    if events.len() > 0 {
        lemma_left_at(hold, events.drop_last());
    }
}

proof fn lemma_quiet(hold: ClipHold, events: Seq<MeterEvent>, quiet: Seq<MeterEvent>)
    requires
        hold.wf(),
        0 <= hold.left_at(events) <= hold.hold_frames(),
        forall|i: int| 0 <= i < quiet.len() ==> !(#[trigger] quiet[i]).is_clip(),
    ensures
        0 <= hold.left_at(events + quiet),
        hold.left_at(events + quiet) == 0 || hold.left_at(events + quiet) <= hold.hold_frames()
            - num_frames(quiet),
    decreases quiet.len(),
{
    if quiet.len() == 0 {
        assert(events + quiet =~= events);
    } else {
        let rest = quiet.drop_last();
        assert forall|i: int| 0 <= i < rest.len() implies !(#[trigger] rest[i]).is_clip() by {
            assert(rest[i] == quiet[i]);
        }
        lemma_quiet(hold, events, rest);
        assert((events + quiet).drop_last() =~= events + rest);
        assert((events + quiet).last() == quiet[quiet.len() - 1]);
    }
}

/// The number of frames for which a value still holds after `n` frames without a
/// clip.
pub open spec fn left_after(frames_left: int, n: nat) -> int
    decreases n,
{
    if n == 0 {
        frames_left
    } else if left_after(frames_left, (n - 1) as nat) > 0 {
        left_after(frames_left, (n - 1) as nat) - 1
    } else {
        0
    }
}

/// After a clip, the channel is shown as clipped for exactly the number of frames to
/// hold the value.
pub proof fn law_clip_holds(hold: ClipHold, n: nat)
    requires
        hold.wf(),
    ensures
        left_after(hold.hold_frames(), n) > 0 <==> n < hold.hold_frames(),
{
    lemma_left_after(hold.hold_frames(), n);
}

proof fn lemma_left_after(frames_left: int, n: nat)
    requires
        frames_left >= 0,
    ensures
        left_after(frames_left, n) == if n < frames_left {
            frames_left - n
        } else {
            0
        },
    decreases n,
{
    if n > 0 {
        lemma_left_after(frames_left, (n - 1) as nat);
    }
}

/// A peak is measured while the meter is enabled and there is something to measure. It is zero
/// while the input is silent, and once the meter is disabled, and stays so.
pub proof fn law_peak_is_measured_while_enabled(
    was_enabled: bool,
    enabled: bool,
    in_silent: bool,
    update: PeakUpdate,
)
    requires
        call_ensures(peak_update, (was_enabled, enabled, in_silent), update),
    ensures
        update is Measure <==> enabled && !in_silent,
        update is Keep <==> !enabled && !was_enabled,
        update is Zero <==> (enabled && in_silent) || (!enabled && was_enabled),
{
}

} // verus!
