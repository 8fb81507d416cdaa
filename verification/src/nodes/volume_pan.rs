//! The rules of the volume and panning node.

use crate::channel_config::{ChannelConfig, ChannelCount};
use crate::mask::SilenceMask;
use crate::node::{AudioNodeInfo, ProcessStatus};
use vstd::prelude::*;

verus! {

/// The information about a volume and panning node, which is stereo.
pub fn volume_pan_info() -> (info: AudioNodeInfo)
    ensures
        info.debug_name@ == "volume_pan"@,
        info.channel_config.inputs() == 2,
        info.channel_config.outputs() == 2,
        !info.call_update_method,
{
    AudioNodeInfo::new(
        "volume_pan",
        ChannelConfig { num_inputs: ChannelCount::stereo(), num_outputs: ChannelCount::stereo() },
    )
}

/// What the node does in a block.
#[derive(Debug, Clone, Copy, PartialEq, Eq, Structural)]
pub enum GainStep {
    /// The inputs are silent: the gains jump to their targets.
    Silence,
    /// The gains are zero: they jump to their targets.
    Mute,
    /// The inputs are multiplied with the gains, which are settled.
    Apply,
    /// The inputs are multiplied with the gains as they are smoothed.
    Smooth,
}

/// What a node remembers from one block to the next.
#[derive(Debug, Clone, Copy, PartialEq, Eq, Structural)]
pub struct VolumePanProcessor {
    prev_block_was_silent: bool,
}

impl VolumePanProcessor {
    /// Whether the last block was silent.
    pub closed spec fn was_silent(self) -> bool {
        self.prev_block_was_silent
    }

    /// A node that has not processed anything yet.
    pub fn new() -> (processor: Self)
        ensures
            processor.was_silent(),
    {
        VolumePanProcessor { prev_block_was_silent: true }
    }

    /// Whether gains that were changed jump to their targets: if the last block was
    /// silent, there is no need to smooth.
    pub fn skips_smoothing(&self) -> (skips: bool)
        ensures
            skips == self.was_silent(),
    {
        self.prev_block_was_silent
    }

    /// What the node does in a block, given whether a gain is being smoothed and
    /// whether both gains are to be zero.
    pub fn step(&mut self, in_silence_mask: SilenceMask, smoothing: bool, zero: bool) -> (step:
        GainStep)
        ensures
            ({
                let silent = in_silence_mask.silent(0) && in_silence_mask.silent(1);
                &&& step == (if silent {
                    GainStep::Silence
                } else if smoothing {
                    GainStep::Smooth
                } else if zero {
                    GainStep::Mute
                } else {
                    GainStep::Apply
                })
                &&& final(self).was_silent() == (step is Silence || step is Mute)
            }),
    {
        self.prev_block_was_silent = false;
        if in_silence_mask.all_channels_silent(2) {
            assert(in_silence_mask.silent(0) && in_silence_mask.silent(1));
            self.prev_block_was_silent = true;
            return GainStep::Silence;
        }
        if smoothing {
            GainStep::Smooth
        } else if zero {
            self.prev_block_was_silent = true;
            GainStep::Mute
        } else {
            GainStep::Apply
        }
    }
}

/// The status of a block.
pub fn gain_status(step: GainStep, in_silence_mask: SilenceMask) -> (status: ProcessStatus)
    ensures
        match step {
            GainStep::Silence | GainStep::Mute => status == ProcessStatus::ClearAllOutputs,
            GainStep::Apply => status == (ProcessStatus::OutputsModified {
                out_silence_mask: in_silence_mask,
            }),
            GainStep::Smooth => status is OutputsModified && forall|ch: int|
                0 <= ch < 64 ==> !#[trigger] status->out_silence_mask.silent(ch),
        },
{
    match step {
        GainStep::Silence => ProcessStatus::ClearAllOutputs,
        GainStep::Mute => ProcessStatus::ClearAllOutputs,
        GainStep::Apply => ProcessStatus::OutputsModified { out_silence_mask: in_silence_mask },
        GainStep::Smooth => ProcessStatus::OutputsModified {
            out_silence_mask: SilenceMask::none_silent(),
        },
    }
}

/// The outputs are to be cleared if the gain is none, or there is no input. They are as silent
/// as the inputs under a gain that does not change, and not silent while it does.
pub proof fn law_gain_decides_what_is_silent(
    step: GainStep,
    in_silence_mask: SilenceMask,
    status: ProcessStatus,
    ch: int,
)
    requires
        call_ensures(gain_status, (step, in_silence_mask), status),
        0 <= ch < 64,
    ensures
        status is ClearAllOutputs <==> step is Silence || step is Mute,
        status !is Bypass,
        step is Apply ==> (status->out_silence_mask.silent(ch) <==> in_silence_mask.silent(ch)),
        step is Smooth ==> !status->out_silence_mask.silent(ch),
{
}

} // verus!
