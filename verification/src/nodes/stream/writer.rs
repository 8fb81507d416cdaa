//! A node that writes a stream of audio into the graph.

use crate::channel_config::{ChannelConfig, ChannelCount, NonZeroChannelCount};
use crate::mask::SilenceMask;
use crate::node::{AudioNode, AudioNodeInfo};
use crate::nodes::stream::StreamFlags;
use vstd::prelude::*;

verus! {

/// The configuration of a [`StreamWriterNode`].
#[derive(Debug, Clone, Copy, PartialEq, Eq, Structural)]
pub struct StreamWriterConfig {
    /// The number of channels.
    pub channels: NonZeroChannelCount,
    /// Whether or not to check for silence in the input stream. Highly
    /// recommened to set this to `true` to improve audio graph performance
    /// when there is no input on the microphone.
    ///
    /// By default this is set to `true`.
    pub check_for_silence: bool,
}

impl Default for StreamWriterConfig {
    fn default() -> (config: Self)
        ensures
            config.channels.spec_get() == 2,
            config.check_for_silence,
    {
        StreamWriterConfig { channels: NonZeroChannelCount::stereo(), check_for_silence: true }
    }
}

/// A node that writes a stream of audio into the graph.
#[derive(Debug, Clone, Copy, PartialEq, Eq, Structural)]
pub struct StreamWriterNode;

impl AudioNode for StreamWriterNode {
    type Configuration = StreamWriterConfig;

    fn info(&self, config: &StreamWriterConfig) -> (info: AudioNodeInfo)
        ensures
            info.debug_name@ == "stream_writer"@,
            info.channel_config.inputs() == 0,
            info.channel_config.outputs() == config.channels.spec_get(),
            !info.call_update_method,
    {
        AudioNodeInfo::new(
            "stream_writer",
            ChannelConfig { num_inputs: ChannelCount::zero(), num_outputs: config.channels.get() },
        )
    }
}

/// What the processor of a writer does in a block.
#[derive(Debug, Clone, Copy, PartialEq, Eq, Structural)]
pub enum WriterStep {
    /// The stream was faded out, or there is none: the outputs are cleared.
    Clear,
    /// There is nothing to read from: the fade is reset, and the outputs are cleared.
    ResetAndClear,
    /// The outputs are read from the stream.
    Read,
}

/// What the processor of a writer does in a block, given whether its fade is at
/// silence and whether there is something to read from.
pub fn writer_step(flags: &mut StreamFlags, faded_out: bool, has_stream: bool) -> (step: WriterStep)
    ensures
        step == (if faded_out {
            WriterStep::Clear
        } else if !has_stream {
            WriterStep::ResetAndClear
        } else {
            WriterStep::Read
        }),
        *final(flags) == (StreamFlags {
            channel_started: old(flags).channel_started || step is Read,
            ..*old(flags)
        }),
{
    if faded_out {
        return WriterStep::Clear;
    }
    if !has_stream {
        return WriterStep::ResetAndClear;
    }
    flags.channel_started();
    WriterStep::Read
}

/// Whether the first `frames` samples of a channel are all zero, as `is_zero` tells.
pub fn all_zero<S: Copy, F: Fn(S) -> bool>(channel: &[S], frames: usize, is_zero: &F) -> (zero:
    bool)
    requires
        frames <= channel@.len(),
        forall|s: S| #[trigger] call_requires(*is_zero, (s,)),
    ensures
        zero ==> forall|i: int|
            0 <= i < frames ==> call_ensures(*is_zero, (#[trigger] channel@[i],), true),
        !zero ==> exists|i: int|
            0 <= i < frames && call_ensures(*is_zero, (#[trigger] channel@[i],), false),
{
    let mut i: usize = 0;
    while i < frames
        invariant
            i <= frames <= channel@.len(),
            forall|s: S| #[trigger] call_requires(*is_zero, (s,)),
            forall|j: int|
                0 <= j < i ==> call_ensures(*is_zero, (#[trigger] channel@[j],), true),
        decreases frames - i,
    {
        if !is_zero(channel[i]) {
            assert(call_ensures(*is_zero, (channel@[i as int],), false));
            return false;
        }
        i += 1;
    }
    true
}

/// Marks an output channel as silent if that is checked and it is: if all that was
/// read is silent, or if there is no such channel in the stream.
pub fn mark_silence(
    mask: &mut SilenceMask,
    ch: usize,
    check_for_silence: bool,
    stream_channels: usize,
    all_zero: bool,
)
    requires
        ch < 64,
    ensures
        forall|j: int|
            0 <= j < 64 ==> #[trigger] final(mask).silent(j) == (if j == ch && check_for_silence && (
            ch >= stream_channels || all_zero) {
                true
            } else {
                old(mask).silent(j)
            }),
{
    if check_for_silence && (ch >= stream_channels || all_zero) {
        mask.set_channel(ch, true);
    }
}

} // verus!
