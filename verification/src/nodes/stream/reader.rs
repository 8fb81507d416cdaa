//! A node that reads a stream of audio out of the graph.

use crate::channel_config::{ChannelConfig, ChannelCount, NonZeroChannelCount};
use crate::node::{AudioNode, AudioNodeInfo};
use crate::nodes::stream::{StreamFlags, StreamState, MAX_CHANNELS};
use vstd::prelude::*;

verus! {

/// The configuration of a [`StreamReaderNode`].
#[derive(Debug, Clone, Copy, PartialEq, Eq, Structural)]
pub struct StreamReaderConfig {
    /// The number of channels.
    pub channels: NonZeroChannelCount,
}

impl Default for StreamReaderConfig {
    fn default() -> (config: Self)
        ensures
            config.channels.spec_get() == 2,
    {
        StreamReaderConfig { channels: NonZeroChannelCount::stereo() }
    }
}

/// A node that reads a stream of audio out of the graph.
#[derive(Debug, Clone, Copy, PartialEq, Eq, Structural)]
pub struct StreamReaderNode;

impl AudioNode for StreamReaderNode {
    type Configuration = StreamReaderConfig;

    fn info(&self, config: &StreamReaderConfig) -> (info: AudioNodeInfo)
        ensures
            info.debug_name@ == "stream_reader"@,
            info.channel_config.inputs() == config.channels.spec_get(),
            info.channel_config.outputs() == 0,
            !info.call_update_method,
    {
        AudioNodeInfo::new(
            "stream_reader",
            ChannelConfig { num_inputs: config.channels.get(), num_outputs: ChannelCount::zero() },
        )
    }
}

/// The main thread's end of a stream that is read. It has fewer than
/// [`MAX_CHANNELS`] channels.
pub fn new_reader_state<C>(channels: NonZeroChannelCount) -> (state: StreamState<C>)
    requires
        channels.spec_get() < MAX_CHANNELS,
    ensures
        state.spec_channels() == channels,
        state.stream() is None,
{
    StreamState::new(channels)
}

/// Whether the processor of a reader sends the inputs of a block: if the stream is
/// active, not paused, and there is something to send them to. In any case the inputs
/// are handed on.
pub fn reader_step(flags: &mut StreamFlags, has_stream: bool) -> (send: bool)
    ensures
        send == (old(flags).stream_active && !old(flags).paused && has_stream),
        *final(flags) == (StreamFlags {
            channel_started: old(flags).channel_started || send,
            ..*old(flags)
        }),
{
    if !flags.enabled() || !has_stream {
        return false;
    }
    flags.channel_started();
    true
}

} // verus!
