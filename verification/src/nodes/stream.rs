//! Nodes that exchange audio with a stream outside of the graph.

pub mod reader;
pub mod writer;

use crate::channel_config::NonZeroChannelCount;
use vstd::prelude::*;

verus! {

/// The largest number of channels of a stream.
pub const MAX_CHANNELS: usize = 16;

/// The flags that a node and its stream share.
#[derive(Debug, Clone, Copy, PartialEq, Eq, Structural)]
pub struct StreamFlags {
    /// Whether there is an active stream.
    pub stream_active: bool,
    /// Whether the processor end of the stream has begun.
    pub channel_started: bool,
    /// Whether the stream is paused.
    pub paused: bool,
    /// Whether an underflow occurred.
    pub underflow_occurred: bool,
    /// Whether an overflow occurred.
    pub overflow_occurred: bool,
}

/// What came of exchanging audio with a stream.
#[derive(Debug, Clone, Copy, PartialEq, Eq, Structural)]
pub enum TransferStatus {
    /// Everything went well, or the other end is not ready.
    Done,
    /// There was too little audio.
    Underflow,
    /// There was too much audio.
    Overflow,
}

impl StreamFlags {
    /// The flags without a stream.
    pub fn new() -> (flags: Self)
        ensures
            flags == (StreamFlags {
                stream_active: false,
                channel_started: false,
                paused: false,
                underflow_occurred: false,
                overflow_occurred: false,
            }),
    {
        StreamFlags {
            stream_active: false,
            channel_started: false,
            paused: false,
            underflow_occurred: false,
            overflow_occurred: false,
        }
    }

    /// The flags when a stream has just started.
    pub fn started() -> (flags: Self)
        ensures
            flags == (StreamFlags {
                stream_active: true,
                channel_started: false,
                paused: false,
                underflow_occurred: false,
                overflow_occurred: false,
            }),
    {
        StreamFlags {
            stream_active: true,
            channel_started: false,
            paused: false,
            underflow_occurred: false,
            overflow_occurred: false,
        }
    }

    /// Whether the processor exchanges audio: there is an active stream that is not
    /// paused.
    pub fn enabled(&self) -> (enabled: bool)
        ensures
            enabled == (self.stream_active && !self.paused),
    {
        self.stream_active && !self.paused
    }

    /// The processor end has begun.
    pub fn channel_started(&mut self)
        ensures
            *final(self) == (StreamFlags { channel_started: true, ..*old(self) }),
    {
        self.channel_started = true;
    }

    /// The processor has exchanged audio.
    pub fn transferred(&mut self, status: TransferStatus)
        ensures
            *final(self) == (StreamFlags {
                underflow_occurred: old(self).underflow_occurred || status is Underflow,
                overflow_occurred: old(self).overflow_occurred || status is Overflow,
                ..*old(self)
            }),
    {
        match status {
            TransferStatus::Underflow => {
                self.underflow_occurred = true;
            },
            TransferStatus::Overflow => {
                self.overflow_occurred = true;
            },
            TransferStatus::Done => {},
        }
    }

    /// The audio stream of the graph has stopped.
    pub fn stream_stopped(&mut self)
        ensures
            *final(self) == (StreamFlags { stream_active: false, ..*old(self) }),
    {
        self.stream_active = false;
    }

    /// Returns `true` if an underflow occured (due to the output stream
    /// running faster than the input stream).
    ///
    /// (Calling this will also reset the flag indicating whether an
    /// underflow occurred.)
    pub fn underflow_occurred(&mut self) -> (occurred: bool)
        ensures
            occurred == old(self).underflow_occurred,
            *final(self) == (StreamFlags { underflow_occurred: false, ..*old(self) }),
    {
        let occurred = self.underflow_occurred;
        self.underflow_occurred = false;
        occurred
    }

    /// Returns `true` if an overflow occured (due to the input stream
    /// running faster than the output stream).
    ///
    /// (Calling this will also reset the flag indicating whether an
    /// overflow occurred.)
    pub fn overflow_occurred(&mut self) -> (occurred: bool)
        ensures
            occurred == old(self).overflow_occurred,
            *final(self) == (StreamFlags { overflow_occurred: false, ..*old(self) }),
    {
        let occurred = self.overflow_occurred;
        self.overflow_occurred = false;
        occurred
    }
}

/// The main thread's end of a stream. `C` is what exchanges the audio.
pub struct StreamState<C> {
    channels: NonZeroChannelCount,
    active_state: Option<(C, u32)>,
}

impl<C> StreamState<C> {
    /// The number of channels.
    pub closed spec fn spec_channels(&self) -> NonZeroChannelCount {
        self.channels
    }

    /// What exchanges the audio, and the sample rate, if there is a stream.
    pub closed spec fn stream(&self) -> Option<(C, u32)> {
        self.active_state
    }

    /// Whether there is an active stream.
    pub open spec fn active(&self, flags: StreamFlags) -> bool {
        self.stream() is Some && flags.stream_active
    }

    /// Whether there is an active stream that is not paused, and the processor end is
    /// ready.
    pub open spec fn ready(&self, flags: StreamFlags) -> bool {
        self.active(flags) && flags.channel_started && !flags.paused
    }

    /// No stream.
    pub fn new(channels: NonZeroChannelCount) -> (state: Self)
        ensures
            state.spec_channels() == channels,
            state.stream() is None,
    {
        StreamState { channels, active_state: None }
    }

    /// Returns `true` if there is there is currently an active stream on this node.
    pub fn is_active(&self, flags: &StreamFlags) -> (active: bool)
        ensures
            active == self.active(*flags),
            active == (self.stream() is Some && flags.stream_active),
    {
        self.active_state.is_some() && flags.stream_active
    }

    /// Returns `true` if the processor end of the stream is ready to start sending
    /// or receiving data.
    pub fn is_ready(&self, flags: &StreamFlags) -> (ready: bool)
        ensures
            ready == self.ready(*flags),
            ready == (self.stream() is Some && flags.stream_active && flags.channel_started
                && !flags.paused),
    {
        self.is_active(flags) && flags.channel_started && !flags.paused
    }

    /// The number of channels in this node.
    pub fn num_channels(&self) -> (channels: NonZeroChannelCount)
        ensures
            channels == self.spec_channels(),
    {
        self.channels
    }

    /// The sample rate of the active stream.
    ///
    /// Returns `None` if there is no active stream.
    pub fn sample_rate(&self, flags: &StreamFlags) -> (rate: Option<u32>)
        ensures
            rate == (if self.active(*flags) {
                Some((self.stream()->0).1)
            } else {
                None
            }),
            rate is Some <==> self.stream() is Some && flags.stream_active,
    {
        match &self.active_state {
            Some(s) => if flags.stream_active {
                Some(s.1)
            } else {
                None
            },
            None => None,
        }
    }

    /// What exchanges the audio, if the processor end is ready. If it is not, there
    /// is nothing to exchange.
    pub fn ready_stream(&self, flags: &StreamFlags) -> (stream: Option<&C>)
        ensures
            stream is Some <==> self.ready(*flags),
            stream matches Some(c) ==> self.stream() matches Some(s) && *c == s.0,
    {
        if self.is_ready(flags) {
            self.active_stream(flags)
        } else {
            None
        }
    }

    /// What exchanges the audio, if there is an active stream.
    pub fn active_stream(&self, flags: &StreamFlags) -> (stream: Option<&C>)
        ensures
            stream is Some <==> self.active(*flags),
            stream matches Some(c) ==> self.stream() matches Some(s) && *c == s.0,
    {
        match &self.active_state {
            Some(s) => if flags.stream_active {
                Some(&s.0)
            } else {
                None
            },
            None => None,
        }
    }

    /// Begin the audio stream on this node.
    ///
    /// If there is already an active stream running on this node, then this will return
    /// an error, with the new stream handed back.
    pub fn start_stream(&mut self, flags: &mut StreamFlags, stream: C, sample_rate: u32) -> (result:
        Result<(), C>)
        ensures
            final(self).spec_channels() == old(self).spec_channels(),
            match result {
                Ok(_) => {
                    &&& !old(self).active(*old(flags))
                    &&& final(self).stream() == Some((stream, sample_rate))
                    &&& *final(flags) == (StreamFlags {
                        stream_active: true,
                        channel_started: false,
                        paused: false,
                        underflow_occurred: false,
                        overflow_occurred: false,
                    })
                },
                Err(c) => {
                    &&& old(self).active(*old(flags))
                    &&& c == stream
                    &&& final(self).stream() == old(self).stream()
                    &&& *final(flags) == *old(flags)
                },
            },
    {
        if self.is_active(flags) {
            return Err(stream);
        }
        *flags = StreamFlags::started();
        self.active_state = Some((stream, sample_rate));
        Ok(())
    }

    /// Pause any active audio streams.
    pub fn pause_stream(&self, flags: &mut StreamFlags)
        ensures
            *final(flags) == (if self.active(*old(flags)) {
                StreamFlags { paused: true, ..*old(flags) }
            } else {
                *old(flags)
            }),
    {
        if self.is_active(flags) {
            flags.paused = true;
        }
    }

    /// Resume any active audio streams after pausing.
    pub fn resume(&self, flags: &mut StreamFlags)
        ensures
            *final(flags) == (StreamFlags { paused: false, ..*old(flags) }),
    {
        flags.paused = false;
    }

    /// Stop any active audio streams.
    pub fn stop_stream(&mut self, flags: &mut StreamFlags)
        ensures
            final(self).spec_channels() == old(self).spec_channels(),
            final(self).stream() is None,
            *final(flags) == (StreamFlags {
                stream_active: false,
                channel_started: false,
                paused: false,
                underflow_occurred: false,
                overflow_occurred: false,
            }),
    {
        self.active_state = None;
        *flags = StreamFlags::new();
    }
}

/// A stream that is ready is active, its channel has started and it is not paused. One that
/// is active was started, and was not stopped since.
pub proof fn law_ready_stream_is_active<C>(state: StreamState<C>, flags: StreamFlags)
    ensures
        state.active(flags) <==> state.stream() is Some && flags.stream_active,
        state.ready(flags) <==> state.active(flags) && flags.channel_started && !flags.paused,
{
}

} // verus!
