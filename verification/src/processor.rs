//! The logic of the audio thread.

pub mod block_laws;
pub mod clump_list;
pub mod event_laws;
pub mod event_scheduler;
pub mod inner;
pub mod laws;
pub mod poll;
pub mod process;
pub mod schedule_laws;
pub mod sub_chunks;

use crate::context::ClearScheduledEventsType;
use crate::node::NodeID;
use vstd::prelude::*;

verus! {

/// A request to clear scheduled events.
#[derive(Debug, Clone, Copy, PartialEq, Eq, Structural)]
pub struct ClearScheduledEventsEvent {
    /// If `None`, then clear events for all nodes.
    pub node_id: Option<NodeID>,
    /// Which events to clear.
    pub event_type: ClearScheduledEventsType,
}

/// How to handle event buffers on the audio thread running out of space.
#[derive(Debug, Clone, Copy, PartialEq, Eq, Hash, Structural)]
pub enum BufferOutOfSpaceMode {
    /// If an event buffer on the audio thread ran out of space to fit new
    /// events, reallocate on the audio thread to fit the new items. If this
    /// happens, it may cause underruns (audio glitches), and a warning will
    /// be logged.
    AllocateOnAudioThread,
    /// If an event buffer on the audio thread ran out of space to fit new
    /// events, then panic.
    Panic,
    /// If an event buffer on the audio thread ran out of space to fit new
    /// events, drop those events to avoid allocating on the audio thread.
    /// If this happens, a warning will be logged.
    ///
    /// (Not generally recommended, but the option is here if you want it.)
    DropEvents,
}

impl Default for BufferOutOfSpaceMode {
    fn default() -> (mode: Self)
        ensures
            mode == BufferOutOfSpaceMode::AllocateOnAudioThread,
    {
        BufferOutOfSpaceMode::AllocateOnAudioThread
    }
}

} // verus!
