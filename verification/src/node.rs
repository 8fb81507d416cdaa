//! Nodes of the audio graph.

pub mod dummy;

use crate::channel_config::ChannelConfig;
use vstd::prelude::*;

verus! {

/// A globally unique identifier for a node: an arena index in bit form.
#[derive(Debug, Clone, Copy, PartialEq, Eq, Hash, Structural)]
pub struct NodeID(pub u64);

/// Information about a node that the graph works with.
#[derive(Debug, Clone, Copy)]
pub struct AudioNodeInfo {
    /// A name for debugging.
    pub debug_name: &'static str,
    /// The number of input and output channels.
    pub channel_config: ChannelConfig,
    /// Whether the node wants to be called once per update of the context.
    pub call_update_method: bool,
}

impl AudioNodeInfo {
    /// A node with the given name and channels, which does not want to be
    /// called on updates.
    pub fn new(debug_name: &'static str, channel_config: ChannelConfig) -> (info: Self)
        ensures
            info.debug_name == debug_name,
            info.channel_config == channel_config,
            !info.call_update_method,
    {
        AudioNodeInfo { debug_name, channel_config, call_update_method: false }
    }
}

/// A node that can be added to an audio graph.
pub trait AudioNode {
    /// What is fixed when the node is added.
    type Configuration;

    /// Information about the node.
    fn info(&self, config: &Self::Configuration) -> AudioNodeInfo;
}

/// A node together with its configuration, ready to be added to a graph.
pub struct Constructor<T, C> {
    pub node: T,
    pub config: C,
}

impl<T, C> Constructor<T, C> {
    /// Joins a node and its configuration.
    pub fn new(node: T, config: C) -> (constructor: Self)
        ensures
            constructor.node == node,
            constructor.config == config,
    {
        Constructor { node, config }
    }
}

/// A node that can stand in for the input and the output of a graph.
pub trait CustomNodeEvent: AudioNode {
    /// A node with the given channels that does nothing.
    fn dummy_node(config: ChannelConfig) -> Constructor<Self, Self::Configuration> where
        Self: Sized,
    ;
}

/// The status of a processing call.
#[derive(Debug, Clone, Copy, PartialEq, Eq, Structural)]
pub enum ProcessStatus {
    /// No output buffer was modified; all of them are to be cleared.
    ClearAllOutputs,
    /// No output buffer was modified; the inputs are to be copied to the
    /// outputs.
    Bypass,
    /// All output buffers were filled; the mask tells which hold only silence.
    OutputsModified { out_silence_mask: crate::mask::SilenceMask },
}

} // verus!
