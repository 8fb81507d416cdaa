//! A node which does nothing.

use crate::channel_config::ChannelConfig;
use crate::node::{AudioNode, AudioNodeInfo, Constructor, CustomNodeEvent, ProcessStatus};
use vstd::prelude::*;

verus! {

/// A "dummy" [`AudioNode`], a node which does nothing.
#[derive(Debug, Clone, Copy, PartialEq, Eq, Structural)]
pub struct DummyNode;

/// The configuration for a [`DummyNode`], a node which does nothing.
#[derive(Debug, Clone, Copy, PartialEq, Eq, Structural)]
pub struct DummyNodeConfig {
    pub channel_config: ChannelConfig,
}

impl AudioNode for DummyNode {
    type Configuration = DummyNodeConfig;

    fn info(&self, config: &DummyNodeConfig) -> (info: AudioNodeInfo)
        ensures
            info.debug_name@ == "dummy"@,
            info.channel_config == config.channel_config,
            !info.call_update_method,
    {
        AudioNodeInfo::new("dummy", config.channel_config)
    }
}

impl CustomNodeEvent for DummyNode {
    fn dummy_node(config: ChannelConfig) -> (constructor: Constructor<DummyNode, DummyNodeConfig>)
        ensures
            constructor.node == DummyNode,
            constructor.config == (DummyNodeConfig { channel_config: config }),
    {
        Constructor::new(DummyNode, DummyNodeConfig { channel_config: config })
    }
}

/// The processor of a [`DummyNode`].
pub struct DummyProcessor;

impl DummyProcessor {
    /// Hands every input on unchanged.
    pub fn process(&mut self) -> (status: ProcessStatus)
        ensures
            status == ProcessStatus::Bypass,
    {
        ProcessStatus::Bypass
    }
}

} // verus!
