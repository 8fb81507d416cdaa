//! The logic of a modular audio graph engine: graph editing and compilation,
//! sample-accurate event scheduling, and the state machines of its nodes.

pub mod channel;
pub mod channel_config;
pub mod clock;
pub mod context;
pub mod diff;
pub mod event;
pub mod graph;
pub mod id_table;
pub mod mask;
pub mod node;
pub mod nodes;
pub mod processor;
pub mod small_list;
