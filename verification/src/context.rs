//! The interface of the main thread to the audio graph.

pub mod audio_clock;
pub mod delivery;
pub mod laws;
pub mod sync;

use crate::channel::{channel, Inbox, Outbox, Receiver, Sender};
use crate::channel_config::{ChannelConfig, ChannelCount};
use crate::clock::EventInstant;
use crate::diff::EventQueue;
use crate::event::{NodeEvent, NodeEventType};
use crate::graph::compiler::{CompileGraphError, NodeEntry};
use crate::graph::topology::{has_cycle, Edge, EdgeID, PortIdx};
use crate::graph::{
    AddEdgeError, AudioGraph, EdgePattern, GraphView, RemoveNodeError, ScheduleHeapData,
};
use crate::id_table::{are_table_ids, slot_order};
use crate::node::{AudioNodeInfo, NodeID};
use crate::processor::inner::{ContextToProcessorMsg, ProcSchedule, ProcessorToContextMsg};
use crate::processor::{BufferOutOfSpaceMode, ClearScheduledEventsEvent};
use crate::small_list::SmallList;
use vstd::prelude::*;
use vstd::std_specs::cmp::PartialEqSpec;

verus! {

/// The type of scheduled events to clear.
#[derive(Debug, Clone, Copy, PartialEq, Eq, Structural)]
pub enum ClearScheduledEventsType {
    /// Clear both musical and non-musical scheduled events.
    All,
    /// Clear only non-musical scheduled events.
    NonMusicalOnly,
    /// Clear only musical scheduled events.
    MusicalOnly,
}

impl Default for ClearScheduledEventsType {
    fn default() -> (event_type: Self)
        ensures
            event_type == ClearScheduledEventsType::All,
    {
        ClearScheduledEventsType::All
    }
}

/// The bits of the `f32` next to `10.0 / 1_000.0`.
pub const DEFAULT_DECLICK_SECONDS: u32 = 0x3C23_D70A;

/// The configuration of a Firewheel context.
#[derive(Debug, Clone, Copy, PartialEq, Eq, Structural)]
pub struct FirewheelConfig {
    /// The number of input channels in the audio graph.
    pub num_graph_inputs: ChannelCount,
    /// The number of output channels in the audio graph.
    pub num_graph_outputs: ChannelCount,
    /// If `true`, then all outputs will be hard clipped at 0db to help
    /// protect the system's speakers.
    ///
    /// Note that most operating systems already hard clip the output,
    /// so this is usually not needed.
    ///
    /// By default this is set to `false`.
    pub hard_clip_outputs: bool,
    /// An initial capacity to allocate for the nodes in the audio graph.
    ///
    /// By default this is set to `64`.
    pub initial_node_capacity: u32,
    /// An initial capacity to allocate for the edges in the audio graph.
    ///
    /// By default this is set to `256`.
    pub initial_edge_capacity: u32,
    /// The amount of time in seconds to fade in/out when pausing/resuming
    /// to avoid clicks and pops, as the bits of an `f32`.
    ///
    /// By default this is set to `10.0 / 1_000.0`.
    pub declick_seconds: u32,
    /// The initial capacity for a group of events.
    ///
    /// By default this is set to `128`.
    pub initial_event_group_capacity: u32,
    /// The capacity of the engine's internal message channel.
    ///
    /// By default this is set to `64`.
    pub channel_capacity: u32,
    /// The maximum number of events that can be sent in a single call
    /// to the process method of a node's processor.
    ///
    /// By default this is set to `128`.
    pub event_queue_capacity: usize,
    /// The maximum number of immediate events (events that do *NOT* have a
    /// scheduled time component) that can be stored at once in the audio
    /// thread.
    ///
    /// By default this is set to `512`.
    pub immediate_event_capacity: usize,
    /// The maximum number of scheduled events (events that have a scheduled
    /// time component) that can be stored at once in the audio thread.
    ///
    /// This can be set to `0` to save some memory if you do not plan on using
    /// scheduled events.
    ///
    /// By default this is set to `512`.
    pub scheduled_event_capacity: usize,
    /// How to handle event buffers on the audio thread running out of space.
    ///
    /// By default this is set to [`BufferOutOfSpaceMode::AllocateOnAudioThread`].
    pub buffer_out_of_space_mode: BufferOutOfSpaceMode,
    /// Force all buffers in the audio graph to be cleared when processing.
    ///
    /// This is only meant to be used when diagnosing a misbehaving audio node.
    /// Enabling this significantly increases processing overhead.
    ///
    /// If enabling this fixes audio glitching issues, then notify the node
    /// author of the misbehavior.
    ///
    /// By default this is set to `false`.
    pub debug_force_clear_buffers: bool,
}

impl Default for FirewheelConfig {
    fn default() -> (config: Self)
        ensures
            config.num_graph_inputs.spec_get() == 0,
            config.num_graph_outputs.spec_get() == 2,
            !config.hard_clip_outputs,
            config.initial_node_capacity == 64,
            config.initial_edge_capacity == 256,
            config.declick_seconds == DEFAULT_DECLICK_SECONDS,
            config.declick_seconds == 0x3C23_D70A,
            config.initial_event_group_capacity == 128,
            config.channel_capacity == 64,
            config.event_queue_capacity == 128,
            config.immediate_event_capacity == 512,
            config.scheduled_event_capacity == 512,
            config.buffer_out_of_space_mode == BufferOutOfSpaceMode::AllocateOnAudioThread,
            !config.debug_force_clear_buffers,
    {
        FirewheelConfig {
            num_graph_inputs: ChannelCount::zero(),
            num_graph_outputs: ChannelCount::stereo(),
            hard_clip_outputs: false,
            initial_node_capacity: 64,
            initial_edge_capacity: 256,
            declick_seconds: DEFAULT_DECLICK_SECONDS,
            initial_event_group_capacity: 128,
            channel_capacity: 64,
            event_queue_capacity: 128,
            immediate_event_capacity: 512,
            scheduled_event_capacity: 512,
            buffer_out_of_space_mode: BufferOutOfSpaceMode::AllocateOnAudioThread,
            debug_force_clear_buffers: false,
        }
    }
}

/// Information about a running audio stream.
#[derive(Debug, Clone, Copy, PartialEq, Eq, Structural)]
pub struct StreamInfo {
    /// The sample rate of the stream.
    pub sample_rate: u32,
    /// The sample rate of the previous stream (if there was one, otherwise
    /// this is the sample rate of the current stream).
    pub prev_sample_rate: u32,
    /// The maximum number of frames that can appear in a block.
    pub max_block_frames: u32,
    /// The number of input channels of the stream.
    pub num_stream_in_channels: u32,
    /// The number of output channels of the stream.
    pub num_stream_out_channels: u32,
    /// The number of frames to fade in/out to avoid clicks and pops.
    pub declick_frames: u32,
}

/// A stream that an audio backend has opened.
#[derive(Debug, Clone, Copy, PartialEq, Eq, Structural)]
pub struct OpenedStream {
    /// The sample rate of the stream.
    pub sample_rate: u32,
    /// The maximum number of frames that can appear in a block.
    pub max_block_frames: u32,
    /// The number of input channels of the stream.
    pub num_stream_in_channels: u32,
    /// The number of output channels of the stream.
    pub num_stream_out_channels: u32,
}

/// An error occurred while trying to start an audio stream.
#[derive(Debug, Clone, Copy, PartialEq, Eq, Structural)]
pub enum StartStreamError {
    /// An audio stream is already running.
    AlreadyStarted,
    /// The old stream has not finished stopping yet.
    OldStreamNotFinishedStopping,
    /// The audio graph failed to compile.
    GraphCompileError(CompileGraphError),
}

/// An error occurred while updating a context. `SE` is what an audio backend
/// reports.
#[derive(Debug)]
pub enum UpdateError<SE> {
    /// The context to processor message channel is full.
    MsgChannelFull,
    /// The audio graph failed to compile.
    GraphCompileError(CompileGraphError),
    /// The audio stream stopped unexpectedly.
    StreamStoppedUnexpectedly(Option<SE>),
}

/// The ends of the message channels that belong to the audio thread.
#[verifier::reject_recursive_types(P)]
#[verifier::reject_recursive_types(E)]
#[verifier::reject_recursive_types(T)]
pub struct ProcessorChannel<P, E, T> {
    /// What the main thread sends.
    pub from_context_rx: Receiver<ContextToProcessorMsg<P, E, T>>,
    /// What the main thread receives.
    pub to_context_tx: Sender<ProcessorToContextMsg<P, E, T>>,
}

/// A stream that is about to run.
#[verifier::reject_recursive_types(P)]
#[verifier::reject_recursive_types(E)]
#[verifier::reject_recursive_types(T)]
pub struct StartedStream<P, E, T> {
    /// The information about the stream.
    pub stream_info: StreamInfo,
    /// The schedule to send once the audio thread has its processor.
    pub schedule: ScheduleHeapData,
    /// The ends of the message channels, if there is no processor yet.
    pub processor_channel: Option<ProcessorChannel<P, E, T>>,
}

/// Whether `frames` is the number of frames to fade: what `fade_frames` gives for the
/// configured time and a sample rate, and at least one.
pub open spec fn declick_frames_of<F: Fn(u32, u32) -> u32>(
    fade_frames: F,
    declick_seconds: u32,
    sample_rate: u32,
    frames: u32,
) -> bool {
    exists|found: u32| #[trigger]
        call_ensures(fade_frames, (declick_seconds, sample_rate), found) && frames == if found
            == 0 {
            1
        } else {
            found
        }
}

/// A Firewheel context. `N` are its nodes, `P` their processors, `E` the custom
/// events, `T` the states of the musical transport, and `X` what the audio thread gives
/// back when its stream has stopped.
#[verifier::reject_recursive_types(N)]
#[verifier::reject_recursive_types(P)]
#[verifier::reject_recursive_types(E)]
#[verifier::reject_recursive_types(T)]
#[verifier::reject_recursive_types(X)]
pub struct FirewheelCtx<N, P, E, T, X> {
    graph: AudioGraph<N>,
    to_processor_tx: Sender<ContextToProcessorMsg<P, E, T>>,
    from_processor_rx: Receiver<ProcessorToContextMsg<P, E, T>>,
    active_state: Option<StreamInfo>,
    processor_channel: Option<ProcessorChannel<P, E, T>>,
    processor_drop_rx: Option<Receiver<X>>,
    sample_rate: u32,
    // Re-use the allocations for groups of events.
    event_group_pool: Vec<Vec<NodeEvent<E>>>,
    event_group: Vec<NodeEvent<E>>,
    initial_event_group_capacity: usize,
    queued_clear_scheduled_events: Vec<ClearScheduledEventsEvent>,
    transport_state: T,
    config: FirewheelConfig,
}

/// What a context works with.
#[verifier::ext_equal]
#[verifier::reject_recursive_types(N)]
#[verifier::reject_recursive_types(P)]
#[verifier::reject_recursive_types(E)]
#[verifier::reject_recursive_types(T)]
#[verifier::reject_recursive_types(X)]
pub struct CtxView<N, P, E, T, X> {
    /// The audio graph.
    pub graph: GraphView<N>,
    /// The running audio stream.
    pub stream: Option<StreamInfo>,
    /// The ends of the message channels for the audio thread, until it has them.
    pub processor_channel: Option<ProcessorChannel<P, E, T>>,
    /// The channel through which the processor of the last stream is given back.
    pub returned: Option<Inbox<X>>,
    /// The sample rate of the last stream.
    pub sample_rate: u32,
    /// The queued events.
    pub events: Seq<NodeEvent<E>>,
    /// The queued requests to clear scheduled events.
    pub clears: Seq<ClearScheduledEventsEvent>,
    /// The state of the musical transport.
    pub transport: T,
    /// What was sent to the audio thread.
    pub outbox: Outbox<ContextToProcessorMsg<P, E, T>>,
    /// What the audio thread has sent back.
    pub inbox: Inbox<ProcessorToContextMsg<P, E, T>>,
    /// The configuration.
    pub config: FirewheelConfig,
}

impl<N, P, E, T, X> View for FirewheelCtx<N, P, E, T, X> {
    type V = CtxView<N, P, E, T, X>;

    closed spec fn view(&self) -> CtxView<N, P, E, T, X> {
        CtxView {
            graph: self.graph@,
            stream: self.active_state,
            processor_channel: self.processor_channel,
            returned: match self.processor_drop_rx {
                Some(rx) => Some(rx@),
                None => None,
            },
            sample_rate: self.sample_rate,
            events: self.event_group@,
            clears: self.queued_clear_scheduled_events@,
            transport: self.transport_state,
            outbox: self.to_processor_tx@,
            inbox: self.from_processor_rx@,
            config: self.config,
        }
    }
}

impl<N, P, E, T, X> FirewheelCtx<N, P, E, T, X> {
    /// Well-formedness: the graph is, a running stream has blocks with frames and
    /// gives its processor back, and the lists to reuse are empty.
    pub closed spec fn wf(&self) -> bool {
        &&& self.graph.wf()
        &&& self.active_state matches Some(info) ==> info.max_block_frames > 0
            && self.processor_drop_rx is Some
        &&& self.processor_channel matches Some(ends) ==> self.connected_to(ends)
        &&& forall|i: int|
            0 <= i < self.event_group_pool@.len() ==> (
            #[trigger] self.event_group_pool@[i])@.len() == 0
    }

    /// Whether some ends of message channels belong to the other ends, which this context
    /// has.
    pub closed spec fn connected_to(&self, ends: ProcessorChannel<P, E, T>) -> bool {
        &&& self.to_processor_tx.connected_to(ends.from_context_rx)
        &&& ends.to_context_tx.connected_to(self.from_processor_rx)
    }

    /// Whether the processor of the last stream is known to have been given back.
    pub closed spec fn processor_waiting(&self) -> bool {
        self.processor_drop_rx matches Some(rx) && rx.waiting()
    }

    /// Whether this is what looking for the processor of the last stream has shown.
    pub closed spec fn looked(&self, found: bool) -> bool {
        match self.processor_drop_rx {
            Some(rx) => rx.peeked(found),
            None => !found,
        }
    }

    /// Create a new Firewheel context. The audio thread starts with the same transport
    /// state.
    pub fn new(
        config: FirewheelConfig,
        graph_in_node: N,
        graph_out_node: N,
        transport_state: T,
    ) -> (ctx: Self)
        requires
            0 < config.channel_capacity <= 0x7FFF_FFFF,
        ensures
            ctx.wf(),
            ctx@.graph.valid(),
            ctx@.graph.edges == Map::<u64, Edge>::empty(),
            ctx@.graph.nodes.dom() == set![ctx@.graph.graph_in, ctx@.graph.graph_out],
            ctx@.graph.nodes[ctx@.graph.graph_in].dyn_node == graph_in_node,
            ctx@.graph.nodes[ctx@.graph.graph_in].info.debug_name@ == "graph_in"@,
            ctx@.graph.nodes[ctx@.graph.graph_in].info.channel_config.inputs() == 0,
            ctx@.graph.nodes[ctx@.graph.graph_in].info.channel_config.num_outputs
                == config.num_graph_inputs,
            ctx@.graph.nodes[ctx@.graph.graph_out].dyn_node == graph_out_node,
            ctx@.graph.nodes[ctx@.graph.graph_out].info.debug_name@ == "graph_out"@,
            ctx@.graph.nodes[ctx@.graph.graph_out].info.channel_config.num_inputs
                == config.num_graph_outputs,
            ctx@.graph.nodes[ctx@.graph.graph_out].info.channel_config.outputs() == 0,
            ctx@.graph.needs_compile,
            ctx@.processor_channel matches Some(ends) && ctx.connected_to(ends),
            ctx@ == (CtxView::<N, P, E, T, X> {
                graph: ctx@.graph,
                stream: None,
                processor_channel: ctx@.processor_channel,
                returned: None,
                sample_rate: 44100,
                events: Seq::empty(),
                clears: Seq::empty(),
                transport: transport_state,
                outbox: Outbox { offered: Seq::empty(), sent: Seq::empty() },
                inbox: Inbox { received: Seq::empty(), found_empty: false },
                config,
            }),
    {
        let (to_processor_tx, from_context_rx) = channel(config.channel_capacity as usize);
        let (to_context_tx, from_processor_rx) = channel(config.channel_capacity as usize * 2);
        let initial_event_group_capacity: usize = config.initial_event_group_capacity as usize;
        let mut event_group_pool: Vec<Vec<NodeEvent<E>>> = Vec::with_capacity(16);
        for i in 0..3
            invariant
                forall|j: int|
                    0 <= j < event_group_pool@.len() ==> (
                    #[trigger] event_group_pool@[j])@.len() == 0,
        {
            event_group_pool.push(Vec::with_capacity(initial_event_group_capacity));
        }
        let graph = AudioGraph::new(&config, graph_in_node, graph_out_node);
        proof {
            graph.lemma_valid();
        }
        FirewheelCtx {
            graph,
            to_processor_tx,
            from_processor_rx,
            active_state: None,
            processor_channel: Some(ProcessorChannel { from_context_rx, to_context_tx }),
            processor_drop_rx: None,
            sample_rate: 44100,
            event_group_pool,
            event_group: Vec::with_capacity(initial_event_group_capacity),
            initial_event_group_capacity,
            queued_clear_scheduled_events: Vec::new(),
            transport_state,
            config,
        }
    }

    /// Returns `true` if there is currently a running audio stream.
    pub fn is_audio_stream_running(&self) -> (running: bool)
        ensures
            running == (self@.stream is Some),
    {
        self.active_state.is_some()
    }

    /// Information about the running audio stream.
    ///
    /// Returns `None` if no audio stream is currently running.
    pub fn stream_info(&self) -> (info: Option<&StreamInfo>)
        ensures
            match info {
                Some(i) => self@.stream == Some(*i),
                None => self@.stream is None,
            },
    {
        self.active_state.as_ref()
    }

    /// Returns `true` if an audio stream can be started right now.
    ///
    /// When calling [`FirewheelCtx::stop_stream()`], it may take some time for the
    /// old stream to be fully stopped. This method is used to check if it has been
    /// dropped yet.
    ///
    /// Note, in rare cases where the audio thread crashes without cleanly dropping
    /// its contents, this may never return `true`. Consider adding a timeout to
    /// avoid deadlocking.
    pub fn can_start_stream(&self) -> (can: bool)
        ensures
            self@.stream is Some ==> !can,
            self@.stream is None && self@.returned is None ==> can,
            self@.stream is None && self@.returned is Some ==> self.looked(can),
            can && self@.returned is Some ==> self.processor_waiting(),
    {
        if self.is_audio_stream_running() {
            false
        } else if let Some(rx) = &self.processor_drop_rx {
            rx.has_message()
        } else {
            true
        }
    }

    /// Whether an audio stream can be started: only one audio stream can exist on
    /// a context at a time.
    pub fn check_start_stream(&self) -> (result: Result<(), StartStreamError>)
        ensures
            self@.stream is Some <==> result == Err::<(), _>(StartStreamError::AlreadyStarted),
            self@.stream is None && self@.returned is None ==> result is Ok,
            self@.stream is None && self@.returned is Some ==> self.looked(result is Ok),
            result is Ok && self@.returned is Some ==> self.processor_waiting(),
            result matches Err(e) ==> e == StartStreamError::AlreadyStarted || e
                == StartStreamError::OldStreamNotFinishedStopping,
    {
        let running = self.is_audio_stream_running();
        let can_start = self.can_start_stream();
        start_stream_check(running, can_start)
    }

    /// The audio backend has opened a stream: compiles the graph for it. If this
    /// is the first stream, the result has the ends of the message channels for a
    /// new processor, or else the processor of the last stream is to be used.
    /// `fade_frames` gives the product of a number of seconds, as the bits of an `f32`, and a
    /// sample rate, rounded to a number of frames.
    pub fn start_stream<F: Fn(u32, u32) -> u32>(
        &mut self,
        opened: OpenedStream,
        fade_frames: &F,
    ) -> (result: Result<StartedStream<P, E, T>, StartStreamError>)
        requires
            old(self).wf(),
            opened.max_block_frames > 0,
            forall|seconds: u32, rate: u32| #[trigger] call_requires(*fade_frames, (seconds, rate)),
        ensures
            final(self).wf(),
            final(self).processor_waiting() == old(self).processor_waiting(),
            ({
                let has_cycle = has_cycle(old(self)@.graph.edges);
                &&& match result {
                    Ok(started) => {
                        &&& !has_cycle
                        &&& final(self)@ == (CtxView {
                            graph: final(self)@.graph,
                            processor_channel: None,
                            sample_rate: opened.sample_rate,
                            ..old(self)@
                        })
                        &&& started.stream_info == (StreamInfo {
                            sample_rate: opened.sample_rate,
                            prev_sample_rate: if old(self)@.processor_channel is None {
                                old(self)@.sample_rate
                            } else {
                                opened.sample_rate
                            },
                            max_block_frames: opened.max_block_frames,
                            num_stream_in_channels: opened.num_stream_in_channels,
                            num_stream_out_channels: opened.num_stream_out_channels,
                            declick_frames: started.stream_info.declick_frames,
                        })
                        &&& declick_frames_of(
                            *fade_frames,
                            old(self)@.config.declick_seconds,
                            opened.sample_rate,
                            started.stream_info.declick_frames,
                        )
                        &&& started.processor_channel == old(self)@.processor_channel
                        &&& started.processor_channel is Some ==> final(self).connected_to(started.processor_channel->0)
                        &&& AudioGraph::compiled(
                            old(self)@.graph,
                            opened.max_block_frames as usize,
                            final(self)@.graph,
                            started.schedule,
                        )
                    },
                    Err(e) => has_cycle && e == StartStreamError::GraphCompileError(
                        CompileGraphError::CycleDetected,
                    ) && final(self)@ == old(self)@,
                }
            }),
    {
        let frames: u32 = fade_frames(self.config.declick_seconds, opened.sample_rate);
        let declick: u32 = if frames == 0 {
            1
        } else {
            frames
        };
        let schedule = match self.graph.compile(opened.max_block_frames as usize) {
            Ok(schedule) => schedule,
            Err(e) => {
                return Err(StartStreamError::GraphCompileError(e));
            },
        };
        let processor_channel = self.processor_channel.take();
        let prev_sample_rate: u32 = if processor_channel.is_some() {
            opened.sample_rate
        } else {
            self.sample_rate
        };
        self.sample_rate = opened.sample_rate;
        Ok(
            StartedStream {
                stream_info: StreamInfo {
                    sample_rate: opened.sample_rate,
                    prev_sample_rate,
                    max_block_frames: opened.max_block_frames,
                    num_stream_in_channels: opened.num_stream_in_channels,
                    num_stream_out_channels: opened.num_stream_out_channels,
                    declick_frames: declick,
                },
                schedule,
                processor_channel,
            },
        )
    }
}

impl<N, P, E, T, X> FirewheelCtx<N, P, E, T, X> {
    /// Takes the processor of the last stream, if the audio thread has given it
    /// back.
    pub fn take_returned(&mut self) -> (processor: Option<X>)
        ensures
            old(self).wf() ==> final(self).wf(),
            old(self).processor_waiting() ==> processor is Some,
            match old(self)@.returned {
                Some(inbox) => final(self)@ == (CtxView {
                    returned: Some(inbox.popped(processor)),
                    ..old(self)@
                }),
                None => processor is None && final(self)@ == old(self)@,
            },
    {
        match self.processor_drop_rx.take() {
            Some(rx) => {
                let mut rx = rx;
                let processor = rx.try_pop();
                self.processor_drop_rx = Some(rx);
                processor
            },
            None => None,
        }
    }

    /// Sends a message to the audio thread. If the channel is full, the message is
    /// handed back.
    fn send_message_to_processor(&mut self, msg: ContextToProcessorMsg<P, E, T>) -> (result: Result<
        (),
        ContextToProcessorMsg<P, E, T>,
    >)
        ensures
            old(self).wf() ==> final(self).wf(),
            final(self).event_group_pool == old(self).event_group_pool,
            result matches Err(refused) ==> refused == msg,
            final(self)@ == offered(old(self)@, msg, result is Ok),
    {
        self.to_processor_tx.try_push(msg)
    }

    /// The audio thread has its processor: sends the first schedule, and the
    /// stream is running. If the channel is full, the schedule is handed back and
    /// the stream is not running.
    pub fn stream_started(
        &mut self,
        stream_info: StreamInfo,
        schedule: ProcSchedule<P>,
        drop_rx: Receiver<X>,
    ) -> (result: Result<(), ProcSchedule<P>>)
        requires
            old(self).wf(),
            stream_info.max_block_frames > 0,
        ensures
            final(self).wf(),
            match result {
                Ok(_) => final(self)@ == (CtxView {
                    stream: Some(stream_info),
                    returned: Some(drop_rx@),
                    ..offered(old(self)@, ContextToProcessorMsg::NewSchedule(schedule), true)
                }),
                Err(refused) => refused == schedule && final(self)@ == offered(
                    old(self)@,
                    ContextToProcessorMsg::NewSchedule(schedule),
                    false,
                ),
            },
    {
        if let Err(msg) = self.send_message_to_processor(
            ContextToProcessorMsg::NewSchedule(schedule),
        ) {
            if let ContextToProcessorMsg::NewSchedule(schedule) = msg {
                return Err(schedule);
            }
        }
        self.active_state = Some(stream_info);
        self.processor_drop_rx = Some(drop_rx);
        Ok(())
    }

    /// Stop the audio stream in this context.
    pub fn stop_stream(&mut self)
        requires
            old(self).wf(),
        ensures
            final(self).wf(),
            final(self)@ == (CtxView {
                graph: GraphView { needs_compile: true, ..old(self)@.graph },
                stream: None,
                ..old(self)@
            }),
            final(self).processor_waiting() == old(self).processor_waiting(),
    {
        self.active_state = None;
        self.graph.deactivate();
    }

    /// The nodes whose update methods are to be called now. Nodes that are no
    /// longer in the graph are taken off the list.
    pub fn nodes_to_update(&mut self) -> (nodes: Vec<NodeID>)
        requires
            old(self).wf(),
        ensures
            final(self).wf(),
            nodes@ == old(self)@.graph.nodes_to_update.filter(
                |n: NodeID| old(self)@.graph.nodes.contains_key(n.0),
            ),
            final(self)@ == (CtxView {
                graph: GraphView { nodes_to_update: nodes@, ..old(self)@.graph },
                ..old(self)@
            }),
    {
        self.graph.update()
    }

    /// Takes back what the audio thread has returned: the lists of events are
    /// used again, and the rest is dropped here.
    fn handle_returned(&mut self)
        requires
            old(self).wf(),
        ensures
            final(self).wf(),
            final(self)@ == (CtxView { inbox: final(self)@.inbox, ..old(self)@ }),
            old(self)@.inbox.drained(final(self)@.inbox),
            final(self).processor_drop_rx == old(self).processor_drop_rx,
    {
        let msgs = self.from_processor_rx.pop_all();
        let ghost inbox = self@.inbox;
        assert(inbox.received.skip(old(self)@.inbox.received.len() as int) =~= msgs@);
        for msg in msgs
            invariant
                self.wf(),
                self.processor_drop_rx == old(self).processor_drop_rx,
                self@ == (CtxView { inbox, ..old(self)@ }),
        {
            if let ProcessorToContextMsg::ReturnEventGroup(event_group) = msg {
                let mut event_group = event_group;
                event_group.clear();
                self.event_group_pool.push(event_group);
            }
        }
    }

    /// Update the firewheel context: takes back what the audio thread has
    /// returned, stops a stream that has failed, and compiles the graph if it has
    /// changed while a stream is running. `backend_status` is what the audio
    /// backend reports of a running stream.
    ///
    /// This must be called reguarly (i.e. once every frame), followed by
    /// [`FirewheelCtx::send_schedule`] if there is a schedule, and by
    /// [`FirewheelCtx::flush_queues`].
    pub fn update<SE>(&mut self, backend_status: Result<(), SE>) -> (result: Result<
        Option<ScheduleHeapData>,
        UpdateError<SE>,
    >)
        requires
            old(self).wf(),
        ensures
            final(self).wf(),
            update_done(old(self)@, backend_status, final(self)@, result),
            exists|returned: bool| #[trigger]
                old(self).looked(returned) && (old(self)@.stream is Some && backend_status is Ok
                    ==> (returned <==> result matches Err(
                    UpdateError::StreamStoppedUnexpectedly(None),
                ))),
            result matches Err(UpdateError::StreamStoppedUnexpectedly(None))
                ==> final(self).processor_waiting(),
    {
        self.handle_returned();
        let returned = match &self.processor_drop_rx {
            Some(rx) => rx.has_message(),
            None => false,
        };
        assert(self.looked(returned));
        assert(old(self).looked(returned));
        self.check_stream(backend_status, returned)?;
        match self.active_state {
            Some(stream_info) => {
                if self.graph.needs_compile() {
                    match self.graph.compile(stream_info.max_block_frames as usize) {
                        Ok(schedule) => Ok(Some(schedule)),
                        Err(e) => Err(UpdateError::GraphCompileError(e)),
                    }
                } else {
                    Ok(None)
                }
            },
            None => Ok(None),
        }
    }

    /// Stops a running stream if the audio backend reports an error, or if the
    /// audio thread has given its processor back.
    pub fn check_stream<SE>(&mut self, backend_status: Result<(), SE>, returned: bool) -> (result:
        Result<(), UpdateError<SE>>)
        requires
            old(self).wf(),
        ensures
            final(self).wf(),
            result == (if old(self)@.stream is None {
                Ok::<(), _>(())
            } else {
                match backend_status {
                    Err(e) => Err(UpdateError::StreamStoppedUnexpectedly(Some(e))),
                    Ok(_) => if returned {
                        Err(UpdateError::StreamStoppedUnexpectedly(None))
                    } else {
                        Ok(())
                    },
                }
            }),
            final(self)@ == (if result is Err {
                stopped(old(self)@)
            } else {
                old(self)@
            }),
            final(self).processor_waiting() == old(self).processor_waiting(),
    {
        if self.active_state.is_some() {
            if let Err(e) = backend_status {
                self.stop_stream();
                return Err(UpdateError::StreamStoppedUnexpectedly(Some(e)));
            }
            if returned {
                self.stop_stream();
                return Err(UpdateError::StreamStoppedUnexpectedly(None));
            }
        }
        Ok(())
    }

    /// Sends a schedule of the graph to the audio thread. If the channel is full,
    /// the graph has to be compiled again.
    pub fn send_schedule<SE>(&mut self, schedule: ProcSchedule<P>, data: &ScheduleHeapData) -> (result:
        Result<(), UpdateError<SE>>)
        requires
            old(self).wf(),
        ensures
            final(self).wf(),
            match result {
                Ok(_) => final(self)@ == offered(
                    old(self)@,
                    ContextToProcessorMsg::NewSchedule(schedule),
                    true,
                ),
                Err(e) => e == UpdateError::<SE>::MsgChannelFull && final(self)@ == (CtxView {
                    graph: final(self)@.graph,
                    ..offered(old(self)@, ContextToProcessorMsg::NewSchedule(schedule), false)
                }) && AudioGraph::undelivered(old(self)@.graph, *data, final(self)@.graph),
            },
    {
        if self.send_message_to_processor(ContextToProcessorMsg::NewSchedule(schedule)).is_err() {
            self.graph.on_schedule_send_failed(data);
            return Err(UpdateError::MsgChannelFull);
        }
        Ok(())
    }

    /// Takes the queued requests to clear scheduled events, as a message.
    pub fn next_clear_message(&mut self) -> (msg: Option<ContextToProcessorMsg<P, E, T>>)
        requires
            old(self).wf(),
        ensures
            final(self).wf(),
            final(self)@ == (CtxView { clears: Seq::empty(), ..old(self)@ }),
            match msg {
                Some(ContextToProcessorMsg::ClearScheduledEvents(msgs)) => old(self)@.clears.len()
                    > 0 && msgs@ == old(self)@.clears,
                Some(_) => false,
                None => old(self)@.clears.len() == 0,
            },
    {
        if self.queued_clear_scheduled_events.is_empty() {
            assert(self@.clears =~= Seq::<ClearScheduledEventsEvent>::empty());
            return None;
        }
        let mut msgs: Vec<ClearScheduledEventsEvent> = Vec::new();
        std::mem::swap(&mut msgs, &mut self.queued_clear_scheduled_events);
        Some(ContextToProcessorMsg::ClearScheduledEvents(msgs))
    }

    /// Takes the queued events, as a message.
    pub fn next_event_message(&mut self) -> (msg: Option<ContextToProcessorMsg<P, E, T>>)
        requires
            old(self).wf(),
        ensures
            final(self).wf(),
            final(self)@ == (CtxView { events: Seq::empty(), ..old(self)@ }),
            match msg {
                Some(ContextToProcessorMsg::EventGroup(events)) => old(self)@.events.len() > 0
                    && events@ == old(self)@.events,
                Some(_) => false,
                None => old(self)@.events.len() == 0,
            },
    {
        if self.event_group.is_empty() {
            assert(self@.events =~= Seq::<NodeEvent<E>>::empty());
            return None;
        }
        let mut next_event_group: Vec<NodeEvent<E>> = match self.event_group_pool.pop() {
            Some(list) => list,
            None => Vec::with_capacity(self.initial_event_group_capacity),
        };
        std::mem::swap(&mut next_event_group, &mut self.event_group);
        assert(self@.events =~= Seq::<NodeEvent<E>>::empty());
        Some(ContextToProcessorMsg::EventGroup(next_event_group))
    }

    /// Puts what a message holds back to where it was queued.
    pub fn message_refused(&mut self, msg: ContextToProcessorMsg<P, E, T>)
        requires
            old(self).wf(),
            msg is EventGroup ==> old(self)@.events.len() == 0,
            msg is ClearScheduledEvents ==> old(self)@.clears.len() == 0,
        ensures
            final(self).wf(),
            final(self)@ == (match msg {
                ContextToProcessorMsg::EventGroup(events) => CtxView {
                    events: events@,
                    ..old(self)@
                },
                ContextToProcessorMsg::ClearScheduledEvents(msgs) => CtxView {
                    clears: msgs@,
                    ..old(self)@
                },
                _ => old(self)@,
            }),
    {
        match msg {
            ContextToProcessorMsg::EventGroup(event_group) => {
                let mut event_group = event_group;
                std::mem::swap(&mut event_group, &mut self.event_group);
                self.event_group_pool.push(event_group);
            },
            ContextToProcessorMsg::ClearScheduledEvents(msgs) => {
                self.queued_clear_scheduled_events = msgs;
            },
            _ => {},
        }
    }

    /// Sends what is queued to the audio thread, if a stream is running: first the
    /// requests to clear scheduled events, then the events. What does not fit in
    /// the channel stays queued.
    pub fn flush_queues<SE>(&mut self) -> (result: Result<(), UpdateError<SE>>)
        requires
            old(self).wf(),
        ensures
            final(self).wf(),
            flushed(old(self)@, final(self)@, result),
    {
        let ghost before = self@;
        let ghost mut clear_msg = ContextToProcessorMsg::<P, E, T>::ClearScheduledEvents(
            self.queued_clear_scheduled_events,
        );
        let ghost mut event_msg = ContextToProcessorMsg::<P, E, T>::EventGroup(self.event_group);
        if !self.is_audio_stream_running() {
            assert(flushed_as(before, self@, Ok::<(), UpdateError<SE>>(()), clear_msg, event_msg));
            return Ok(());
        }
        if let Some(msg) = self.next_clear_message() {
            proof {
                clear_msg = msg;
            }
            if let Err(msg) = self.send_message_to_processor(msg) {
                self.message_refused(msg);
                assert(self@ =~= offered(before, clear_msg, false));
                assert(flushed_as(
                    before,
                    self@,
                    Err::<(), UpdateError<SE>>(UpdateError::MsgChannelFull),
                    clear_msg,
                    event_msg,
                ));
                return Err(UpdateError::MsgChannelFull);
            }
        }
        let ghost cleared = self@;
        assert(cleared =~= (CtxView {
            clears: Seq::empty(),
            ..if before.clears.len() > 0 {
                offered(before, clear_msg, true)
            } else {
                before
            }
        }));
        if let Some(msg) = self.next_event_message() {
            proof {
                event_msg = msg;
            }
            if let Err(msg) = self.send_message_to_processor(msg) {
                self.message_refused(msg);
                assert(self@ =~= offered(cleared, event_msg, false));
                assert(flushed_as(
                    before,
                    self@,
                    Err::<(), UpdateError<SE>>(UpdateError::MsgChannelFull),
                    clear_msg,
                    event_msg,
                ));
                return Err(UpdateError::MsgChannelFull);
            }
        }
        assert(flushed_as(before, self@, Ok::<(), UpdateError<SE>>(()), clear_msg, event_msg));
        Ok(())
    }

    /// Sync the state of the musical transport. It is only sent if it differs from
    /// [`FirewheelCtx::transport_state`].
    ///
    /// If the message channel is full, then this will return an error, and the state stays
    /// as it was, so that it can be synced later.
    pub fn sync_transport<SE>(&mut self, transport: &T) -> (result: Result<
        (),
        UpdateError<SE>,
    >) where T: Clone + PartialEq
        requires
            old(self).wf(),
        ensures
            final(self).wf(),
            exists|differs: bool|
                {
                    &&& #[trigger] call_ensures(T::ne, (&old(self)@.transport, transport), differs)
                    &&& T::obeys_eq_spec() ==> differs == !old(self)@.transport.eq_spec(transport)
                    &&& if differs {
                        transport_synced(old(self)@, *transport, final(self)@, result)
                    } else {
                        result is Ok && final(self)@ == old(self)@
                    }
                },
    {
        let differs = self.transport_state.ne(transport);
        assert(call_ensures(T::ne, (&old(self)@.transport, transport), differs));
        if differs {
            let message = transport.clone();
            let ghost sent = message;
            if self.send_message_to_processor(
                ContextToProcessorMsg::SetTransportState(message),
            ).is_err() {
                assert(cloned(*transport, sent));
                return Err(UpdateError::MsgChannelFull);
            }
            self.transport_state = transport.clone();
            assert(cloned(*transport, sent));
            assert(cloned(*transport, self@.transport));
        }
        Ok(())
    }

    /// Get the current transport state.
    pub fn transport_state(&self) -> (state: &T)
        ensures
            *state == self@.transport,
    {
        &self.transport_state
    }

    /// Get the current transport state.
    pub fn transport(&self) -> (state: &T)
        ensures
            *state == self@.transport,
    {
        &self.transport_state
    }

    /// Whether or not outputs are being hard clipped at 0dB.
    pub fn hard_clip_outputs(&self) -> (hard_clip: bool)
        ensures
            hard_clip == self@.config.hard_clip_outputs,
    {
        self.config.hard_clip_outputs
    }

    /// Set whether or not outputs should be hard clipped at 0dB to
    /// help protect the system's speakers.
    ///
    /// Note that most operating systems already hard clip the output,
    /// so this is usually not needed.
    ///
    /// If the message channel is full, then this will return an error, and nothing
    /// changes.
    pub fn set_hard_clip_outputs<SE>(&mut self, hard_clip_outputs: bool) -> (result: Result<
        (),
        UpdateError<SE>,
    >)
        requires
            old(self).wf(),
        ensures
            final(self).wf(),
            if old(self)@.config.hard_clip_outputs == hard_clip_outputs {
                result is Ok && final(self)@ == old(self)@
            } else {
                final(self)@ == (CtxView {
                    config: FirewheelConfig {
                        hard_clip_outputs: if result is Ok {
                            hard_clip_outputs
                        } else {
                            old(self)@.config.hard_clip_outputs
                        },
                        ..old(self)@.config
                    },
                    ..offered(
                        old(self)@,
                        ContextToProcessorMsg::HardClipOutputs(hard_clip_outputs),
                        result is Ok,
                    )
                })
            },
            result is Err ==> final(self)@.config == old(self)@.config,
            result matches Err(e) ==> e == UpdateError::<SE>::MsgChannelFull,
    {
        if self.config.hard_clip_outputs == hard_clip_outputs {
            return Ok(());
        }
        match self.send_message_to_processor(
            ContextToProcessorMsg::HardClipOutputs(hard_clip_outputs),
        ) {
            Ok(_) => {
                self.config.hard_clip_outputs = hard_clip_outputs;
                Ok(())
            },
            Err(_) => Err(UpdateError::MsgChannelFull),
        }
    }

    /// Queue an event to be sent to an audio node's processor.
    ///
    /// Note, this event will not be sent until the event queue is flushed
    /// in [`FirewheelCtx::flush_queues`].
    pub fn queue_event(&mut self, event: NodeEvent<E>)
        ensures
            final(self)@ == (CtxView { events: old(self)@.events.push(event), ..old(self)@ }),
            old(self).wf() ==> final(self).wf(),
    {
        self.event_group.push(event);
    }

    /// Queue an event to be sent to an audio node's processor.
    ///
    /// Note, this event will not be sent until the event queue is flushed
    /// in [`FirewheelCtx::flush_queues`].
    pub fn queue_event_for(&mut self, node_id: NodeID, event: NodeEventType<E>)
        ensures
            final(self)@ == (CtxView {
                events: old(self)@.events.push(NodeEvent { node_id, time: None, event }),
                ..old(self)@
            }),
            old(self).wf() ==> final(self).wf(),
    {
        self.queue_event(NodeEvent { node_id, time: None, event });
    }

    /// Queue an event at a certain time, to be sent to an audio node's processor.
    ///
    /// If `time` is `None`, then the event will occur as soon as the node's
    /// processor receives the event.
    ///
    /// Note, this event will not be sent until the event queue is flushed
    /// in [`FirewheelCtx::flush_queues`].
    pub fn schedule_event_for(
        &mut self,
        node_id: NodeID,
        event: NodeEventType<E>,
        time: Option<EventInstant>,
    )
        ensures
            final(self)@ == (CtxView {
                events: old(self)@.events.push(NodeEvent { node_id, time, event }),
                ..old(self)@
            }),
            old(self).wf() ==> final(self).wf(),
    {
        self.queue_event(NodeEvent { node_id, time, event });
    }

    /// Cancel scheduled events for all nodes.
    ///
    /// This will clear all events that have been scheduled since the last call to
    /// [`FirewheelCtx::update`]. Any events scheduled between then and the next call
    /// to [`FirewheelCtx::update`] will not be canceled.
    ///
    /// This only takes effect once [`FirewheelCtx::flush_queues`] is called.
    pub fn cancel_all_scheduled_events(&mut self, event_type: ClearScheduledEventsType)
        ensures
            final(self)@ == (CtxView {
                clears: old(self)@.clears.push(
                    ClearScheduledEventsEvent { node_id: None, event_type },
                ),
                ..old(self)@
            }),
            old(self).wf() ==> final(self).wf(),
    {
        self.queued_clear_scheduled_events.push(
            ClearScheduledEventsEvent { node_id: None, event_type },
        );
    }

    /// Cancel scheduled events for a specific node.
    ///
    /// This will clear all events that have been scheduled since the last call to
    /// [`FirewheelCtx::update`]. Any events scheduled between then and the next call
    /// to [`FirewheelCtx::update`] will not be canceled.
    ///
    /// This only takes effect once [`FirewheelCtx::flush_queues`] is called.
    pub fn cancel_scheduled_events_for(
        &mut self,
        node_id: NodeID,
        event_type: ClearScheduledEventsType,
    )
        ensures
            final(self)@ == (CtxView {
                clears: old(self)@.clears.push(
                    ClearScheduledEventsEvent { node_id: Some(node_id), event_type },
                ),
                ..old(self)@
            }),
            old(self).wf() ==> final(self).wf(),
    {
        self.queued_clear_scheduled_events.push(
            ClearScheduledEventsEvent { node_id: Some(node_id), event_type },
        );
    }
}

impl<N, P, E, T, X> FirewheelCtx<N, P, E, T, X> {
    /// The graph of a context is valid.
    pub proof fn lemma_valid(&self)
        requires
            self.wf(),
        ensures
            self@.graph.valid(),
            are_table_ids(self@.graph.nodes.dom()),
            are_table_ids(self@.graph.edges.dom()),
            self@.graph.nodes.len() <= self@.graph.positions,
    {
        self.graph.lemma_valid();
    }

    /// The ID of the graph input node
    pub fn graph_in_node_id(&self) -> (id: NodeID)
        ensures
            id.0 == self@.graph.graph_in,
    {
        self.graph.graph_in_node()
    }

    /// The ID of the graph output node
    pub fn graph_out_node_id(&self) -> (id: NodeID)
        ensures
            id.0 == self@.graph.graph_out,
    {
        self.graph.graph_out_node()
    }

    /// Add a node to the audio graph.
    pub fn add_node(&mut self, info: AudioNodeInfo, node: N) -> (id: NodeID)
        requires
            old(self).wf(),
            old(self)@.graph.nodes.len() < 0xFFFF_FFFF,
        ensures
            final(self).wf(),
            !old(self)@.graph.nodes.contains_key(id.0),
            final(self)@ == (CtxView { graph: final(self)@.graph, ..old(self)@ }),
            final(self)@.graph == (GraphView {
                nodes: old(self)@.graph.nodes.insert(
                    id.0,
                    NodeEntry { id, info, dyn_node: node, processor_constructed: false },
                ),
                nodes_to_update: if info.call_update_method {
                    old(self)@.graph.nodes_to_update.push(id)
                } else {
                    old(self)@.graph.nodes_to_update
                },
                needs_compile: true,
                positions: if old(self)@.graph.nodes.len() + 1 > old(self)@.graph.positions {
                    (old(self)@.graph.nodes.len() + 1) as int
                } else {
                    old(self)@.graph.positions
                },
                ..old(self)@.graph
            }),
    {
        self.graph.add_node(info, node)
    }

    /// Remove the given node from the audio graph.
    ///
    /// This will automatically remove all edges from the graph that
    /// were connected to this node.
    ///
    /// On success, this returns a list of all edges that were removed
    /// from the graph as a result of removing this node.
    ///
    /// This will return an error if the ID is of the graph input or graph
    /// output node.
    pub fn remove_node(&mut self, node_id: NodeID) -> (result: Result<SmallList, RemoveNodeError>)
        requires
            old(self).wf(),
        ensures
            final(self).wf(),
            final(self)@ == (CtxView { graph: final(self)@.graph, ..old(self)@ }),
            AudioGraph::node_removed(old(self)@.graph, node_id, final(self)@.graph, result),
    {
        self.graph.remove_node(node_id)
    }

    /// Get information about a node in the graph.
    pub fn node_info(&self, id: NodeID) -> (entry: Option<&NodeEntry<N>>)
        requires
            self.wf(),
        ensures
            match entry {
                Some(n) => self@.graph.nodes.contains_key(id.0) && *n == self@.graph.nodes[id.0],
                None => !self@.graph.nodes.contains_key(id.0),
            },
    {
        self.graph.node_info(id)
    }

    /// Write access to what constructs and updates the processor of a node.
    pub fn node_mut(&mut self, id: NodeID) -> (node: Option<&mut N>)
        requires
            old(self).wf(),
        ensures
            final(self).wf(),
            match node {
                Some(n) => old(self)@.graph.nodes.contains_key(id.0) && *n
                    == old(self)@.graph.nodes[id.0].dyn_node && final(self)@ == (CtxView {
                    graph: GraphView {
                        nodes: old(self)@.graph.nodes.insert(
                            id.0,
                            NodeEntry { dyn_node: *final(n), ..old(self)@.graph.nodes[id.0] },
                        ),
                        ..old(self)@.graph
                    },
                    ..old(self)@
                }),
                None => !old(self)@.graph.nodes.contains_key(id.0) && final(self)@ == old(self)@,
            },
    {
        self.graph.node_mut(id)
    }

    /// Get a list of all the existing nodes in the graph.
    pub fn nodes(&self) -> (list: Vec<NodeID>)
        requires
            self.wf(),
        ensures
            list@.map_values(|n: NodeID| n.0) == slot_order(self@.graph.nodes.dom()),
    {
        self.graph.nodes()
    }

    /// Get a list of all the existing edges in the graph.
    pub fn edges(&self) -> (list: Vec<Edge>)
        requires
            self.wf(),
        ensures
            list@ == slot_order(self@.graph.edges.dom()).map_values(
                |e: u64| self@.graph.edges[e],
            ),
    {
        self.graph.edges()
    }

    /// Set the number of input and output channels to and from the audio graph.
    ///
    /// Returns the list of edges that were removed.
    pub fn set_graph_channel_config(&mut self, channel_config: ChannelConfig) -> (removed: SmallList)
        requires
            old(self).wf(),
        ensures
            final(self).wf(),
            final(self)@ == (CtxView { graph: final(self)@.graph, ..old(self)@ }),
            AudioGraph::channels_set(
                old(self)@.graph,
                channel_config,
                final(self)@.graph,
                removed,
            ),
    {
        self.graph.set_graph_channel_config(channel_config)
    }

    /// Add connections (edges) between two nodes to the graph.
    ///
    /// * `src_node` - The ID of the source node.
    /// * `dst_node` - The ID of the destination node.
    /// * `ports_src_dst` - The port indices for each connection to make,
    /// where the first value in a tuple is the output port on `src_node`,
    /// and the second value in that tuple is the input port on `dst_node`.
    /// * `check_for_cycles` - If `true`, then this will run a check to
    /// see if adding these edges will create a cycle in the graph, and
    /// return an error if it does. Note, checking for cycles can be quite
    /// expensive, so avoid enabling this when calling this method many times
    /// in a row.
    ///
    /// If successful, then this returns a list of edge IDs in order.
    ///
    /// If this returns an error, then the audio graph has not been
    /// modified.
    pub fn connect(
        &mut self,
        src_node: NodeID,
        dst_node: NodeID,
        ports_src_dst: &[(PortIdx, PortIdx)],
        check_for_cycles: bool,
    ) -> (result: Result<SmallList, AddEdgeError>)
        requires
            old(self).wf(),
            old(self)@.graph.edges.len() + ports_src_dst@.len() <= 0xFFFF_FFFF,
        ensures
            final(self).wf(),
            final(self)@ == (CtxView { graph: final(self)@.graph, ..old(self)@ }),
            AudioGraph::connected(
                old(self)@.graph,
                src_node,
                dst_node,
                ports_src_dst@,
                check_for_cycles,
                final(self)@.graph,
                result,
            ),
    {
        self.graph.connect(src_node, dst_node, ports_src_dst, check_for_cycles)
    }

    /// Remove connections (edges) between two nodes from the graph.
    ///
    /// * `src_node` - The ID of the source node.
    /// * `dst_node` - The ID of the destination node.
    /// * `ports_src_dst` - The port indices for each connection to make,
    /// where the first value in a tuple is the output port on `src_node`,
    /// and the second value in that tuple is the input port on `dst_node`.
    ///
    /// If none of the edges existed in the graph, then `false` will be
    /// returned.
    pub fn disconnect(
        &mut self,
        src_node: NodeID,
        dst_node: NodeID,
        ports_src_dst: &[(PortIdx, PortIdx)],
    ) -> (any_removed: bool)
        requires
            old(self).wf(),
        ensures
            final(self).wf(),
            final(self)@ == (CtxView { graph: final(self)@.graph, ..old(self)@ }),
            AudioGraph::disconnected(
                old(self)@.graph,
                src_node,
                dst_node,
                ports_src_dst@,
                final(self)@.graph,
                any_removed,
            ),
    {
        self.graph.disconnect(src_node, dst_node, ports_src_dst)
    }

    /// Remove all connections (edges) between two nodes in the graph.
    ///
    /// * `src_node` - The ID of the source node.
    /// * `dst_node` - The ID of the destination node.
    pub fn disconnect_all_between(&mut self, src_node: NodeID, dst_node: NodeID) -> (removed:
        SmallList)
        requires
            old(self).wf(),
        ensures
            final(self).wf(),
            removed@ == (EdgePattern::Between { src: src_node, dst: dst_node }).among(
                old(self)@.graph.edges,
            ),
            removed@.no_duplicates(),
            forall|e: u64| #[trigger]
                removed@.contains(e) <==> old(self)@.graph.edges.contains_key(e)
                    && old(self)@.graph.edges[e].src_node == src_node
                    && old(self)@.graph.edges[e].dst_node == dst_node,
            final(self)@ == (CtxView {
                graph: GraphView {
                    edges: old(self)@.graph.edges.remove_keys(removed@.to_set()),
                    needs_compile: old(self)@.graph.needs_compile || removed@.len() > 0,
                    ..old(self)@.graph
                },
                ..old(self)@
            }),
    {
        self.graph.disconnect_all_between(src_node, dst_node)
    }

    /// Remove a connection (edge) via the edge's unique ID.
    ///
    /// If the edge did not exist in this graph, then `false` will be returned.
    pub fn disconnect_by_edge_id(&mut self, edge_id: EdgeID) -> (removed: bool)
        requires
            old(self).wf(),
        ensures
            final(self).wf(),
            removed == old(self)@.graph.edges.contains_key(edge_id.0),
            final(self)@ == (CtxView {
                graph: GraphView {
                    edges: old(self)@.graph.edges.remove(edge_id.0),
                    needs_compile: old(self)@.graph.needs_compile || removed,
                    ..old(self)@.graph
                },
                ..old(self)@
            }),
    {
        self.graph.disconnect_by_edge_id(edge_id)
    }

    /// Get information about the given [Edge]
    pub fn edge(&self, edge_id: EdgeID) -> (edge: Option<&Edge>)
        requires
            self.wf(),
        ensures
            match edge {
                Some(e) => self@.graph.edges.contains_key(edge_id.0) && *e
                    == self@.graph.edges[edge_id.0],
                None => !self@.graph.edges.contains_key(edge_id.0),
            },
    {
        self.graph.edge(edge_id)
    }

    /// Runs a check to see if a cycle exists in the audio graph.
    ///
    /// Note, this method is expensive.
    pub fn cycle_detected(&self) -> (detected: bool)
        requires
            self.wf(),
        ensures
            detected == has_cycle(self@.graph.edges),
    {
        self.graph.cycle_detected()
    }
}

/// An event queue acquired from [`FirewheelCtx::event_queue`].
///
/// This can help reduce event queue allocations
/// when you have direct access to the context.
#[verifier::reject_recursive_types(N)]
#[verifier::reject_recursive_types(P)]
#[verifier::reject_recursive_types(E)]
#[verifier::reject_recursive_types(T)]
#[verifier::reject_recursive_types(X)]
pub struct ContextQueue<'a, N, P, E, T, X> {
    /// The context.
    pub context: &'a mut FirewheelCtx<N, P, E, T, X>,
    /// The node that receives the events.
    pub id: NodeID,
    /// The time of the events.
    pub time: Option<EventInstant>,
}

impl<N, P, E, T, X> FirewheelCtx<N, P, E, T, X> {
    /// Construct an [`ContextQueue`] for diffing.
    pub fn event_queue(&mut self, id: NodeID) -> (queue: ContextQueue<'_, N, P, E, T, X>)
        ensures
            *queue.context == *old(self),
            queue.id == id,
            queue.time is None,
            *final(queue.context) == *final(self),
    {
        ContextQueue { context: self, id, time: None }
    }

    /// Construct an [`ContextQueue`] whose events are scheduled at a time.
    pub fn event_queue_scheduled(&mut self, id: NodeID, time: Option<EventInstant>) -> (queue:
        ContextQueue<'_, N, P, E, T, X>)
        ensures
            *queue.context == *old(self),
            queue.id == id,
            queue.time == time,
            *final(queue.context) == *final(self),
    {
        ContextQueue { context: self, id, time }
    }
}

impl<'a, N, P, E, T, X> ContextQueue<'a, N, P, E, T, X> {
    /// The time of the events.
    pub fn time(&self) -> (time: Option<EventInstant>)
        ensures
            time == self.time,
    {
        self.time
    }
}

impl<'a, N, P, E, T, X> EventQueue<E> for ContextQueue<'a, N, P, E, T, X> {
    closed spec fn events(&self) -> Seq<NodeEventType<E>> {
        self.context@.events.map_values(|e: NodeEvent<E>| e.event)
    }

    fn push(&mut self, data: NodeEventType<E>)
        ensures
            final(self).id == old(self).id,
            final(self).time == old(self).time,
            *final(final(self).context) == *final(old(self).context),
            old(self).context.wf() ==> final(self).context.wf(),
            final(self).context@ == (CtxView {
                events: old(self).context@.events.push(
                    NodeEvent {
                        node_id: old(self).id,
                        time: old(self).time,
                        event: data,
                    },
                ),
                ..old(self).context@
            }),
    {
        let ghost events = self.context@.events;
        self.context.queue_event(NodeEvent { node_id: self.id, time: self.time, event: data });
        assert(self.events() =~= events.map_values(|e: NodeEvent<E>| e.event).push(data));
    }
}

/// A context that was to send a message, after it was `accepted` or not.
pub open spec fn offered<N, P, E, T, X>(
    view: CtxView<N, P, E, T, X>,
    msg: ContextToProcessorMsg<P, E, T>,
    accepted: bool,
) -> CtxView<N, P, E, T, X> {
    CtxView {
        outbox: if accepted {
            view.outbox.accepted(msg)
        } else {
            view.outbox.refused(msg)
        },
        ..view
    }
}

/// Whether a transport state was to be sent: a copy of it was sent and another one is kept,
/// or the channel had no room for it and the state stays.
pub open spec fn transport_synced<N, P, E, T: Clone, X, SE>(
    before: CtxView<N, P, E, T, X>,
    transport: T,
    after: CtxView<N, P, E, T, X>,
    result: Result<(), UpdateError<SE>>,
) -> bool {
    exists|message: T| #[trigger]
        cloned(transport, message) && {
            let msg = ContextToProcessorMsg::SetTransportState(message);
            match result {
                Ok(_) => cloned(transport, after.transport) && after == (CtxView {
                    transport: after.transport,
                    ..offered(before, msg, true)
                }),
                Err(e) => e == UpdateError::<SE>::MsgChannelFull && after == offered(
                    before,
                    msg,
                    false,
                ),
            }
        }
}

/// A context whose stream was stopped.
pub open spec fn stopped<N, P, E, T, X>(view: CtxView<N, P, E, T, X>) -> CtxView<N, P, E, T, X> {
    CtxView {
        graph: GraphView { needs_compile: true, ..view.graph },
        stream: None,
        ..view
    }
}

/// What an update does: it takes back what the audio thread has returned. Then it stops
/// a running stream if the backend reports an error or if the audio thread has given its
/// processor back; or else, while a stream is running, it compiles the graph if it has
/// changed.
pub open spec fn update_done<N, P, E, T, X, SE>(
    view: CtxView<N, P, E, T, X>,
    backend_status: Result<(), SE>,
    after: CtxView<N, P, E, T, X>,
    result: Result<Option<ScheduleHeapData>, UpdateError<SE>>,
) -> bool {
    let before = CtxView { inbox: after.inbox, ..view };
    &&& view.inbox.drained(after.inbox)
    &&& match result {
        Ok(schedule) => {
            &&& before.stream is Some ==> backend_status is Ok
            &&& match schedule {
                Some(data) => {
                    &&& before.stream is Some
                    &&& before.graph.needs_compile
                    &&& !has_cycle(before.graph.edges)
                    &&& AudioGraph::compiled(
                        before.graph,
                        before.stream->0.max_block_frames as usize,
                        after.graph,
                        data,
                    )
                    &&& after == (CtxView { graph: after.graph, ..before })
                },
                None => {
                    &&& before.stream is None || !before.graph.needs_compile
                    &&& after == before
                },
            }
        },
        Err(UpdateError::GraphCompileError(e)) => {
            &&& before.stream is Some
            &&& backend_status is Ok
            &&& before.graph.needs_compile
            &&& has_cycle(before.graph.edges)
            &&& e == CompileGraphError::CycleDetected
            &&& after == before
        },
        Err(UpdateError::StreamStoppedUnexpectedly(e)) => {
            &&& before.stream is Some
            &&& match backend_status {
                Err(status) => e == Some(status),
                Ok(_) => e is None,
            }
            &&& after == stopped(before)
        },
        Err(UpdateError::MsgChannelFull) => false,
    }
}

/// What flushing the queues does: without a stream nothing; or else the requests
/// are sent as `clear_msg`, then the events as `event_msg`, and what could not be sent
/// stays queued.
pub open spec fn flushed_as<N, P, E, T, X, SE>(
    before: CtxView<N, P, E, T, X>,
    after: CtxView<N, P, E, T, X>,
    result: Result<(), UpdateError<SE>>,
    clear_msg: ContextToProcessorMsg<P, E, T>,
    event_msg: ContextToProcessorMsg<P, E, T>,
) -> bool {
    let has_clears = before.clears.len() > 0;
    let has_events = before.events.len() > 0;
    let cleared = CtxView {
        clears: Seq::empty(),
        ..if has_clears {
            offered(before, clear_msg, true)
        } else {
            before
        }
    };
    &&& clear_msg matches ContextToProcessorMsg::ClearScheduledEvents(msgs) && msgs@
        == before.clears
    &&& event_msg matches ContextToProcessorMsg::EventGroup(events) && events@ == before.events
    &&& if before.stream is None {
        after == before && result is Ok
    } else {
        match result {
            Ok(_) => after == (CtxView {
                events: Seq::empty(),
                ..if has_events {
                    offered(cleared, event_msg, true)
                } else {
                    cleared
                }
            }),
            Err(e) => {
                &&& e == UpdateError::<SE>::MsgChannelFull
                &&& (has_clears && after == offered(before, clear_msg, false)) || (has_events
                    && after == offered(cleared, event_msg, false))
            },
        }
    }
}

/// What flushing the queues does, for some messages that hold what was queued.
pub open spec fn flushed<N, P, E, T, X, SE>(
    before: CtxView<N, P, E, T, X>,
    after: CtxView<N, P, E, T, X>,
    result: Result<(), UpdateError<SE>>,
) -> bool {
    exists|clear_msg: ContextToProcessorMsg<P, E, T>, event_msg: ContextToProcessorMsg<P, E, T>|
        #[trigger]
        flushed_as(before, after, result, clear_msg, event_msg)
}

/// Whether an audio stream can be started, given whether one is running and
/// whether the last one has been dropped.
pub fn start_stream_check(running: bool, can_start: bool) -> (result: Result<(), StartStreamError>)
    ensures
        result == (if running {
            Err(StartStreamError::AlreadyStarted)
        } else if !can_start {
            Err(StartStreamError::OldStreamNotFinishedStopping)
        } else {
            Ok(())
        }),
{
    if running {
        return Err(StartStreamError::AlreadyStarted);
    }
    if !can_start {
        return Err(StartStreamError::OldStreamNotFinishedStopping);
    }
    Ok(())
}

} // verus!
