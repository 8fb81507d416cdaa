use firewheel::channel::{channel, shared};
use firewheel::channel_config::{ChannelConfig, ChannelCount};
use firewheel::clock::{EventInstant, InstantSamples};
use firewheel::context::{
    start_stream_check, ClearScheduledEventsType, FirewheelConfig, FirewheelCtx, OpenedStream,
    ProcessorChannel, StartStreamError, StreamInfo, UpdateError,
};
use firewheel::diff::EventQueue;
use firewheel::event::NodeEventType;
use firewheel::graph::compiler::CompileGraphError;
use firewheel::graph::ScheduleHeapData;
use firewheel::id_table::IdTable;
use firewheel::node::AudioNodeInfo;
use firewheel::processor::inner::{
    ContextToProcessorMsg, FirewheelProcessorInner, NodeHeapData, ProcSchedule,
    ProcessorToContextMsg,
};
use firewheel::processor::BufferOutOfSpaceMode;

type Ctx = FirewheelCtx<&'static str, u8, u32, u16, &'static str>;
type Thread = ProcessorChannel<u8, u32, u16>;

fn ctx(channel_capacity: u32) -> Ctx {
    let config = FirewheelConfig { channel_capacity, ..FirewheelConfig::default() };
    FirewheelCtx::new(config, "in", "out", 120)
}

fn fade_frames(seconds: u32, rate: u32) -> u32 {
    (f32::from_bits(seconds) * rate as f32).round() as u32
}

fn info() -> AudioNodeInfo {
    let two = ChannelCount::new(2).unwrap();
    AudioNodeInfo::new("test", ChannelConfig { num_inputs: two, num_outputs: two })
}

fn opened() -> OpenedStream {
    OpenedStream {
        sample_rate: 44100,
        max_block_frames: 32,
        num_stream_in_channels: 0,
        num_stream_out_channels: 2,
    }
}

fn update_of(data: &ScheduleHeapData, schedule: firewheel::graph::compiler::CompiledSchedule) -> ProcSchedule<u8> {
    ProcSchedule {
        schedule,
        nodes_to_remove: data.nodes_to_remove.clone(),
        removed_nodes: Vec::new(),
        new_node_processors: data
            .new_node_processors
            .iter()
            .map(|id| NodeHeapData { id: *id, processor: 1 })
            .collect(),
        new_node_arena: data.new_arena_capacity.map(IdTable::with_capacity),
    }
}

fn split(data: ScheduleHeapData) -> (ProcSchedule<u8>, ScheduleHeapData) {
    let rest = ScheduleHeapData {
        schedule: firewheel::graph::compiler::CompiledSchedule {
            schedule: Vec::new(),
            num_buffers: 0,
            max_block_frames: data.schedule.max_block_frames,
            graph_in_node_id: data.schedule.graph_in_node_id,
        },
        nodes_to_remove: data.nodes_to_remove,
        new_node_processors: data.new_node_processors,
        new_arena_capacity: data.new_arena_capacity,
    };
    (update_of(&rest, data.schedule), rest)
}

fn start(ctx: &mut Ctx) -> (Thread, StreamInfo, firewheel::channel::Sender<&'static str>) {
    let started = ctx.start_stream(opened(), &fade_frames).unwrap();
    let thread = started.processor_channel.unwrap();
    let (schedule, _) = split(started.schedule);
    let (drop_tx, drop_rx) = channel(1);
    assert!(ctx.stream_started(started.stream_info, schedule, drop_rx).is_ok());
    (thread, started.stream_info, drop_tx)
}

#[test]
fn stream_starts_and_stops() {
    let mut ctx = ctx(8);
    assert!(!ctx.is_audio_stream_running());
    assert!(ctx.can_start_stream());
    assert!(ctx.check_start_stream().is_ok());
    let (_, info, mut drop_tx) = start(&mut ctx);
    assert_eq!(info.declick_frames, 441);
    assert_eq!(info.prev_sample_rate, 44100);
    assert_eq!(info.max_block_frames, 32);
    assert_eq!(ctx.stream_info(), Some(&info));
    assert!(ctx.is_audio_stream_running());
    assert_eq!(ctx.check_start_stream(), Err(StartStreamError::AlreadyStarted));
    ctx.stop_stream();
    assert!(!ctx.is_audio_stream_running());
    assert!(ctx.stream_info().is_none());
    assert_eq!(ctx.check_start_stream(), Err(StartStreamError::OldStreamNotFinishedStopping));
    assert!(drop_tx.try_push("processor").is_ok());
    assert!(ctx.can_start_stream());
    assert!(ctx.check_start_stream().is_ok());
    assert_eq!(ctx.take_returned(), Some("processor"));
    let again = ctx.start_stream(OpenedStream { sample_rate: 48000, ..opened() }, &fade_frames).unwrap();
    assert!(again.processor_channel.is_none());
    assert_eq!(again.stream_info.prev_sample_rate, 44100);
    assert_eq!(again.stream_info.declick_frames, 480);
}

#[test]
fn start_stream_errors_are_told_apart() {
    assert_eq!(start_stream_check(true, true), Err(StartStreamError::AlreadyStarted));
    assert_eq!(start_stream_check(true, false), Err(StartStreamError::AlreadyStarted));
    assert_eq!(
        start_stream_check(false, false),
        Err(StartStreamError::OldStreamNotFinishedStopping)
    );
    assert_eq!(start_stream_check(false, true), Ok(()));
    let mut ctx = ctx(8);
    let a = ctx.add_node(info(), "a");
    let b = ctx.add_node(info(), "b");
    ctx.connect(a, b, &[(0, 0)], false).unwrap();
    ctx.connect(b, a, &[(0, 0)], false).unwrap();
    assert!(ctx.cycle_detected());
    assert_eq!(
        ctx.start_stream(opened(), &fade_frames).err(),
        Some(StartStreamError::GraphCompileError(CompileGraphError::CycleDetected))
    );
    // A start that failed does not use up the context.
    assert!(!ctx.is_audio_stream_running());
    assert!(ctx.can_start_stream());
    assert!(ctx.disconnect(b, a, &[(0, 0)]));
    let (mut thread, _, _drop_tx) = start(&mut ctx);
    assert!(ctx.is_audio_stream_running());
    assert!(thread.from_context_rx.try_pop().is_some());
}

#[test]
fn queued_events_reach_the_processor() {
    let mut ctx = ctx(8);
    let a = ctx.add_node(info(), "a");
    ctx.queue_event_for(a, NodeEventType::Custom(1));
    ctx.schedule_event_for(
        a,
        NodeEventType::Custom(2),
        Some(EventInstant::Samples(InstantSamples(5))),
    );
    ctx.event_queue(a).push(NodeEventType::Custom(3));
    let late = EventInstant::Samples(InstantSamples(9));
    {
        let mut queue = ctx.event_queue_scheduled(a, Some(late));
        assert_eq!(queue.time(), Some(late));
        queue.push(NodeEventType::Custom(4));
    }
    // Without a stream nothing is sent.
    assert!(ctx.flush_queues::<()>().is_ok());
    let (mut thread, _, _drop_tx) = start(&mut ctx);
    assert!(ctx.flush_queues::<()>().is_ok());
    let mut processor: FirewheelProcessorInner<u8, u32> = FirewheelProcessorInner::new(
        8,
        8,
        8,
        44100,
        32,
        false,
        BufferOutOfSpaceMode::Panic,
        false,
    );
    let set = |(): (), state: u16, _: InstantSamples| ((), state);
    let to_samples = |_: &(), _: EventInstant| None;
    processor
        .poll_messages(
            &mut thread.from_context_rx,
            &mut thread.to_context_tx,
            (),
            &set,
            &to_samples,
        )
        .0
        .unwrap();
    let blocks = processor.process_block(32, InstantSamples(0)).unwrap();
    let block = blocks.iter().find(|b| b.id == a).unwrap();
    let found: Vec<Vec<u32>> = block
        .chunks
        .iter()
        .map(|c| c.events.iter().map(|e| *e.event.downcast_ref().unwrap()).collect())
        .collect();
    assert_eq!(found, vec![vec![1, 3], vec![2], vec![4]]);
    // The list comes back and is used again.
    assert!(matches!(ctx.update::<()>(Ok(())), Ok(None)));
}

#[test]
fn refused_messages_stay_queued() {
    let mut ctx = ctx(1);
    let a = ctx.add_node(info(), "a");
    let (mut thread, _, _drop_tx) = start(&mut ctx);
    ctx.queue_event_for(a, NodeEventType::Custom(1));
    ctx.cancel_all_scheduled_events(ClearScheduledEventsType::All);
    ctx.cancel_scheduled_events_for(a, ClearScheduledEventsType::MusicalOnly);
    // The schedule fills the channel.
    assert!(matches!(ctx.flush_queues::<()>(), Err(UpdateError::MsgChannelFull)));
    assert!(matches!(
        thread.from_context_rx.try_pop(),
        Some(ContextToProcessorMsg::NewSchedule(_))
    ));
    assert!(matches!(ctx.flush_queues::<()>(), Err(UpdateError::MsgChannelFull)));
    match thread.from_context_rx.try_pop() {
        Some(ContextToProcessorMsg::ClearScheduledEvents(msgs)) => {
            assert_eq!(msgs.len(), 2);
            assert_eq!(msgs[0].node_id, None);
            assert_eq!(msgs[1].node_id, Some(a));
            assert_eq!(msgs[1].event_type, ClearScheduledEventsType::MusicalOnly);
        }
        _ => panic!("the requests are sent first"),
    }
    assert!(ctx.flush_queues::<()>().is_ok());
    assert!(matches!(
        thread.from_context_rx.try_pop(),
        Some(ContextToProcessorMsg::EventGroup(events)) if events.len() == 1
    ));
    assert!(ctx.flush_queues::<()>().is_ok());
    assert!(thread.from_context_rx.try_pop().is_none());
}

#[test]
fn changed_graph_is_sent_again() {
    let mut ctx = ctx(2);
    let (mut thread, _, _drop_tx) = start(&mut ctx);
    assert!(matches!(ctx.update::<()>(Ok(())), Ok(None)));
    let a = ctx.add_node(info(), "a");
    let data = ctx.update::<()>(Ok(())).unwrap().unwrap();
    assert_eq!(data.new_node_processors, vec![a]);
    let (schedule, data) = split(data);
    assert!(ctx.send_schedule::<()>(schedule, &data).is_ok());
    let b = ctx.add_node(info(), "b");
    let (schedule, data) = split(ctx.update::<()>(Ok(())).unwrap().unwrap());
    assert!(matches!(
        ctx.send_schedule::<()>(schedule, &data),
        Err(UpdateError::MsgChannelFull)
    ));
    while thread.from_context_rx.try_pop().is_some() {}
    let data = ctx.update::<()>(Ok(())).unwrap().unwrap();
    assert_eq!(data.new_node_processors, vec![b]);
    assert!(thread
        .to_context_tx
        .try_push(ProcessorToContextMsg::ReturnEventGroup(Vec::new()))
        .is_ok());
    assert!(matches!(ctx.update::<()>(Ok(())), Ok(None)));
}

#[test]
fn failed_stream_is_stopped() {
    let mut ctx = ctx(8);
    let (_thread, _, _drop_tx) = start(&mut ctx);
    match ctx.update(Err("backend")) {
        Err(UpdateError::StreamStoppedUnexpectedly(Some(e))) => assert_eq!(e, "backend"),
        _ => panic!("the stream has failed"),
    }
    assert!(!ctx.is_audio_stream_running());
    let mut other = self::ctx(8);
    let (_thread, _, mut drop_tx) = start(&mut other);
    assert!(drop_tx.try_push("processor").is_ok());
    assert!(matches!(
        other.update::<()>(Ok(())),
        Err(UpdateError::StreamStoppedUnexpectedly(None))
    ));
    assert!(!other.is_audio_stream_running());
    assert!(matches!(other.update(Err(())), Ok(None)));
}

#[test]
fn cycle_is_reported_on_update() {
    let mut ctx = ctx(8);
    let (_thread, _, _drop_tx) = start(&mut ctx);
    let a = ctx.add_node(info(), "a");
    let b = ctx.add_node(info(), "b");
    ctx.connect(a, b, &[(0, 0)], false).unwrap();
    ctx.connect(b, a, &[(0, 0)], false).unwrap();
    assert!(matches!(
        ctx.update::<()>(Ok(())),
        Err(UpdateError::GraphCompileError(CompileGraphError::CycleDetected))
    ));
    assert!(ctx.is_audio_stream_running());
}

#[test]
fn hard_clip_is_sent_once() {
    let mut ctx = ctx(8);
    let (mut thread, _, _drop_tx) = start(&mut ctx);
    thread.from_context_rx.try_pop();
    assert!(!ctx.hard_clip_outputs());
    assert!(ctx.set_hard_clip_outputs::<()>(false).is_ok());
    assert!(thread.from_context_rx.try_pop().is_none());
    assert!(ctx.set_hard_clip_outputs::<()>(true).is_ok());
    assert!(ctx.hard_clip_outputs());
    assert!(matches!(
        thread.from_context_rx.try_pop(),
        Some(ContextToProcessorMsg::HardClipOutputs(true))
    ));
}

#[test]
fn refused_hard_clip_is_sent_again() {
    let mut ctx = ctx(1);
    let (mut thread, _, _drop_tx) = start(&mut ctx);
    // The schedule fills the channel.
    assert!(matches!(
        ctx.set_hard_clip_outputs::<()>(true),
        Err(UpdateError::MsgChannelFull)
    ));
    assert!(!ctx.hard_clip_outputs());
    thread.from_context_rx.try_pop();
    assert!(ctx.set_hard_clip_outputs::<()>(true).is_ok());
    assert!(ctx.hard_clip_outputs());
    assert!(matches!(
        thread.from_context_rx.try_pop(),
        Some(ContextToProcessorMsg::HardClipOutputs(true))
    ));
}

#[test]
fn graph_is_reached_through_the_context() {
    let mut ctx = ctx(8);
    let a = ctx.add_node(info(), "a");
    let out = ctx.graph_out_node_id();
    assert_eq!(ctx.nodes(), vec![ctx.graph_in_node_id(), out, a]);
    let ids = ctx.connect(a, out, &[(0, 0), (1, 1)], true).unwrap();
    assert_eq!(ctx.edges().len(), 2);
    assert_eq!(ctx.edge(firewheel::graph::topology::EdgeID(ids.get(0))).unwrap().src_node, a);
    assert!(ctx.disconnect(a, out, &[(0, 0)]));
    assert!(ctx.disconnect_by_edge_id(firewheel::graph::topology::EdgeID(ids.get(1))));
    assert!(ctx.disconnect_all_between(a, out).is_empty());
    assert_eq!(ctx.node_info(a).unwrap().dyn_node, "a");
    *ctx.node_mut(a).unwrap() = "b";
    assert_eq!(ctx.node_info(a).unwrap().dyn_node, "b");
    assert!(ctx.nodes_to_update().is_empty());
    ctx.set_graph_channel_config(ChannelConfig {
        num_inputs: ChannelCount::zero(),
        num_outputs: ChannelCount::mono(),
    });
    let num = ctx.node_info(out).unwrap().info.channel_config.num_inputs.get();
    assert_eq!(num, 1);
    assert!(ctx.remove_node(a).unwrap().is_empty());
    assert!(ctx.node_info(a).is_none());
}

#[test]
fn channel_keeps_order_and_hands_back() {
    let (mut tx, mut rx) = channel::<u8>(2);
    assert!(!rx.has_message());
    assert_eq!(tx.try_push(1), Ok(()));
    assert_eq!(tx.try_push(2), Ok(()));
    assert_eq!(tx.try_push(3), Err(3));
    assert!(rx.has_message());
    assert_eq!(rx.try_pop(), Some(1));
    assert_eq!(tx.try_push(4), Ok(()));
    assert_eq!(rx.try_pop(), Some(2));
    assert_eq!(rx.try_pop(), Some(4));
    assert_eq!(rx.try_pop(), None);
}

#[test]
fn shared_value_is_the_latest() {
    let (mut input, mut output) = shared(&1u8);
    assert_eq!(*output.read(), 1);
    input.write(2);
    input.write(3);
    assert_eq!(*output.read(), 3);
}

#[test]
fn transport_is_synced_when_it_changes() {
    let mut ctx = ctx(2);
    assert_eq!(*ctx.transport_state(), 120);
    let (mut thread, _, _drop_tx) = start(&mut ctx);
    assert!(ctx.sync_transport::<()>(&120).is_ok());
    assert!(ctx.sync_transport::<()>(&90).is_ok());
    assert_eq!(*ctx.transport(), 90);
    // The schedule and the state fill the channel.
    assert!(matches!(
        ctx.sync_transport::<()>(&60),
        Err(UpdateError::MsgChannelFull)
    ));
    assert_eq!(*ctx.transport_state(), 90);
    assert!(matches!(
        thread.from_context_rx.try_pop(),
        Some(ContextToProcessorMsg::NewSchedule(_))
    ));
    assert!(ctx.sync_transport::<()>(&60).is_ok());
    assert!(matches!(
        thread.from_context_rx.try_pop(),
        Some(ContextToProcessorMsg::SetTransportState(90))
    ));
    assert!(matches!(
        thread.from_context_rx.try_pop(),
        Some(ContextToProcessorMsg::SetTransportState(60))
    ));
    assert!(thread.from_context_rx.try_pop().is_none());
}

#[test]
fn fades_have_the_configured_length() {
    let config = FirewheelConfig::default();
    assert_eq!(config.declick_seconds, (10.0f32 / 1_000.0).to_bits());
    let frames_of = |seconds: f32, sample_rate: u32| {
        let config = FirewheelConfig { declick_seconds: seconds.to_bits(), ..config };
        let mut ctx: Ctx = FirewheelCtx::new(config, "in", "out", 120);
        let opened = OpenedStream { sample_rate, ..opened() };
        ctx.start_stream(opened, &fade_frames).unwrap().stream_info.declick_frames
    };
    assert_eq!(frames_of(0.0, 44100), 1);
    assert_eq!(frames_of(0.000001, 44100), 1);
    assert_eq!(frames_of(0.25, 48000), 12000);
    assert_eq!(frames_of(0.0125, 44100), 551);
}

#[test]
fn all_returned_messages_are_taken() {
    let mut ctx = ctx(2);
    let (mut thread, _, _drop_tx) = start(&mut ctx);
    for _ in 0..3 {
        for _ in 0..3 {
            let list = ProcessorToContextMsg::ReturnEventGroup(Vec::new());
            assert!(thread.to_context_tx.try_push(list).is_ok());
        }
        assert!(thread.to_context_tx.try_push(ProcessorToContextMsg::ReturnTransportState(1)).is_ok());
        let list = ProcessorToContextMsg::ReturnEventGroup(Vec::new());
        assert!(thread.to_context_tx.try_push(list).is_err());
        assert!(matches!(ctx.update::<()>(Ok(())), Ok(None)));
    }
    let (mut tx, mut rx) = channel::<u8>(4);
    for i in 1..4 {
        assert_eq!(tx.try_push(i), Ok(()));
    }
    assert_eq!(rx.pop_all(), vec![1, 2, 3]);
    assert!(rx.pop_all().is_empty());
}
