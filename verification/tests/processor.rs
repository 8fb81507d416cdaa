use firewheel::channel::channel;
use firewheel::channel_config::{ChannelConfig, ChannelCount};
use firewheel::clock::{EventInstant, InstantMusical, InstantSamples};
use firewheel::context::{ClearScheduledEventsType, FirewheelConfig};
use firewheel::event::{NodeEvent, NodeEventType};
use firewheel::graph::{AudioGraph, ScheduleHeapData};
use firewheel::id_table::IdTable;
use firewheel::mask::SilenceMask;
use firewheel::node::{AudioNodeInfo, NodeID, ProcessStatus};
use firewheel::processor::event_scheduler::SubChunk;
use firewheel::processor::inner::{
    ContextToProcessorMsg, FirewheelProcessorInner, NodeHeapData, ProcSchedule,
    ProcessorToContextMsg,
};
use firewheel::processor::poll::PollError;
use firewheel::processor::process::{apply_action, BlockStatus, OutputAction};
use firewheel::processor::sub_chunks::run_sub_chunks;
use firewheel::processor::{BufferOutOfSpaceMode, ClearScheduledEventsEvent};

type Processor = FirewheelProcessorInner<&'static str, u32>;
type Msg = ContextToProcessorMsg<&'static str, u32, i64>;
type Reply = ProcessorToContextMsg<&'static str, u32, i64>;

const MAX_BLOCK_FRAMES: u32 = 32;

fn processor(mode: BufferOutOfSpaceMode, capacity: usize) -> Processor {
    FirewheelProcessorInner::new(
        capacity,
        capacity,
        capacity,
        44100,
        MAX_BLOCK_FRAMES,
        false,
        mode,
        false,
    )
}

fn info() -> AudioNodeInfo {
    let two = ChannelCount::new(2).unwrap();
    AudioNodeInfo::new("test", ChannelConfig { num_inputs: two, num_outputs: two })
}

fn update_of(data: ScheduleHeapData) -> ProcSchedule<&'static str> {
    ProcSchedule {
        schedule: data.schedule,
        nodes_to_remove: data.nodes_to_remove,
        removed_nodes: Vec::new(),
        new_node_processors: data
            .new_node_processors
            .iter()
            .map(|id| NodeHeapData { id: *id, processor: "processor" })
            .collect(),
        new_node_arena: data.new_arena_capacity.map(IdTable::with_capacity),
    }
}

/// A transport with so many samples per beat, and the time at which it was set. Without any
/// it does not play.
type Transport = (i64, InstantSamples);

fn set(transport: Transport, samples_per_beat: i64, at: InstantSamples) -> (Transport, i64) {
    ((samples_per_beat, at), transport.0)
}

fn to_samples(transport: &Transport, time: EventInstant) -> Option<InstantSamples> {
    match time {
        EventInstant::Samples(t) => Some(t),
        EventInstant::Seconds(_) => Some(InstantSamples(0)),
        EventInstant::Musical(_) if transport.0 == 0 => None,
        EventInstant::Musical(m) => Some(InstantSamples(m.0 as i64 * transport.0)),
    }
}

fn at(node: NodeID, time: i64, value: u32) -> NodeEvent<u32> {
    let time = EventInstant::Samples(InstantSamples(time));
    NodeEvent::scheduled(node, time, NodeEventType::Custom(value))
}

fn musical(node: NodeID, time: u64, value: u32) -> NodeEvent<u32> {
    let time = EventInstant::Musical(InstantMusical(time));
    NodeEvent::scheduled(node, time, NodeEventType::Custom(value))
}

fn now(node: NodeID, value: u32) -> NodeEvent<u32> {
    NodeEvent::new(node, NodeEventType::Custom(value))
}

fn poll(processor: &mut Processor, msgs: Vec<Msg>, transport: Transport) -> (Result<Vec<Reply>, PollError>, Transport) {
    let (mut tx, mut rx) = channel(8);
    let (mut reply_tx, mut reply_rx) = channel(8);
    for msg in msgs {
        assert!(tx.try_push(msg).is_ok());
    }
    let (result, transport) =
        processor.poll_messages(&mut rx, &mut reply_tx, transport, &set, &to_samples);
    (result.map(|_| reply_rx.pop_all()), transport)
}

fn send(processor: &mut Processor, msg: Msg) -> Result<Option<Reply>, PollError> {
    let (replies, _) = poll(processor, vec![msg], (1, InstantSamples(0)));
    Ok(replies?.pop())
}

/// A processor with two nodes besides those of the graph.
fn with_nodes(mode: BufferOutOfSpaceMode, capacity: usize) -> (Processor, AudioGraph<()>, NodeID, NodeID) {
    let mut graph: AudioGraph<()> = AudioGraph::new(&FirewheelConfig::default(), (), ());
    let a = graph.add_node(info(), ());
    let b = graph.add_node(info(), ());
    graph.connect(a, b, &[(0, 0)], true).unwrap();
    let mut processor = processor(mode, capacity);
    let update = update_of(graph.compile(MAX_BLOCK_FRAMES as usize).unwrap());
    assert!(processor.fits(&update));
    let reply = send(&mut processor, Msg::NewSchedule(update)).unwrap();
    assert!(reply.is_none());
    (processor, graph, a, b)
}

fn values(chunk: &SubChunk<u32>) -> Vec<u32> {
    chunk.events.iter().map(|e| *e.event.downcast_ref().unwrap()).collect()
}

/// The sub-chunks of a node in the next block: start, end, time and events.
fn chunks_of(processor: &mut Processor, node: NodeID, frames: usize, clock: i64) -> Vec<(usize, usize, i64, Vec<u32>)> {
    let blocks = processor.process_block(frames, InstantSamples(clock)).unwrap();
    let block = blocks.iter().find(|b| b.id == node).unwrap();
    block.chunks.iter().map(|c| (c.start, c.end, c.clock_samples.0, values(c))).collect()
}

#[test]
fn schedule_comes_into_use() {
    let (mut processor, mut graph, a, b) = with_nodes(BufferOutOfSpaceMode::default(), 8);
    assert_eq!(processor.node_ids().len(), 4);
    *processor.processor_mut(a).unwrap() = "changed";
    graph.remove_node(a).unwrap();
    let c = graph.add_node(info(), ());
    let update = update_of(graph.compile(MAX_BLOCK_FRAMES as usize).unwrap());
    let reply = send(&mut processor, Msg::NewSchedule(update)).unwrap();
    match reply {
        Some(ProcessorToContextMsg::ReturnSchedule(old)) => {
            assert_eq!(old.removed_nodes.len(), 1);
            assert_eq!(old.removed_nodes[0].id, a);
            assert_eq!(old.removed_nodes[0].processor, "changed");
            assert_eq!(old.schedule.schedule.len(), 4);
        }
        _ => panic!("the schedule is returned"),
    }
    assert!(processor.processor_mut(a).is_none());
    assert!(processor.processor_mut(b).is_some());
    assert!(processor.processor_mut(c).is_some());
    let blocks = processor.process_block(8, InstantSamples(0)).unwrap();
    let order: Vec<NodeID> = blocks.iter().map(|b| b.id).collect();
    assert_eq!(order.len(), 4);
    assert_eq!(order[0], graph.graph_in_node());
    assert_eq!(order[3], graph.graph_out_node());
}

#[test]
fn nodes_of_a_refused_schedule_stay() {
    let (mut processor, mut graph, a, b) = with_nodes(BufferOutOfSpaceMode::default(), 8);
    graph.remove_node(a).unwrap();
    let refused = graph.compile(MAX_BLOCK_FRAMES as usize).unwrap();
    graph.on_schedule_send_failed(&refused);
    let update = update_of(graph.compile(MAX_BLOCK_FRAMES as usize).unwrap());
    assert!(update.nodes_to_remove.is_empty());
    assert!(processor.fits(&update));
    assert!(send(&mut processor, Msg::NewSchedule(update)).is_ok());
    assert!(processor.processor_mut(a).is_some());
    assert!(processor.processor_mut(b).is_some());
    // It is not processed, and its events pass.
    let events = vec![now(a, 1), at(a, 3, 2), at(a, 40, 3), now(b, 4)];
    send(&mut processor, Msg::EventGroup(events)).unwrap();
    let blocks = processor.process_block(32, InstantSamples(0)).unwrap();
    assert_eq!(blocks.len(), 3);
    assert!(blocks.iter().all(|block| block.id != a));
    assert_eq!(values(&blocks.iter().find(|x| x.id == b).unwrap().chunks[0]), vec![4]);
    assert_eq!(chunks_of(&mut processor, b, 32, 32), vec![(0, 32, 32, vec![])]);
    // A node that takes its slot cannot come beside it.
    let c = graph.add_node(info(), ());
    assert_eq!(c.0 % 0x1_0000_0000, a.0 % 0x1_0000_0000);
    let update = update_of(graph.compile(MAX_BLOCK_FRAMES as usize).unwrap());
    assert!(!processor.fits(&update));
    assert_eq!(send(&mut processor, Msg::NewSchedule(update)).err(), Some(PollError::MessageMisfit));
}

#[test]
fn nothing_is_processed_without_a_schedule() {
    let mut processor = processor(BufferOutOfSpaceMode::default(), 8);
    assert!(processor.process_block(32, InstantSamples(0)).unwrap().is_empty());
}

#[test]
fn schedule_that_does_not_fit_is_refused() {
    let (mut processor, mut graph, a, _) = with_nodes(BufferOutOfSpaceMode::default(), 8);
    // A schedule for blocks of another size.
    graph.deactivate();
    let update = update_of(graph.compile(7).unwrap());
    assert!(!processor.fits(&update));
    // A new node that has a processor already.
    let mut update = update_of(graph.compile(MAX_BLOCK_FRAMES as usize).unwrap());
    update.new_node_processors.push(NodeHeapData { id: a, processor: "again" });
    assert!(!processor.fits(&update));
    assert_eq!(send(&mut processor, Msg::NewSchedule(update)).err(), Some(PollError::MessageMisfit));
    assert!(processor.poisoned());
}

#[test]
fn block_without_scheduled_events_is_one_chunk() {
    let (mut processor, _, a, b) = with_nodes(BufferOutOfSpaceMode::default(), 8);
    send(&mut processor, Msg::EventGroup(vec![now(a, 1), now(b, 2), now(a, 3)])).unwrap();
    let blocks = processor.process_block(32, InstantSamples(100)).unwrap();
    let mine = blocks.iter().find(|x| x.id == a).unwrap();
    assert_eq!(mine.chunks.len(), 1);
    assert_eq!((mine.chunks[0].start, mine.chunks[0].end), (0, 32));
    assert_eq!(values(&mine.chunks[0]), vec![1, 3]);
    let other = blocks.iter().find(|x| x.id == b).unwrap();
    assert_eq!(values(&other.chunks[0]), vec![2]);
    assert_eq!(chunks_of(&mut processor, a, 32, 132), vec![(0, 32, 132, vec![])]);
}

#[test]
fn scheduled_events_are_sample_accurate() {
    let (mut processor, _, a, _) = with_nodes(BufferOutOfSpaceMode::default(), 16);
    let events = vec![at(a, 120, 4), at(a, 110, 2), now(a, 9), at(a, 50, 1), at(a, 110, 3), at(a, 140, 5)];
    let reply = send(&mut processor, Msg::EventGroup(events)).unwrap();
    assert!(matches!(reply, Some(ProcessorToContextMsg::ReturnEventGroup(list)) if list.is_empty()));
    assert_eq!(
        chunks_of(&mut processor, a, 32, 100),
        vec![(0, 10, 100, vec![1, 9]), (10, 20, 110, vec![2, 3]), (20, 32, 120, vec![4])]
    );
    assert_eq!(
        chunks_of(&mut processor, a, 32, 132),
        vec![(0, 8, 132, vec![]), (8, 32, 140, vec![5])]
    );
    assert_eq!(chunks_of(&mut processor, a, 16, 164), vec![(0, 16, 164, vec![])]);
}

#[test]
fn many_clumps_of_immediate_events_are_found() {
    let (mut processor, _, a, b) = with_nodes(BufferOutOfSpaceMode::default(), 4);
    let mut events = Vec::new();
    for i in 0..40 {
        events.push(now(if i % 2 == 0 { a } else { b }, i));
    }
    send(&mut processor, Msg::EventGroup(events)).unwrap();
    let chunks = chunks_of(&mut processor, b, 8, 0);
    assert_eq!(chunks[0].3, (0..40).filter(|i| i % 2 == 1).collect::<Vec<u32>>());
}

#[test]
fn events_for_unknown_nodes_are_ignored() {
    let (mut processor, mut graph, a, _) = with_nodes(BufferOutOfSpaceMode::default(), 8);
    send(&mut processor, Msg::EventGroup(vec![at(a, 40, 1)])).unwrap();
    graph.remove_node(a).unwrap();
    let update = update_of(graph.compile(MAX_BLOCK_FRAMES as usize).unwrap());
    send(&mut processor, Msg::NewSchedule(update)).unwrap();
    send(&mut processor, Msg::EventGroup(vec![at(a, 41, 2), now(a, 3)])).unwrap();
    let blocks = processor.process_block(32, InstantSamples(32)).unwrap();
    assert!(blocks.iter().all(|b| b.chunks.len() == 1 && b.chunks[0].events.is_empty()));
}

#[test]
fn full_buffers_drop_events() {
    let (mut processor, _, a, _) = with_nodes(BufferOutOfSpaceMode::DropEvents, 2);
    send(&mut processor, Msg::EventGroup(vec![now(a, 1), now(a, 2), now(a, 3)])).unwrap();
    assert_eq!(chunks_of(&mut processor, a, 8, 0)[0].3, vec![1, 2]);
    let events = vec![at(a, 9, 1), at(a, 9, 2), at(a, 9, 3)];
    send(&mut processor, Msg::EventGroup(events)).unwrap();
    assert_eq!(chunks_of(&mut processor, a, 8, 8)[1].3, vec![1, 2]);
}

#[test]
fn full_buffers_grow() {
    let (mut processor, _, a, _) = with_nodes(BufferOutOfSpaceMode::AllocateOnAudioThread, 1);
    send(&mut processor, Msg::EventGroup(vec![now(a, 1), now(a, 2), now(a, 3)])).unwrap();
    send(&mut processor, Msg::EventGroup(vec![at(a, 3, 4), at(a, 3, 5), at(a, 3, 6)])).unwrap();
    assert_eq!(
        chunks_of(&mut processor, a, 8, 0),
        vec![(0, 3, 0, vec![1, 2, 3]), (3, 8, 3, vec![4, 5, 6])]
    );
}

#[test]
fn empty_buffers_grow() {
    let (mut processor, _, a, _) = with_nodes(BufferOutOfSpaceMode::AllocateOnAudioThread, 0);
    send(&mut processor, Msg::EventGroup(vec![at(a, 3, 4), now(a, 1)])).unwrap();
    send(&mut processor, Msg::EventGroup(vec![at(a, 3, 5), at(a, 3, 6)])).unwrap();
    assert_eq!(
        chunks_of(&mut processor, a, 8, 0),
        vec![(0, 3, 0, vec![1]), (3, 8, 3, vec![4, 5, 6])]
    );
}

#[test]
fn full_buffers_fail_if_asked_to() {
    let (mut processor, _, a, _) = with_nodes(BufferOutOfSpaceMode::Panic, 2);
    let events = vec![now(a, 1), now(a, 2), now(a, 3)];
    assert_eq!(
        send(&mut processor, Msg::EventGroup(events)).err(),
        Some(PollError::EventBufferFull)
    );
    assert!(processor.poisoned());
}

fn clear(node_id: Option<NodeID>, event_type: ClearScheduledEventsType) -> Msg {
    Msg::ClearScheduledEvents(vec![ClearScheduledEventsEvent { node_id, event_type }])
}

#[test]
fn cleared_events_are_gone() {
    let fill = |a: NodeID, b: NodeID| {
        Msg::EventGroup(vec![at(a, 5, 1), musical(a, 6, 2), at(b, 7, 3), musical(b, 8, 4)])
    };
    let run = |msg: fn(NodeID) -> Msg| {
        let (mut processor, _, a, b) = with_nodes(BufferOutOfSpaceMode::default(), 8);
        send(&mut processor, fill(a, b)).unwrap();
        send(&mut processor, msg(a)).unwrap();
        let blocks = processor.process_block(32, InstantSamples(0)).unwrap();
        let mut found: Vec<u32> =
            blocks.iter().flat_map(|x| x.chunks.iter().flat_map(values)).collect();
        found.sort();
        found
    };
    assert_eq!(run(|_| clear(None, ClearScheduledEventsType::All)), vec![]);
    assert_eq!(run(|_| clear(None, ClearScheduledEventsType::MusicalOnly)), vec![1, 3]);
    assert_eq!(run(|_| clear(None, ClearScheduledEventsType::NonMusicalOnly)), vec![2, 4]);
    assert_eq!(run(|a| clear(Some(a), ClearScheduledEventsType::All)), vec![3, 4]);
    assert_eq!(run(|a| clear(Some(a), ClearScheduledEventsType::MusicalOnly)), vec![1, 3, 4]);
    assert_eq!(run(|a| clear(Some(a), ClearScheduledEventsType::NonMusicalOnly)), vec![2, 3, 4]);
    assert_eq!(
        run(|_| clear(Some(NodeID(99 << 32)), ClearScheduledEventsType::All)),
        vec![1, 2, 3, 4]
    );
}

#[test]
fn transport_state_is_set_in_order() {
    let (mut processor, _, a, _) = with_nodes(BufferOutOfSpaceMode::default(), 8);
    assert!(processor.begin_process(5, 0, 0).is_some());
    let msgs = vec![
        Msg::EventGroup(vec![musical(a, 4, 1), at(a, 6, 2)]),
        Msg::SetTransportState(3),
        Msg::EventGroup(vec![musical(a, 5, 3)]),
        Msg::SetTransportState(2),
    ];
    let (replies, transport) = poll(&mut processor, msgs, (0, InstantSamples(0)));
    let replies = replies.unwrap();
    assert_eq!(replies.len(), 4);
    assert!(matches!(replies[1], Reply::ReturnTransportState(0)));
    assert!(matches!(replies[3], Reply::ReturnTransportState(3)));
    assert_eq!(transport, (2, InstantSamples(5)));
    assert_eq!(
        chunks_of(&mut processor, a, 16, 0),
        vec![(0, 6, 0, vec![]), (6, 8, 6, vec![2]), (8, 10, 8, vec![1]), (10, 16, 10, vec![3])]
    );
    // Without a transport, events at musical times never come.
    let msgs = vec![Msg::EventGroup(vec![musical(a, 10, 4)]), Msg::SetTransportState(0)];
    let (replies, transport) = poll(&mut processor, msgs, transport);
    assert_eq!(replies.unwrap().len(), 2);
    assert_eq!(transport.0, 0);
    assert_eq!(chunks_of(&mut processor, a, 32, 16), vec![(0, 32, 16, vec![])]);
    let msgs = vec![Msg::SetTransportState(6)];
    poll(&mut processor, msgs, transport).0.unwrap();
    assert_eq!(
        chunks_of(&mut processor, a, 32, 48),
        vec![(0, 12, 48, vec![]), (12, 32, 60, vec![4])]
    );
}

#[test]
fn musical_events_follow_the_transport() {
    let (mut processor, _, a, _) = with_nodes(BufferOutOfSpaceMode::default(), 8);
    send(&mut processor, Msg::EventGroup(vec![musical(a, 4, 1), at(a, 6, 2)])).unwrap();
    processor.set_transport_state(Some(&|m: InstantMusical| InstantSamples(m.0 as i64 * 2)));
    assert_eq!(
        chunks_of(&mut processor, a, 16, 0),
        vec![(0, 6, 0, vec![]), (6, 8, 6, vec![2]), (8, 16, 8, vec![1])]
    );
    send(&mut processor, Msg::EventGroup(vec![musical(a, 20, 3)])).unwrap();
    processor.set_transport_state(None::<&fn(InstantMusical) -> InstantSamples>);
    assert_eq!(chunks_of(&mut processor, a, 32, 16), vec![(0, 32, 16, vec![])]);
}

#[test]
fn new_sample_rate_moves_events() {
    let (mut processor, _, a, _) = with_nodes(BufferOutOfSpaceMode::default(), 8);
    send(&mut processor, Msg::EventGroup(vec![at(a, 10, 1)])).unwrap();
    let double = |t: InstantSamples| InstantSamples(t.0 * 2);
    assert!(processor.begin_process(3, 0, 0).is_some());
    assert_eq!(processor.new_stream(44100, MAX_BLOCK_FRAMES, &double), (false, false));
    assert_eq!(processor.clock_samples(), InstantSamples(3));
    assert_eq!(processor.new_stream(88200, MAX_BLOCK_FRAMES, &double), (true, false));
    assert_eq!(processor.clock_samples(), InstantSamples(6));
    assert_eq!(
        chunks_of(&mut processor, a, 26, 6),
        vec![(0, 14, 6, vec![]), (14, 26, 20, vec![1])]
    );
}

#[test]
fn stream_is_processed_in_blocks() {
    let (mut processor, _, _, _) = with_nodes(BufferOutOfSpaceMode::default(), 8);
    let mut blocks = processor.begin_process(70, 3, 9).unwrap();
    assert_eq!(processor.clock_samples(), InstantSamples(70));
    let mut sizes = Vec::new();
    while let Some(frames) = blocks.next_block() {
        sizes.push((frames, blocks.clock_samples.0, blocks.stream_status, blocks.dropped_frames));
        blocks.advance(frames);
    }
    assert_eq!(sizes, vec![(32, 0, 3, 9), (32, 32, 0, 0), (6, 64, 0, 0)]);
    assert!(processor.begin_process(0, 0, 0).is_none());
    let mut empty = self::processor(BufferOutOfSpaceMode::default(), 8);
    assert!(empty.begin_process(8, 0, 0).is_none());
    assert_eq!(empty.clock_samples(), InstantSamples(8));
}

#[test]
fn hard_clip_is_switched() {
    let (mut processor, _, _, _) = with_nodes(BufferOutOfSpaceMode::default(), 8);
    assert!(!processor.hard_clip_outputs());
    assert!(send(&mut processor, Msg::HardClipOutputs(true)).unwrap().is_none());
    assert!(processor.hard_clip_outputs());
    assert!(!processor.debug_force_clear_buffers());
}

fn modified(silent: &[usize]) -> ProcessStatus {
    let mut mask = SilenceMask::none_silent();
    for ch in silent {
        mask.set_channel(*ch, true);
    }
    ProcessStatus::OutputsModified { out_silence_mask: mask }
}

#[test]
fn equal_statuses_are_handed_on() {
    let mut status = BlockStatus::new(SilenceMask::none_silent(), 2);
    for _ in 0..3 {
        let actions = status.on_sub_chunk(ProcessStatus::Bypass);
        assert_eq!((actions.before, actions.here), (OutputAction::Keep, OutputAction::Keep));
    }
    assert_eq!(status.finish(), ProcessStatus::Bypass);
}

#[test]
fn different_statuses_are_merged() {
    let mut in_mask = SilenceMask::none_silent();
    in_mask.set_channel(1, true);
    let mut status = BlockStatus::new(in_mask, 2);
    let first = status.on_sub_chunk(ProcessStatus::ClearAllOutputs);
    assert_eq!((first.before, first.here), (OutputAction::Keep, OutputAction::Keep));
    let second = status.on_sub_chunk(ProcessStatus::Bypass);
    assert_eq!((second.before, second.here), (OutputAction::Clear, OutputAction::CopyInputs));
    let third = status.on_sub_chunk(modified(&[0, 1]));
    assert_eq!((third.before, third.here), (OutputAction::Keep, OutputAction::Keep));
    match status.finish() {
        ProcessStatus::OutputsModified { out_silence_mask } => {
            assert!(!out_silence_mask.is_channel_silent(0));
            assert!(out_silence_mask.is_channel_silent(1));
        }
        _ => panic!("the outputs are modified"),
    }
}

#[test]
fn outputs_hold_what_each_sub_chunk_asked_for() {
    let input = [1, 2, 3, 4, 5, 6];
    let mut output = [9; 6];
    let mut status = BlockStatus::new(SilenceMask::none_silent(), 1);
    let statuses = [ProcessStatus::ClearAllOutputs, ProcessStatus::Bypass, modified(&[])];
    for (i, s) in statuses.iter().enumerate() {
        let (start, end) = (i * 2, i * 2 + 2);
        if i == 2 {
            output[4] = 70;
            output[5] = 80;
        }
        let actions = status.on_sub_chunk(*s);
        apply_action(actions.before, Some(&input), &mut output, 0, start, 0);
        apply_action(actions.here, Some(&input), &mut output, start, end, 0);
    }
    assert!(matches!(status.finish(), ProcessStatus::OutputsModified { .. }));
    assert_eq!(output, [0, 0, 3, 4, 70, 80]);
    apply_action(OutputAction::CopyInputs, None, &mut output, 2, 5, 0);
    assert_eq!(output, [0, 0, 0, 0, 0, 80]);
}

#[test]
fn node_is_processed_in_sub_chunks() {
    let inputs: [&[i32]; 1] = [&[1, 2, 3, 4, 5, 6]];
    let statuses = [ProcessStatus::ClearAllOutputs, ProcessStatus::Bypass, modified(&[1])];
    let node = |i: usize, mut outputs: Vec<Vec<i32>>| {
        for (ch, output) in outputs.iter_mut().enumerate() {
            for f in i * 2..i * 2 + 2 {
                output[f] = (10 * f + ch) as i32;
            }
        }
        (outputs, statuses[i])
    };
    let mut in_mask = SilenceMask::none_silent();
    in_mask.set_channel(1, true);
    let outputs = vec![vec![9; 7], vec![9; 7]];
    let (outputs, status, _) =
        run_sub_chunks(&node, &vec![2, 4, 6], &inputs, outputs.clone(), in_mask, 0);
    assert_eq!(outputs, vec![vec![0, 0, 3, 4, 40, 50, 9], vec![0, 0, 0, 0, 41, 51, 9]]);
    match status {
        ProcessStatus::OutputsModified { out_silence_mask } => {
            assert!(!out_silence_mask.is_channel_silent(0));
            assert!(out_silence_mask.is_channel_silent(1));
        }
        _ => panic!("the outputs are modified"),
    }
    let bypass = |_: usize, outputs: Vec<Vec<i32>>| (outputs, ProcessStatus::Bypass);
    let (outputs, status, _) =
        run_sub_chunks(&bypass, &vec![1, 6], &inputs, vec![vec![9; 6]; 2], in_mask, 0);
    assert_eq!(outputs, vec![vec![1, 2, 3, 4, 5, 6], vec![0; 6]]);
    assert_eq!(status, ProcessStatus::Bypass);
    let clear = |_: usize, outputs: Vec<Vec<i32>>| (outputs, ProcessStatus::ClearAllOutputs);
    let (outputs, status, _) =
        run_sub_chunks(&clear, &vec![6], &inputs, vec![vec![9; 6]; 2], in_mask, 0);
    assert_eq!(outputs, vec![vec![0; 6]; 2]);
    assert_eq!(status, ProcessStatus::ClearAllOutputs);
}
