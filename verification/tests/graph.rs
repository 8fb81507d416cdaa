use firewheel::channel_config::{ChannelConfig, ChannelCount};
use firewheel::context::FirewheelConfig;
use firewheel::graph::compiler::{CompileGraphError, CompiledSchedule};
use firewheel::graph::topology::EdgeID;
use firewheel::graph::{AddEdgeError, AudioGraph, RemoveNodeError};
use firewheel::node::{AudioNodeInfo, NodeID};
use std::collections::HashMap;

fn channels(num: u32) -> ChannelCount {
    ChannelCount::new(num).unwrap()
}

fn config(num_inputs: u32, num_outputs: u32) -> FirewheelConfig {
    FirewheelConfig {
        num_graph_inputs: channels(num_inputs),
        num_graph_outputs: channels(num_outputs),
        ..FirewheelConfig::default()
    }
}

fn info(num_inputs: u32, num_outputs: u32) -> AudioNodeInfo {
    AudioNodeInfo::new(
        "test",
        ChannelConfig { num_inputs: channels(num_inputs), num_outputs: channels(num_outputs) },
    )
}

fn graph(num_inputs: u32, num_outputs: u32) -> AudioGraph<&'static str> {
    AudioGraph::new(&config(num_inputs, num_outputs), "in", "out")
}

/// Runs a schedule on numbers. Each output port of each node gets a number of its own;
/// returns what each node received at its input ports.
fn run(schedule: &CompiledSchedule) -> HashMap<u64, Vec<u64>> {
    let mut buffers = vec![0xDEAD_0000_0000u64; schedule.num_buffers];
    let mut received = HashMap::new();
    for (i, node) in schedule.schedule.iter().enumerate() {
        for sum in node.sum_inputs.iter() {
            let total: u64 =
                sum.input_buffers.as_slice().iter().map(|b| buffers[*b as usize]).sum();
            buffers[sum.output_buffer.buffer_index] = total;
        }
        for input in node.input_buffers.iter() {
            if input.should_clear {
                buffers[input.buffer_index] = 0;
            }
        }
        let inputs: Vec<u64> =
            node.input_buffers.iter().map(|b| buffers[b.buffer_index]).collect();
        received.insert(node.id.0, inputs);
        for (port, output) in node.output_buffers.iter().enumerate() {
            buffers[output.buffer_index] = number(i, port);
        }
    }
    received
}

fn number(position: usize, port: usize) -> u64 {
    1u64 << (position * 4 + port)
}

fn position(schedule: &CompiledSchedule, id: NodeID) -> usize {
    schedule.schedule.iter().position(|n| n.id == id).unwrap()
}

/// Checks that every input port receives the sum of what its edges carry, and that every
/// node comes after its sources.
fn check(graph: &AudioGraph<&'static str>, schedule: &CompiledSchedule) {
    assert_eq!(schedule.schedule.len(), graph.nodes().len());
    assert_eq!(schedule.schedule[0].id, graph.graph_in_node());
    assert_eq!(schedule.schedule.last().unwrap().id, graph.graph_out_node());
    let received = run(schedule);
    for id in graph.nodes() {
        let num = graph.node_info(id).unwrap().info.channel_config.num_inputs.get();
        for port in 0..num {
            let mut expected = 0;
            for edge in graph.edges() {
                if edge.dst_node == id && edge.dst_port == port {
                    let from = position(schedule, edge.src_node);
                    assert!(from < position(schedule, id));
                    expected += number(from, edge.src_port as usize);
                }
            }
            assert_eq!(received[&id.0][port as usize], expected);
        }
    }
}

#[test]
fn new_graph_has_its_two_nodes() {
    let graph = graph(1, 2);
    assert_eq!(graph.nodes(), vec![graph.graph_in_node(), graph.graph_out_node()]);
    assert!(graph.edges().is_empty());
    assert!(graph.needs_compile());
    let node = graph.node_info(graph.graph_in_node()).unwrap();
    assert_eq!(node.dyn_node, "in");
    assert_eq!(node.info.debug_name, "graph_in");
    assert_eq!(node.info.channel_config.num_outputs.get(), 1);
    let node = graph.node_info(graph.graph_out_node()).unwrap();
    assert_eq!(node.info.debug_name, "graph_out");
    assert_eq!(node.info.channel_config.num_inputs.get(), 2);
}

#[test]
fn default_config_is_as_documented() {
    let config = FirewheelConfig::default();
    assert_eq!(config.initial_node_capacity, 64);
    assert_eq!(config.initial_edge_capacity, 256);
    assert_eq!(config.channel_capacity, 64);
    assert_eq!(f32::from_bits(config.declick_seconds), 10.0 / 1_000.0);
    assert_eq!(config.num_graph_inputs.get(), 0);
    assert_eq!(config.num_graph_outputs.get(), 2);
}

#[test]
fn schedule_routes_every_edge() {
    let mut graph = graph(2, 2);
    let a = graph.add_node(info(2, 2), "a");
    let b = graph.add_node(info(2, 1), "b");
    let c = graph.add_node(info(3, 2), "c");
    let graph_in = graph.graph_in_node();
    let graph_out = graph.graph_out_node();
    graph.connect(graph_in, a, &[(0, 0), (1, 1)], true).unwrap();
    graph.connect(graph_in, c, &[(0, 0)], true).unwrap();
    graph.connect(a, b, &[(0, 0), (1, 0)], true).unwrap();
    graph.connect(b, c, &[(0, 1)], true).unwrap();
    graph.connect(a, c, &[(1, 1)], true).unwrap();
    graph.connect(c, graph_out, &[(0, 0), (1, 1)], true).unwrap();
    graph.connect(a, graph_out, &[(0, 1)], true).unwrap();
    let data = graph.compile(64).unwrap();
    check(&graph, &data.schedule);
    assert_eq!(data.schedule.max_block_frames, 64);
    assert_eq!(data.schedule.graph_in_node_id, graph_in);
    assert_eq!(data.new_node_processors.len(), 5);
    assert!(!graph.needs_compile());
    let c_node = &data.schedule.schedule[position(&data.schedule, c)];
    assert!(c_node.in_connected_mask.is_channel_connected(0));
    assert!(c_node.in_connected_mask.is_channel_connected(1));
    assert!(!c_node.in_connected_mask.is_channel_connected(2));
    assert_eq!(c_node.sum_inputs.len(), 1);
}

#[test]
fn long_chain_reuses_buffers() {
    let mut graph = graph(1, 1);
    let mut last = graph.graph_in_node();
    for _ in 0..10 {
        let next = graph.add_node(info(1, 1), "n");
        graph.connect(last, next, &[(0, 0)], false).unwrap();
        last = next;
    }
    let out = graph.graph_out_node();
    graph.connect(last, out, &[(0, 0)], false).unwrap();
    let data = graph.compile(1).unwrap();
    check(&graph, &data.schedule);
    assert_eq!(data.schedule.num_buffers, 2);
    // There were never more nodes at once, so there is room for another one.
    assert_eq!(data.new_arena_capacity, Some(12));
    assert!(graph.compile(1).unwrap().new_arena_capacity.is_none());
    graph.remove_node(last).unwrap();
    graph.add_node(info(1, 1), "n");
    assert!(graph.compile(1).unwrap().new_arena_capacity.is_none());
    graph.add_node(info(1, 1), "n");
    assert_eq!(graph.compile(1).unwrap().new_arena_capacity, Some(13));
}

#[test]
fn unconnected_inputs_are_cleared() {
    let mut graph = graph(0, 2);
    let a = graph.add_node(info(2, 2), "a");
    let data = graph.compile(8).unwrap();
    check(&graph, &data.schedule);
    assert_eq!(run(&data.schedule)[&a.0], vec![0, 0]);
}

#[test]
fn connect_reports_each_error() {
    let mut graph = graph(0, 2);
    let a = graph.add_node(info(1, 1), "a");
    let b = graph.add_node(info(1, 1), "b");
    let gone = graph.add_node(info(1, 1), "gone");
    graph.remove_node(gone).unwrap();
    let err = |r: Result<_, AddEdgeError>| match r {
        Ok(_) => panic!("it is an error"),
        Err(e) => e,
    };
    assert_eq!(err(graph.connect(gone, b, &[(0, 0)], true)), AddEdgeError::SrcNodeNotFound(gone));
    assert_eq!(err(graph.connect(a, gone, &[(0, 0)], true)), AddEdgeError::DstNodeNotFound(gone));
    assert_eq!(
        err(graph.connect(a, b, &[(0, 0), (3, 0)], true)),
        AddEdgeError::OutPortOutOfRange { node: a, port_idx: 3, num_out_ports: channels(1) }
    );
    assert_eq!(
        err(graph.connect(a, b, &[(0, 1)], true)),
        AddEdgeError::InPortOutOfRange { node: b, port_idx: 1, num_in_ports: channels(1) }
    );
    assert_eq!(err(graph.connect(a, a, &[(0, 0)], false)), AddEdgeError::CycleDetected);
    graph.connect(a, b, &[(0, 0)], true).unwrap();
    assert_eq!(err(graph.connect(b, a, &[(0, 0)], true)), AddEdgeError::CycleDetected);
    // A graph is not modified by an error.
    assert_eq!(graph.edges().len(), 1);
    assert!(!graph.cycle_detected());
}

#[test]
fn unchecked_cycle_fails_to_compile() {
    let mut graph = graph(0, 2);
    let a = graph.add_node(info(1, 1), "a");
    let b = graph.add_node(info(1, 1), "b");
    graph.connect(a, b, &[(0, 0)], false).unwrap();
    graph.connect(b, a, &[(0, 0)], false).unwrap();
    assert!(graph.cycle_detected());
    assert!(matches!(graph.compile(16), Err(CompileGraphError::CycleDetected)));
    assert!(graph.needs_compile());
    graph.disconnect(b, a, &[(0, 0)]);
    assert!(graph.compile(16).is_ok());
}

#[test]
fn connecting_twice_returns_the_same_edges() {
    let mut graph = graph(0, 2);
    let a = graph.add_node(info(2, 2), "a");
    let out = graph.graph_out_node();
    let first = graph.connect(a, out, &[(0, 0), (1, 1)], true).unwrap();
    let second = graph.connect(a, out, &[(0, 0), (1, 1)], true).unwrap();
    assert_eq!(first.as_slice(), second.as_slice());
    assert_eq!(first.len(), 2);
    assert_eq!(graph.edges().len(), 2);
    let edge = graph.edge(EdgeID(first.get(1))).unwrap();
    assert_eq!((edge.src_node, edge.src_port, edge.dst_node, edge.dst_port), (a, 1, out, 1));
}

#[test]
fn disconnect_undoes_connect() {
    let mut graph = graph(0, 2);
    let a = graph.add_node(info(2, 2), "a");
    let out = graph.graph_out_node();
    graph.connect(a, out, &[(0, 1)], true).unwrap();
    let before: Vec<_> = graph.edges();
    graph.connect(a, out, &[(0, 0), (1, 1)], true).unwrap();
    assert!(graph.disconnect(a, out, &[(0, 0), (1, 1)]));
    assert_eq!(graph.edges(), before);
    assert!(!graph.disconnect(a, out, &[(0, 0)]));
    let removed = graph.disconnect_all_between(a, out);
    assert_eq!(removed.len(), 1);
    assert!(graph.edges().is_empty());
    assert!(graph.disconnect_all_between(a, out).is_empty());
    let ids = graph.connect(a, out, &[(0, 0)], true).unwrap();
    assert!(graph.disconnect_by_edge_id(EdgeID(ids.get(0))));
    assert!(!graph.disconnect_by_edge_id(EdgeID(ids.get(0))));
    assert!(graph.edge(EdgeID(ids.get(0))).is_none());
}

#[test]
fn removing_a_node_removes_its_edges() {
    let mut graph = graph(1, 1);
    let a = graph.add_node(info(1, 1), "a");
    let b = graph.add_node(info(1, 1), "b");
    let graph_in = graph.graph_in_node();
    let out = graph.graph_out_node();
    let e1 = graph.connect(graph_in, a, &[(0, 0)], true).unwrap().get(0);
    let e2 = graph.connect(a, b, &[(0, 0)], true).unwrap().get(0);
    let e3 = graph.connect(b, out, &[(0, 0)], true).unwrap().get(0);
    graph.compile(8).unwrap();
    let removed = graph.remove_node(a).unwrap();
    assert_eq!(removed.as_slice(), &[e1, e2]);
    assert_eq!(graph.edges().len(), 1);
    assert!(graph.edge(EdgeID(e3)).is_some());
    assert!(graph.node_info(a).is_none());
    assert!(graph.remove_node(a).unwrap().is_empty());
    let data = graph.compile(8).unwrap();
    assert_eq!(data.nodes_to_remove, vec![a]);
    assert!(data.new_node_processors.is_empty());
    assert!(matches!(graph.remove_node(graph_in), Err(RemoveNodeError::CannotRemoveGraphInNode)));
    assert!(matches!(graph.remove_node(out), Err(RemoveNodeError::CannotRemoveGraphOutNode)));
}

#[test]
fn fewer_graph_channels_remove_edges() {
    let mut graph = graph(2, 2);
    let a = graph.add_node(info(2, 2), "a");
    let graph_in = graph.graph_in_node();
    let out = graph.graph_out_node();
    let ins = graph.connect(graph_in, a, &[(0, 0), (1, 1)], true).unwrap();
    let outs = graph.connect(a, out, &[(0, 0), (1, 1)], true).unwrap();
    let removed = graph.set_graph_channel_config(ChannelConfig {
        num_inputs: channels(1),
        num_outputs: channels(1),
    });
    assert_eq!(removed.as_slice(), &[ins.get(1), outs.get(1)]);
    assert_eq!(graph.edges().len(), 2);
    let removed = graph.set_graph_channel_config(ChannelConfig {
        num_inputs: channels(1),
        num_outputs: channels(0),
    });
    assert_eq!(removed.as_slice(), &[outs.get(0)]);
    assert!(graph.edge(EdgeID(ins.get(0))).is_some());
    let data = graph.compile(8).unwrap();
    check(&graph, &data.schedule);
}

#[test]
fn refused_schedule_is_compiled_again() {
    let mut graph = graph(0, 1);
    let a = graph.add_node(info(1, 1), "a");
    graph.compile(8).unwrap();
    let b = graph.add_node(info(1, 1), "b");
    let data = graph.compile(8).unwrap();
    assert_eq!(data.new_node_processors, vec![b]);
    assert!(!graph.needs_compile());
    graph.on_schedule_send_failed(&data);
    assert!(graph.needs_compile());
    assert!(graph.node_info(a).unwrap().processor_constructed);
    assert!(!graph.node_info(b).unwrap().processor_constructed);
    let data = graph.compile(8).unwrap();
    assert_eq!(data.new_node_processors, vec![b]);
}

#[test]
fn nodes_that_want_updates_are_listed() {
    let mut graph = graph(0, 1);
    let mut wants = info(1, 1);
    wants.call_update_method = true;
    let a = graph.add_node(wants, "a");
    let b = graph.add_node(info(1, 1), "b");
    let c = graph.add_node(wants, "c");
    assert_eq!(graph.update(), vec![a, c]);
    graph.remove_node(a).unwrap();
    assert_eq!(graph.update(), vec![c]);
    *graph.node_mut(b).unwrap() = "changed";
    assert_eq!(graph.node_info(b).unwrap().dyn_node, "changed");
    assert!(graph.node_mut(a).is_none());
    graph.deactivate();
    assert!(graph.needs_compile());
}
