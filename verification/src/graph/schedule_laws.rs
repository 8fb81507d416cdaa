//! What a graph is compiled to.

use crate::graph::buffers::{
    all_in_use, held_before, in_port_edges, in_use, node_routed, out_port_edges, sums_before,
    ScheduledNode,
};
use crate::graph::compiler::{incoming_edges, outgoing_edges, CompiledSchedule, NodeEntry};
use crate::graph::topology::Edge;
use crate::graph::{AudioGraph, GraphView, ScheduleHeapData};
use crate::id_table::{are_table_ids, in_slot_order, lemma_slot_order, slot_of, slot_order};
use crate::node::NodeID;
use vstd::prelude::*;

verus! {

/// A schedule processes every node of the graph once, and nothing else: the node of the
/// graph's inputs first, that of its outputs last, and every other under its own name.
pub proof fn law_schedule_processes_each_node_once<N>(
    compiled: CompiledSchedule,
    nodes: Map<u64, NodeEntry<N>>,
    edges: Map<u64, Edge>,
    graph_in: u64,
    graph_out: u64,
    k: u64,
    i: int,
    j: int,
)
    requires
        nodes.contains_key(graph_in),
        compiled.schedules(nodes, edges, graph_in, graph_out),
    ensures
        nodes.contains_key(k) <==> exists|n: int|
            0 <= n < compiled.schedule@.len() && (#[trigger] compiled.schedule@[n]).id.0 == k,
        0 <= i < j < compiled.schedule@.len() ==> compiled.schedule@[i].id
            != compiled.schedule@[j].id,
        compiled.schedule@.len() > 0,
        compiled.schedule@[0].id.0 == graph_in,
        compiled.schedule@.last().id.0 == graph_out,
        compiled.graph_in_node_id.0 == graph_in,
        0 <= i < compiled.schedule@.len() && compiled.schedule@[i].id.0 != graph_out
            ==> compiled.schedule@[i].debug_name@ == nodes[compiled.schedule@[i].id.0].info.debug_name@,
{
    let order = compiled.order();
    assert(order.to_set().contains(k) <==> order.contains(k));
    assert(order.to_set().contains(graph_in));
    assert(order.contains(graph_in));
    if order.contains(k) {
        let n = order.index_of(k);
        assert(compiled.schedule@[n].id.0 == k);
    }
    if exists|n: int|
        0 <= n < compiled.schedule@.len() && (#[trigger] compiled.schedule@[n]).id.0 == k {
        let n = choose|n: int|
            0 <= n < compiled.schedule@.len() && (#[trigger] compiled.schedule@[n]).id.0 == k;
        assert(order[n] == k);
    }
    if 0 <= i < j < compiled.schedule@.len() {
        assert(order[i] != order[j]);
    }
    assert(order[0] == compiled.schedule@[0].id.0);
    assert(order[order.len() - 1] == compiled.schedule@[order.len() - 1].id.0);
}

/// Every node has as many buffers as it has ports. A port that no edge leads to is not
/// connected, and its buffer is cleared; any other is connected, and its buffer is not. A
/// port is told to be connected if an edge comes from it, and only if.
pub proof fn law_ports_are_connected_as_edges_say<N>(
    compiled: CompiledSchedule,
    nodes: Map<u64, NodeEntry<N>>,
    edges: Map<u64, Edge>,
    graph_in: u64,
    graph_out: u64,
    n: int,
    p: int,
)
    requires
        are_table_ids(edges.dom()),
        compiled.schedules(nodes, edges, graph_in, graph_out),
        0 <= n < compiled.schedule@.len(),
    ensures
        ({
            let node = compiled.schedule@[n];
            let config = nodes[node.id.0].info.channel_config;
            let leads_here = |e: u64|
                edges.contains_key(e) && edges[e].dst_node == node.id && edges[e].dst_port == p;
            let comes_from_here = |e: u64|
                edges.contains_key(e) && edges[e].src_node == node.id && edges[e].src_port == p;
            &&& node.input_buffers@.len() == config.num_inputs.spec_get()
            &&& node.output_buffers@.len() == config.num_outputs.spec_get()
            &&& 0 <= p < node.input_buffers@.len() && p <= u32::MAX ==> {
                &&& node.in_connected_mask.connected(p) <==> exists|e: u64| #[trigger]
                    leads_here(e)
                &&& node.input_buffers@[p].should_clear <==> !(exists|e: u64| #[trigger]
                    leads_here(e))
            }
            &&& 0 <= p < node.output_buffers@.len() && p <= u32::MAX ==> (
            node.out_connected_mask.connected(p) <==> exists|e: u64| #[trigger] comes_from_here(e))
        }),
{
    let node = compiled.schedule@[n];
    let id = node.id.0;
    assert(node_routed(
        nodes,
        edges,
        held_before(compiled.schedule@, n),
        node,
        compiled.num_buffers as int,
    ));
    let leads_here = |e: u64|
        edges.contains_key(e) && edges[e].dst_node == node.id && edges[e].dst_port == p;
    let comes_from_here = |e: u64|
        edges.contains_key(e) && edges[e].src_node == node.id && edges[e].src_port == p;
    if 0 <= p < node.input_buffers@.len() && p <= u32::MAX {
        let to_port = in_port_edges(edges, id, p as u32);
        law_edges_of_a_port_are_found(edges, id, p as u32, 0);
        assert(node.input_buffers@[p].buffer_index < compiled.num_buffers);
        if to_port.len() > 0 {
            assert(to_port.contains(to_port[0]));
            law_edges_of_a_port_are_found(edges, id, p as u32, to_port[0]);
            assert(leads_here(to_port[0]));
        }
        if exists|e: u64| #[trigger] leads_here(e) {
            let e = choose|e: u64| #[trigger] leads_here(e);
            law_edges_of_a_port_are_found(edges, id, p as u32, e);
            assert(to_port.contains(e));
        }
    }
    if 0 <= p < node.output_buffers@.len() && p <= u32::MAX {
        let from_port = out_port_edges(edges, id, p as u32);
        assert(node.output_buffers@[p].buffer_index < compiled.num_buffers);
        if from_port.len() > 0 {
            assert(from_port.contains(from_port[0]));
            law_edges_of_a_port_are_found(edges, id, p as u32, from_port[0]);
            assert(comes_from_here(from_port[0]));
        }
        if exists|e: u64| #[trigger] comes_from_here(e) {
            let e = choose|e: u64| #[trigger] comes_from_here(e);
            law_edges_of_a_port_are_found(edges, id, p as u32, e);
            assert(from_port.contains(e));
        }
    }
}

/// The edges that lead to a port are those with that destination, each once, and so are those
/// that come from a port.
pub proof fn law_edges_of_a_port_are_found(edges: Map<u64, Edge>, k: u64, port: u32, e: u64)
    requires
        are_table_ids(edges.dom()),
    ensures
        in_port_edges(edges, k, port).contains(e) <==> edges.contains_key(e)
            && edges[e].dst_node.0 == k && edges[e].dst_port == port,
        out_port_edges(edges, k, port).contains(e) <==> edges.contains_key(e)
            && edges[e].src_node.0 == k && edges[e].src_port == port,
        in_port_edges(edges, k, port).no_duplicates(),
        out_port_edges(edges, k, port).no_duplicates(),
        incoming_edges(edges, k).contains(e) <==> edges.contains_key(e) && edges[e].dst_node.0 == k,
        outgoing_edges(edges, k).contains(e) <==> edges.contains_key(e) && edges[e].src_node.0 == k,
{
    let all = slot_order(edges.dom());
    lemma_slot_order(edges.dom());
    assert(all.to_set().contains(e) <==> all.contains(e));
    lemma_filtered(all, |x: u64| edges[x].dst_node.0 == k, e);
    lemma_filtered(all, |x: u64| edges[x].src_node.0 == k, e);
    lemma_filtered(incoming_edges(edges, k), |x: u64| edges[x].dst_port == port, e);
    lemma_filtered(outgoing_edges(edges, k), |x: u64| edges[x].src_port == port, e);
}

/// A port to which several edges lead has a sum of its own, which adds up as many signals as
/// there are edges.
pub proof fn law_sums_add_up_every_edge<N>(
    compiled: CompiledSchedule,
    nodes: Map<u64, NodeEntry<N>>,
    edges: Map<u64, Edge>,
    graph_in: u64,
    graph_out: u64,
    n: int,
    p: int,
)
    requires
        compiled.schedules(nodes, edges, graph_in, graph_out),
        0 <= n < compiled.schedule@.len(),
        0 <= p < compiled.schedule@[n].input_buffers@.len(),
        in_port_edges(edges, compiled.schedule@[n].id.0, p as u32).len() >= 2,
    ensures
        ({
            let node = compiled.schedule@[n];
            let s = sums_before(edges, node.id.0, p);
            &&& node.sum_inputs@[s].output_buffer.buffer_index
                == node.input_buffers@[p].buffer_index
            &&& node.sum_inputs@[s].input_buffers@.len() == in_port_edges(
                edges,
                node.id.0,
                p as u32,
            ).len()
            &&& forall|q: int|
                0 <= q < node.input_buffers@.len() && q != p
                    ==> (#[trigger] node.input_buffers@[q]).buffer_index
                    != node.input_buffers@[p].buffer_index
        }),
{
    let node = compiled.schedule@[n];
    assert(node_routed(
        nodes,
        edges,
        held_before(compiled.schedule@, n),
        node,
        compiled.num_buffers as int,
    ));
    assert(node.input_buffers@[p].buffer_index < compiled.num_buffers);
}

/// A node has as many sums as it has ports to which several edges lead.
pub proof fn law_one_sum_for_each_port_with_several_edges<N>(
    compiled: CompiledSchedule,
    nodes: Map<u64, NodeEntry<N>>,
    edges: Map<u64, Edge>,
    graph_in: u64,
    graph_out: u64,
    n: int,
)
    requires
        compiled.schedules(nodes, edges, graph_in, graph_out),
        0 <= n < compiled.schedule@.len(),
    ensures
        ({
            let node = compiled.schedule@[n];
            node.sum_inputs@.len() == Seq::new(node.input_buffers@.len(), |p: int| p).filter(
                |p: int| in_port_edges(edges, node.id.0, p as u32).len() >= 2,
            ).len()
        }),
{
    let node = compiled.schedule@[n];
    assert(node_routed(
        nodes,
        edges,
        held_before(compiled.schedule@, n),
        node,
        compiled.num_buffers as int,
    ));
    lemma_count_sums(edges, node.id.0, node.input_buffers@.len() as int);
}

proof fn lemma_count_sums(edges: Map<u64, Edge>, k: u64, n: int)
    requires
        0 <= n,
    ensures
        sums_before(edges, k, n) == Seq::new(n as nat, |p: int| p).filter(
            |p: int| in_port_edges(edges, k, p as u32).len() >= 2,
        ).len(),
    decreases n,
{
    reveal(Seq::filter);
    if n > 0 {
        lemma_count_sums(edges, k, n - 1);
        let ports = Seq::new(n as nat, |p: int| p);
        assert(ports.drop_last() =~= Seq::new((n - 1) as nat, |p: int| p));
        assert(ports.last() == n - 1);
    }
}

/// What a graph is compiled to asks for a processor of each node that has none yet, in the
/// order of their numbers, and removes the nodes that were removed since. A new table of nodes
/// is made if the last one is too small, and only then. After that every node has a
/// processor, and there is nothing more to compile.
pub proof fn law_compiling_brings_the_graph_up_to_date<N>(
    before: GraphView<N>,
    max_block_frames: usize,
    after: GraphView<N>,
    data: ScheduleHeapData,
    k: u64,
    i: int,
    j: int,
)
    requires
        are_table_ids(before.nodes.dom()),
        AudioGraph::<N>::compiled(before, max_block_frames, after, data),
    ensures
        data.new_node_processors@.contains(NodeID(k)) <==> before.nodes.contains_key(k)
            && !before.nodes[k].processor_constructed,
        0 <= i < j < data.new_node_processors@.len() ==> slot_of(data.new_node_processors@[i].0)
            < slot_of(data.new_node_processors@[j].0),
        data.nodes_to_remove@ == before.nodes_to_remove,
        data.schedule.schedules(before.nodes, before.edges, before.graph_in, before.graph_out),
        data.schedule.max_block_frames == max_block_frames,
        data.new_arena_capacity is Some <==> before.positions > before.compiled_positions,
        data.new_arena_capacity is Some ==> data.new_arena_capacity->0 == before.positions,
        after.compiled_positions == before.positions,
        !after.needs_compile,
        after.nodes_to_remove.len() == 0,
        after.nodes.contains_key(k) <==> before.nodes.contains_key(k),
        before.nodes.contains_key(k) ==> after.nodes[k].processor_constructed && after.nodes[k].info
            == before.nodes[k].info && after.nodes[k].dyn_node == before.nodes[k].dyn_node
            && after.nodes[k].id == before.nodes[k].id,
        after.edges == before.edges,
        after.graph_in == before.graph_in,
        after.graph_out == before.graph_out,
        after.nodes_to_update == before.nodes_to_update,
        after.removed_nodes == before.removed_nodes,
{
    let all = slot_order(before.nodes.dom());
    let is_new = |k: u64| !before.nodes[k].processor_constructed;
    let new = all.filter(is_new);
    lemma_slot_order(before.nodes.dom());
    lemma_filtered(all, is_new, k);
    lemma_filter_keeps_order(all, is_new);
    assert(all.to_set().contains(k) <==> all.contains(k));
    let ids = data.new_node_processors@.map_values(|n: NodeID| n.0);
    assert(ids == new);
    if data.new_node_processors@.contains(NodeID(k)) {
        let m = data.new_node_processors@.index_of(NodeID(k));
        assert(ids[m] == k);
        assert(new.contains(k));
    }
    if new.contains(k) {
        let m = new.index_of(k);
        assert(ids[m] == k);
        assert(data.new_node_processors@[m] == NodeID(k));
    }
    if 0 <= i < j < data.new_node_processors@.len() {
        assert(ids[i] == data.new_node_processors@[i].0);
        assert(ids[j] == data.new_node_processors@[j].0);
        assert(new[i] == ids[i] && new[j] == ids[j]);
    }
}

/// A buffer is in use while a node is processed if the node reads or writes it, or if it holds
/// what an edge leads from, to a node that was not processed before.
pub proof fn law_buffer_is_in_use_until_it_was_read(
    edges: Map<u64, Edge>,
    schedule: Seq<ScheduledNode>,
    n: int,
    b: int,
)
    requires
        0 <= n < schedule.len(),
    ensures
        in_use(edges, schedule, n, b) <==> (exists|p: int|
            0 <= p < schedule[n].output_buffers@.len() && (
            #[trigger] schedule[n].output_buffers@[p]).buffer_index == b) || (exists|p: int|
            0 <= p < schedule[n].input_buffers@.len() && (
            #[trigger] schedule[n].input_buffers@[p]).buffer_index == b) || (exists|e: u64| #[trigger]
            edges.contains_key(e) && held_before(schedule, n).contains_key(b) && held_before(
                schedule,
                n,
            )[b] == (edges[e].src_node.0, edges[e].src_port) && forall|j: int|
                0 <= j < n ==> (#[trigger] schedule[j]).id != edges[e].dst_node),
{
}

/// All buffers are in use at a node if each of them is, and the node is one of the schedule.
pub proof fn law_all_buffers_are_in_use_at_a_node(
    edges: Map<u64, Edge>,
    schedule: Seq<ScheduledNode>,
    n: int,
    num_buffers: int,
    b: int,
)
    requires
        all_in_use(edges, schedule, n, num_buffers),
    ensures
        0 <= n < schedule.len(),
        0 <= b < num_buffers ==> in_use(edges, schedule, n, b),
{
}

/// A schedule that was not delivered changes nothing but that its new nodes have no processor
/// yet, and that the graph is to be compiled again.
pub proof fn law_undelivered_schedule_is_compiled_again<N>(
    before: GraphView<N>,
    failed: ScheduleHeapData,
    after: GraphView<N>,
    k: u64,
)
    requires
        AudioGraph::<N>::undelivered(before, failed, after),
    ensures
        after.needs_compile,
        after == (GraphView { nodes: after.nodes, needs_compile: true, ..before }),
        after.nodes.contains_key(k) <==> before.nodes.contains_key(k),
        before.nodes.contains_key(k) ==> after.nodes[k] == (NodeEntry {
            processor_constructed: after.nodes[k].processor_constructed,
            ..before.nodes[k]
        }) && (after.nodes[k].processor_constructed <==> before.nodes[k].processor_constructed
            && !failed.new_node_processors@.contains(NodeID(k))),
{
}

proof fn lemma_filtered(s: Seq<u64>, p: spec_fn(u64) -> bool, x: u64)
    ensures
        s.filter(p).contains(x) <==> s.contains(x) && p(x),
        s.no_duplicates() ==> s.filter(p).no_duplicates(),
    decreases s.len(),
{
    reveal(Seq::filter);
    if s.len() > 0 {
        let rest = s.drop_last();
        lemma_filtered(rest, p, x);
        assert(s =~= rest.push(s.last()));
        assert(s.contains(x) <==> rest.contains(x) || x == s.last()) by {
            if rest.contains(x) {
                let i = rest.index_of(x);
                assert(s[i] == x);
            }
            if x == s.last() {
                assert(s[s.len() - 1] == x);
            }
        }
        let f = rest.filter(p);
        if p(s.last()) {
            let g = f.push(s.last());
            assert(g.contains(x) <==> f.contains(x) || x == s.last()) by {
                if f.contains(x) {
                    let i = f.index_of(x);
                    assert(g[i] == x);
                }
                if x == s.last() {
                    assert(g[f.len() as int] == x);
                }
            }
            if s.no_duplicates() {
                lemma_filtered(rest, p, s.last());
                assert(!rest.contains(s.last())) by {
                    if rest.contains(s.last()) {
                        let i = rest.index_of(s.last());
                        assert(s[i] == s[s.len() - 1]);
                    }
                }
                assert forall|i: int, j: int|
                    0 <= i < g.len() && 0 <= j < g.len() && i != j implies g[i] != g[j] by {
                    if i == f.len() {
                        assert(f.contains(f[j]));
                    }
                    if j == f.len() {
                        assert(f.contains(f[i]));
                    }
                }
            }
        }
    }
}

proof fn lemma_filter_keeps_order(s: Seq<u64>, p: spec_fn(u64) -> bool)
    requires
        in_slot_order(s),
    ensures
        in_slot_order(s.filter(p)),
    decreases s.len(),
{
    reveal(Seq::filter);
    if s.len() > 0 {
        let rest = s.drop_last();
        assert(in_slot_order(rest)) by {
            assert forall|i: int, j: int| 0 <= i < j < rest.len() implies slot_of(
                #[trigger] rest[i],
            ) < slot_of(#[trigger] rest[j]) by {
                assert(rest[i] == s[i] && rest[j] == s[j]);
            }
        }
        lemma_filter_keeps_order(rest, p);
        let f = rest.filter(p);
        if p(s.last()) {
            assert forall|i: int| 0 <= i < f.len() implies slot_of(#[trigger] f[i]) < slot_of(
                s.last(),
            ) by {
                lemma_filtered(rest, p, f[i]);
                assert(f.contains(f[i]));
                let m = rest.index_of(f[i]);
                assert(s[m] == f[i] && s[s.len() - 1] == s.last());
            }
        }
    }
}

} // verus!
