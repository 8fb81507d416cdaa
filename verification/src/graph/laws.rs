//! What holds of a graph across several changes to it.

use crate::graph::buffers::{
    after_sums, all_in_use, held_before, in_port_edges, in_use, input_routed, is_buffer_of,
    is_cleared, is_output, lemma_sums_before_bounds, lemma_sums_before_monotonic, node_routed, output_port, signal_of, sums_before, ScheduledNode,
};
use crate::graph::compiler::{edge_wf, schedule_routed, CompiledSchedule, NodeEntry};
use crate::graph::topology::{
    has_cycle, is_walk, lemma_has_cycle_with, linked, Edge, PortIdx,
};
use crate::graph::{
    connects, joined, joins_any, key_of, touches, AddEdgeError, AudioGraph,
    GraphView, RemoveNodeError,
};
use crate::id_table::{are_table_ids, lemma_slot_order, slot_order};
use crate::node::NodeID;
use crate::small_list::SmallList;
use vstd::prelude::*;

verus! {

/// Whether all of some edges are among others.
pub open spec fn edges_within(some: Map<u64, Edge>, all: Map<u64, Edge>) -> bool {
    forall|e: u64| #[trigger] some.contains_key(e) ==> all.contains_key(e) && all[e] == some[e]
}

/// Taking edges away creates no cycle.
pub proof fn law_fewer_edges_have_no_new_cycle(some: Map<u64, Edge>, all: Map<u64, Edge>)
    requires
        edges_within(some, all),
        !has_cycle(all),
    ensures
        !has_cycle(some),
{
    if has_cycle(some) {
        let walk = choose|walk: Seq<u64>|
            walk.len() >= 2 && walk[0] == walk.last() && #[trigger] is_walk(some, walk);
        assert forall|i: int, j: int| 0 <= i && j == i + 1 && j < walk.len() implies linked(
            all,
            #[trigger] walk[i],
            #[trigger] walk[j],
        ) by {
            assert(linked(some, walk[i], walk[j]));
            let e = choose|e: u64| #[trigger]
                some.contains_key(e) && some[e].src_node.0 == walk[i] && some[e].dst_node.0
                    == walk[j];
            assert(all.contains_key(e));
        }
        assert(is_walk(all, walk));
    }
}

/// A graph without cycles stays so as long as new edges are checked for cycles,
/// whether they are accepted or not.
pub proof fn law_checked_connect_creates_no_cycle<N>(
    before: GraphView<N>,
    src_node: NodeID,
    dst_node: NodeID,
    ports: Seq<(PortIdx, PortIdx)>,
    after: GraphView<N>,
    result: Result<SmallList, AddEdgeError>,
)
    requires
        !has_cycle(before.edges),
        AudioGraph::<N>::connected(before, src_node, dst_node, ports, true, after, result),
    ensures
        !has_cycle(after.edges),
{
    if let Ok(ids) = result {
        if ports.len() == 0 {
            assert(after.edges =~= before.edges);
        } else {
            lemma_joined_links(before.edges, after.edges, src_node, dst_node, ports, ids@);
            lemma_has_cycle_with(before.edges, after.edges, src_node.0, dst_node.0);
        }
    }
}

/// Joining ports of two nodes links these nodes, and no others.
proof fn lemma_joined_links(
    before: Map<u64, Edge>,
    after: Map<u64, Edge>,
    src_node: NodeID,
    dst_node: NodeID,
    ports: Seq<(PortIdx, PortIdx)>,
    ids: Seq<u64>,
)
    requires
        ports.len() > 0,
        joined(before, after, src_node, dst_node, ports, ids),
    ensures
        forall|a: u64, b: u64| #[trigger]
            linked(after, a, b) <==> linked(before, a, b) || (a == src_node.0 && b == dst_node.0),
{
    assert forall|a: u64, b: u64| #[trigger] linked(after, a, b) <==> linked(before, a, b) || (a
        == src_node.0 && b == dst_node.0) by {
        if linked(after, a, b) {
            let e = choose|e: u64| #[trigger]
                after.contains_key(e) && after[e].src_node.0 == a && after[e].dst_node.0 == b;
            if before.contains_key(e) {
                assert(linked(before, a, b));
            } else {
                let i = ids.index_of(e);
                assert(ids[i] == e);
                assert(key_of(after[ids[i]]).0 == a);
            }
        }
        if linked(before, a, b) {
            let e = choose|e: u64| #[trigger]
                before.contains_key(e) && before[e].src_node.0 == a && before[e].dst_node.0 == b;
            assert(after.contains_key(e));
        }
        if a == src_node.0 && b == dst_node.0 {
            assert(after.contains_key(ids[0]));
        }
    }
}

/// Disconnecting ports undoes connecting them: what is left are the edges from
/// before that do not join these ports.
pub proof fn law_disconnect_undoes_connect<N>(
    before: GraphView<N>,
    src_node: NodeID,
    dst_node: NodeID,
    ports: Seq<(PortIdx, PortIdx)>,
    check_for_cycles: bool,
    between: GraphView<N>,
    ids: SmallList,
    after: GraphView<N>,
    any_removed: bool,
)
    requires
        AudioGraph::<N>::connected(
            before,
            src_node,
            dst_node,
            ports,
            check_for_cycles,
            between,
            Ok(ids),
        ),
        AudioGraph::<N>::disconnected(between, src_node, dst_node, ports, after, any_removed),
    ensures
        any_removed <==> ports.len() > 0,
        forall|e: u64| #[trigger]
            after.edges.contains_key(e) <==> before.edges.contains_key(e) && !joins_any(
                before.edges[e],
                src_node,
                dst_node,
                ports,
            ),
        edges_within(after.edges, before.edges),
        after.nodes == before.nodes,
{
    let s = ids@;
    assert forall|i: int| 0 <= i < ports.len() implies joins_any(
        between.edges[#[trigger] s[i]],
        src_node,
        dst_node,
        ports,
    ) by {
        assert(ports.contains(ports[i]));
    }
    if ports.len() > 0 {
        assert(between.edges.contains_key(s[0]));
    }
    if any_removed {
        let e = choose|e: u64| #[trigger]
            between.edges.contains_key(e) && joins_any(
                between.edges[e],
                src_node,
                dst_node,
                ports,
            );
        let p = (between.edges[e].src_port, between.edges[e].dst_port);
        assert(ports.contains(p));
    }
    assert forall|e: u64| #[trigger] after.edges.contains_key(e) <==> before.edges.contains_key(e)
        && !joins_any(before.edges[e], src_node, dst_node, ports) by {
        if between.edges.contains_key(e) && !before.edges.contains_key(e) {
            let i = s.index_of(e);
            assert(s[i] == e);
        }
    }
    assert forall|e: u64| #[trigger] after.edges.contains_key(e) implies before.edges[e]
        == after.edges[e] by {
        assert(before.edges.contains_key(e));
    }
}

/// Connecting ports that are connected already changes no edge, and returns the
/// edges that are there.
pub proof fn law_connecting_twice_adds_nothing<N>(
    before: GraphView<N>,
    src_node: NodeID,
    dst_node: NodeID,
    ports: Seq<(PortIdx, PortIdx)>,
    check_for_cycles: bool,
    between: GraphView<N>,
    ids: SmallList,
    after: GraphView<N>,
    result: Result<SmallList, AddEdgeError>,
)
    requires
        after.valid(),
        AudioGraph::<N>::connected(
            before,
            src_node,
            dst_node,
            ports,
            check_for_cycles,
            between,
            Ok(ids),
        ),
        AudioGraph::<N>::connected(
            between,
            src_node,
            dst_node,
            ports,
            check_for_cycles,
            after,
            result,
        ),
    ensures
        result matches Ok(again) && again@ == ids@,
        after == between,
{
    assert(connects(between, src_node, dst_node, ports));
    if ports.len() > 0 {
        lemma_joined_links(before.edges, between.edges, src_node, dst_node, ports, ids@);
        lemma_has_cycle_with(before.edges, between.edges, src_node.0, dst_node.0);
        assert forall|a: u64, b: u64| #[trigger] linked(between.edges, a, b) <==> linked(
            between.edges,
            a,
            b,
        ) || (a == src_node.0 && b == dst_node.0) by {
            assert(linked(between.edges, src_node.0, dst_node.0));
        }
        lemma_has_cycle_with(between.edges, between.edges, src_node.0, dst_node.0);
    } else {
        assert(between.edges =~= before.edges);
    }
    assert(result is Ok);
    let again = result->Ok_0;
    assert forall|i: int| 0 <= i < ports.len() implies again@[i] == ids@[i] by {
        assert(between.edges.contains_key(ids@[i]));
        assert(after.edges.contains_key(again@[i]));
        assert(after.edges.contains_key(ids@[i]));
        assert(key_of(after.edges[again@[i]]) == key_of(after.edges[ids@[i]]));
    }
    assert(again@ =~= ids@);
    assert(after.edges =~= between.edges) by {
        assert forall|e: u64| after.edges.contains_key(e) implies between.edges.contains_key(
            e,
        ) by {
            if !between.edges.contains_key(e) {
                let i = again@.index_of(e);
                assert(again@[i] == e);
            }
        }
    }
}

/// Removing a node removes every edge that touches it and no other edge, and
/// creates no cycle.
pub proof fn law_removed_node_leaves_no_edge<N>(
    before: GraphView<N>,
    node_id: NodeID,
    after: GraphView<N>,
    result: Result<SmallList, RemoveNodeError>,
)
    requires
        before.valid(),
        AudioGraph::<N>::node_removed(before, node_id, after, result),
        result is Ok,
    ensures
        !after.nodes.contains_key(node_id.0),
        forall|e: u64| #[trigger]
            after.edges.contains_key(e) <==> before.edges.contains_key(e) && !touches(
                before.edges[e],
                node_id.0,
            ),
        edges_within(after.edges, before.edges),
        !has_cycle(before.edges) ==> !has_cycle(after.edges),
{
    let removed = result->Ok_0;
    assert forall|e: u64| #[trigger] after.edges.contains_key(e) <==> before.edges.contains_key(e)
        && !touches(before.edges[e], node_id.0) by {
        assert(removed@.to_set().contains(e) <==> removed@.contains(e));
        if before.edges.contains_key(e) {
            assert(edge_wf(before.nodes, before.edges[e], e));
        }
    }
    if !has_cycle(before.edges) {
        law_fewer_edges_have_no_new_cycle(after.edges, before.edges);
    }
}

/// A schedule processes every node after all nodes from which it receives input.
pub proof fn law_sources_come_first<N>(
    schedule: CompiledSchedule,
    nodes: Map<u64, NodeEntry<N>>,
    edges: Map<u64, Edge>,
    graph_in: u64,
    graph_out: u64,
    e: u64,
)
    requires
        schedule.schedules(nodes, edges, graph_in, graph_out),
        edges.contains_key(e),
        edge_wf(nodes, edges[e], e),
    ensures
        0 <= schedule.order().index_of(edges[e].src_node.0) < schedule.order().index_of(
            edges[e].dst_node.0,
        ) < schedule.order().len(),
{
    let order = schedule.order();
    let src = edges[e].src_node.0;
    let dst = edges[e].dst_node.0;
    assert(order.to_set().contains(dst));
    let j = order.index_of(dst);
    assert(order[j] == dst);
    assert(order.take(j).contains(src));
    let i = order.take(j).index_of(src);
    assert(order.take(j)[i] == src && order[i] == src);
    let k = order.index_of(src);
    assert(order.contains(src));
    assert(order[k] == src);
}

/// Whether processing a node writes to a buffer, or clears it.
pub open spec fn writes_to(node: ScheduledNode, b: int) -> bool {
    is_output(node, b) || is_cleared(node, b) || sums_into(node, node.sum_inputs@.len() as int, b)
}

/// Whether one of the first `n` sums of a node is written to a buffer.
pub open spec fn sums_into(node: ScheduledNode, n: int, b: int) -> bool {
    exists|t: int|
        0 <= t < n && (#[trigger] node.sum_inputs@[t]).output_buffer.buffer_index == b
}

/// Whether node `i` of a schedule writes a signal to a buffer, and no node after it up to
/// node `n` writes to it.
pub open spec fn written_last(
    schedule: Seq<ScheduledNode>,
    n: int,
    b: int,
    signal: (u64, u32),
    i: int,
) -> bool {
    &&& 0 <= i < n
    &&& is_output(schedule[i], b)
    &&& signal == (schedule[i].id.0, output_port(schedule[i], b))
    &&& forall|j: int| i < j < n ==> !#[trigger] writes_to(schedule[j], b)
}

/// What is held after sums is held before them, and none of them was written to it.
proof fn lemma_after_sums(held: Map<int, (u64, u32)>, node: ScheduledNode, n: int, b: int)
    requires
        0 <= n <= node.sum_inputs@.len(),
        after_sums(held, node.sum_inputs@, n).contains_key(b),
    ensures
        held.contains_key(b),
        after_sums(held, node.sum_inputs@, n)[b] == held[b],
        !sums_into(node, n, b),
    decreases n,
{
    if n > 0 {
        lemma_after_sums(held, node, n - 1, b);
        if sums_into(node, n, b) {
            let t = choose|t: int|
                0 <= t < n && (#[trigger] node.sum_inputs@[t]).output_buffer.buffer_index == b;
            if t < n - 1 {
                assert(sums_into(node, n - 1, b));
            }
        }
    }
}

/// What a buffer holds is what was written to it last.
pub proof fn law_held_signal_was_written_last(schedule: Seq<ScheduledNode>, n: int, b: int)
    requires
        0 <= n <= schedule.len(),
        held_before(schedule, n).contains_key(b),
    ensures
        exists|i: int| #[trigger]
            written_last(schedule, n, b, held_before(schedule, n)[b], i),
    decreases n,
{
    let node = schedule[n - 1];
    let signal = held_before(schedule, n)[b];
    if is_output(node, b) {
        assert(written_last(schedule, n, b, signal, n - 1));
    } else {
        lemma_after_sums(
            held_before(schedule, n - 1),
            node,
            node.sum_inputs@.len() as int,
            b,
        );
        law_held_signal_was_written_last(schedule, n - 1, b);
        let i = choose|i: int| #[trigger] written_last(schedule, n - 1, b, signal, i);
        assert(written_last(schedule, n, b, signal, i));
    }
}

/// No buffer that is still to be read is overwritten: where an input port has one edge,
/// its buffer is that of the output port from which the edge comes, and neither a node in
/// between nor a sum of the node itself writes to it.
pub proof fn law_signal_arrives<N>(
    nodes: Map<u64, NodeEntry<N>>,
    edges: Map<u64, Edge>,
    schedule: Seq<ScheduledNode>,
    num_buffers: int,
    n: int,
    p: int,
)
    requires
        schedule_routed(nodes, edges, schedule, num_buffers),
        0 <= n < schedule.len(),
        0 <= p < schedule[n].input_buffers@.len(),
        in_port_edges(edges, schedule[n].id.0, p as u32).len() == 1,
    ensures
        ({
            let e = in_port_edges(edges, schedule[n].id.0, p as u32)[0];
            let b = schedule[n].input_buffers@[p].buffer_index as int;
            &&& exists|i: int| #[trigger]
                written_last(schedule, n, b, signal_of(edges[e]), i)
            &&& !sums_into(schedule[n], schedule[n].sum_inputs@.len() as int, b)
            &&& !is_cleared(schedule[n], b)
            &&& !is_output(schedule[n], b)
        }),
{
    let node = schedule[n];
    let held = held_before(schedule, n);
    let b = node.input_buffers@[p].buffer_index as int;
    assert(node_routed(nodes, edges, held, node, num_buffers));
    assert(input_routed(edges, held, node, p));
    lemma_after_sums(held, node, node.sum_inputs@.len() as int, b);
    law_held_signal_was_written_last(schedule, n, b);
    if is_cleared(node, b) {
        let q = choose|q: int|
            0 <= q < node.input_buffers@.len() && (#[trigger] node.input_buffers@[q]).buffer_index
                == b && node.input_buffers@[q].should_clear;
        assert(input_routed(edges, held, node, q));
        assert(node.input_buffers@[p].buffer_index == node.input_buffers@[q].buffer_index);
    }
    if is_output(node, b) {
        let q = choose|q: int|
            0 <= q < node.output_buffers@.len() && (
            #[trigger] node.output_buffers@[q]).buffer_index == b;
        assert(node.output_buffers@[q].buffer_index != node.input_buffers@[p].buffer_index);
    }
}

/// No buffer that is still to be summed is overwritten: where an input port has several
/// edges, the buffers that are added up are those of the output ports from which the edges
/// come, and neither a node in between nor an earlier sum of the node itself writes to them.
pub proof fn law_summed_signals_arrive<N>(
    nodes: Map<u64, NodeEntry<N>>,
    edges: Map<u64, Edge>,
    schedule: Seq<ScheduledNode>,
    num_buffers: int,
    n: int,
    p: int,
    x: int,
)
    requires
        schedule_routed(nodes, edges, schedule, num_buffers),
        0 <= n < schedule.len(),
        0 <= p < schedule[n].input_buffers@.len(),
        in_port_edges(edges, schedule[n].id.0, p as u32).len() >= 2,
        0 <= x < in_port_edges(edges, schedule[n].id.0, p as u32).len(),
    ensures
        ({
            let e = in_port_edges(edges, schedule[n].id.0, p as u32)[x];
            let s = sums_before(edges, schedule[n].id.0, p);
            let b = schedule[n].sum_inputs@[s].input_buffers@[x] as int;
            &&& exists|i: int| #[trigger]
                written_last(schedule, n, b, signal_of(edges[e]), i)
            &&& !sums_into(schedule[n], s, b)
        }),
{
    let node = schedule[n];
    let held = held_before(schedule, n);
    assert(node_routed(nodes, edges, held, node, num_buffers));
    assert(input_routed(edges, held, node, p));
    let s = sums_before(edges, node.id.0, p);
    let b = node.sum_inputs@[s].input_buffers@[x] as int;
    lemma_sums_before_bounds(edges, node.id.0, p);
    lemma_sums_before_monotonic(edges, node.id.0, p, node.input_buffers@.len() as int);
    lemma_after_sums(held, node, s, b);
    law_held_signal_was_written_last(schedule, n, b);
}

/// Whether an edge is the one from which a node reads a buffer: alone, or in a sum.
pub open spec fn reads_from(
    edges: Map<u64, Edge>,
    node: ScheduledNode,
    e: u64,
    b: int,
) -> bool {
    let p = edges[e].dst_port as int;
    let to_port = in_port_edges(edges, node.id.0, edges[e].dst_port);
    if to_port.len() == 1 {
        to_port[0] == e && b == node.input_buffers@[p].buffer_index
    } else {
        exists|x: int|
            0 <= x < to_port.len() && #[trigger] to_port[x] == e && b
                == node.sum_inputs@[sums_before(edges, node.id.0, p)].input_buffers@[x]
    }
}

/// Where a schedule processes a node.
pub open spec fn place_of(compiled: CompiledSchedule, id: u64) -> int {
    compiled.order().index_of(id)
}

/// No live buffer is overwritten: for every edge, the buffer from which its destination
/// reads is the one to which its source has written, and no node in between writes to it or
/// clears it.
pub proof fn law_no_live_buffer_is_overwritten<N>(
    nodes: Map<u64, NodeEntry<N>>,
    edges: Map<u64, Edge>,
    compiled: CompiledSchedule,
    graph_in: u64,
    graph_out: u64,
    e: u64,
)
    requires
        are_table_ids(edges.dom()),
        compiled.schedules(nodes, edges, graph_in, graph_out),
        edges.contains_key(e),
        edge_wf(nodes, edges[e], e),
    ensures
        ({
            let schedule = compiled.schedule@;
            let i = place_of(compiled, edges[e].src_node.0);
            let n = place_of(compiled, edges[e].dst_node.0);
            &&& 0 <= i < n < schedule.len()
            &&& exists|b: int| #[trigger]
                reads_from(edges, schedule[n], e, b) && 0 <= b < compiled.num_buffers
                    && is_output(schedule[i], b) && output_port(schedule[i], b)
                    == edges[e].src_port && forall|j: int|
                    i < j < n ==> !#[trigger] writes_to(schedule[j], b)
        }),
{
    let schedule = compiled.schedule@;
    let order = compiled.order();
    let num = compiled.num_buffers as int;
    let src = edges[e].src_node.0;
    let dst = edges[e].dst_node.0;
    let port = edges[e].dst_port;
    let p = port as int;
    law_sources_come_first(compiled, nodes, edges, graph_in, graph_out, e);
    let i = place_of(compiled, src);
    let n = place_of(compiled, dst);
    let node = schedule[n];
    assert(order.to_set().contains(src) && order.to_set().contains(dst));
    assert(order[i] == src && order[n] == dst);
    assert(node.id.0 == dst);
    assert(node_routed(nodes, edges, held_before(schedule, n), node, num));
    lemma_edge_to_port(edges, e);
    let to_port = in_port_edges(edges, dst, port);
    let x = to_port.index_of(e);
    assert(to_port[x] == e);
    let signal = signal_of(edges[e]);
    let b = if to_port.len() == 1 {
        law_signal_arrives(nodes, edges, schedule, num, n, p);
        node.input_buffers@[p].buffer_index as int
    } else {
        law_summed_signals_arrive(nodes, edges, schedule, num, n, p, x);
        node.sum_inputs@[sums_before(edges, dst, p)].input_buffers@[x] as int
    };
    let k = choose|k: int| #[trigger] written_last(schedule, n, b, signal, k);
    assert(written_last(schedule, n, b, signal, k));
    assert(order[k] == schedule[k].id.0);
    assert(k == i);
    lemma_buffer_exists(nodes, edges, schedule, num, i, b);
    assert(reads_from(edges, node, e, b));
}

/// The outputs of a node have buffers of their own: no two of them share one, and none
/// shares one with an input.
pub proof fn law_outputs_are_kept_apart<N>(
    nodes: Map<u64, NodeEntry<N>>,
    edges: Map<u64, Edge>,
    compiled: CompiledSchedule,
    graph_in: u64,
    graph_out: u64,
    n: int,
)
    requires
        compiled.schedules(nodes, edges, graph_in, graph_out),
        0 <= n < compiled.schedule@.len(),
    ensures
        ({
            let outputs = compiled.schedule@[n].output_buffers@;
            let inputs = compiled.schedule@[n].input_buffers@;
            &&& forall|p: int, q: int|
                0 <= p < q < outputs.len() ==> (#[trigger] outputs[p]).buffer_index != (
                #[trigger] outputs[q]).buffer_index
            &&& forall|p: int, q: int|
                0 <= p < outputs.len() && 0 <= q < inputs.len() ==> (
                #[trigger] outputs[p]).buffer_index != (#[trigger] inputs[q]).buffer_index
            &&& forall|p: int|
                0 <= p < outputs.len() ==> (#[trigger] outputs[p]).buffer_index
                    < compiled.num_buffers
            &&& forall|q: int|
                0 <= q < inputs.len() ==> (#[trigger] inputs[q]).buffer_index
                    < compiled.num_buffers
        }),
{
    let schedule = compiled.schedule@;
    assert(node_routed(
        nodes,
        edges,
        held_before(schedule, n),
        schedule[n],
        compiled.num_buffers as int,
    ));
}

/// An edge is among those that lead to its port.
proof fn lemma_edge_to_port(edges: Map<u64, Edge>, e: u64)
    requires
        are_table_ids(edges.dom()),
        edges.contains_key(e),
    ensures
        in_port_edges(edges, edges[e].dst_node.0, edges[e].dst_port).contains(e),
{
    let k = edges[e].dst_node.0;
    let port = edges[e].dst_port;
    let all = slot_order(edges.dom());
    let to_node = |x: u64| edges[x].dst_node.0 == k;
    let to_port = |x: u64| edges[x].dst_port == port;
    lemma_slot_order(edges.dom());
    assert(all.to_set().contains(e));
    let i = all.index_of(e);
    assert(all[i] == e);
    all.lemma_filter_contains(to_node, i);
    let incoming = all.filter(to_node);
    let j = incoming.index_of(e);
    assert(incoming[j] == e);
    incoming.lemma_filter_contains(to_port, j);
}

/// The number of buffers of a schedule is the largest number in use at once: it has all
/// those that are in use when a node is processed, and there is a node at which all of
/// them are.
pub proof fn law_buffers_are_reused<N>(
    nodes: Map<u64, NodeEntry<N>>,
    edges: Map<u64, Edge>,
    compiled: CompiledSchedule,
    graph_in: u64,
    graph_out: u64,
)
    requires
        compiled.schedules(nodes, edges, graph_in, graph_out),
    ensures
        forall|n: int, b: int|
            0 <= n < compiled.schedule@.len() && #[trigger] in_use(
                edges,
                compiled.schedule@,
                n,
                b,
            ) ==> 0 <= b < compiled.num_buffers,
        compiled.num_buffers > 0 ==> exists|n: int| #[trigger]
            all_in_use(edges, compiled.schedule@, n, compiled.num_buffers as int),
{
    let schedule = compiled.schedule@;
    let num = compiled.num_buffers as int;
    assert forall|n: int, b: int|
        0 <= n < schedule.len() && #[trigger] in_use(edges, schedule, n, b) implies 0 <= b
        < num by {
        if is_buffer_of(schedule[n], b) {
            lemma_buffer_exists(nodes, edges, schedule, num, n, b);
        } else {
            law_held_signal_was_written_last(schedule, n, b);
            let signal = held_before(schedule, n)[b];
            let i = choose|i: int| #[trigger] written_last(schedule, n, b, signal, i);
            lemma_buffer_exists(nodes, edges, schedule, num, i, b);
        }
    }
}

proof fn lemma_buffer_exists<N>(
    nodes: Map<u64, NodeEntry<N>>,
    edges: Map<u64, Edge>,
    schedule: Seq<ScheduledNode>,
    num_buffers: int,
    n: int,
    b: int,
)
    requires
        schedule_routed(nodes, edges, schedule, num_buffers),
        0 <= n < schedule.len(),
        is_buffer_of(schedule[n], b),
    ensures
        0 <= b < num_buffers,
{
    let node = schedule[n];
    assert(node_routed(nodes, edges, held_before(schedule, n), node, num_buffers));
    if is_output(node, b) {
        let q = choose|q: int|
            0 <= q < node.output_buffers@.len() && (
            #[trigger] node.output_buffers@[q]).buffer_index == b;
        assert(node.output_buffers@[q].buffer_index < num_buffers);
    } else {
        let q = choose|q: int|
            0 <= q < node.input_buffers@.len() && (#[trigger] node.input_buffers@[q]).buffer_index
                == b;
        assert(node.input_buffers@[q].buffer_index < num_buffers);
    }
}

} // verus!
