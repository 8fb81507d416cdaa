//! What a change to a graph does to its nodes and edges.

use crate::channel_config::ChannelConfig;
use crate::graph::topology::{
    has_cycle, has_cycle_with, is_walk, is_walk_with, linked, Edge, PortIdx,
};
use crate::graph::{
    connects, edges_at_port, edges_at_ports, edges_of_node, first_bad, lemma_among, ports_exist,
    AddEdgeError, AudioGraph, EdgePattern, GraphView, RemoveNodeError,
};
use crate::id_table::{are_table_ids, lemma_slot_order, slot_of};
use crate::node::NodeID;
use crate::small_list::SmallList;
use vstd::prelude::*;

verus! {

/// Ports are connected only between two nodes that there are and that are not the same, and
/// only if each port is one that its node has. Where one is missing, the first thing that is
/// wrong is told, and the graph stays as it is.
pub proof fn law_connect_tells_what_is_wrong<N>(
    before: GraphView<N>,
    src_node: NodeID,
    dst_node: NodeID,
    ports: Seq<(PortIdx, PortIdx)>,
    check_for_cycles: bool,
    after: GraphView<N>,
    result: Result<SmallList, AddEdgeError>,
)
    requires
        AudioGraph::<N>::connected(
            before,
            src_node,
            dst_node,
            ports,
            check_for_cycles,
            after,
            result,
        ),
    ensures
        result is Err ==> after == before,
        !before.nodes.contains_key(src_node.0) <==> result == Err::<SmallList, _>(
            AddEdgeError::SrcNodeNotFound(src_node),
        ),
        before.nodes.contains_key(src_node.0) && !before.nodes.contains_key(dst_node.0)
            <==> result == Err::<SmallList, _>(AddEdgeError::DstNodeNotFound(dst_node)),
        before.nodes.contains_key(src_node.0) && before.nodes.contains_key(dst_node.0) && src_node
            == dst_node ==> result == Err::<SmallList, _>(AddEdgeError::CycleDetected),
        result is Ok ==> forall|i: int|
            0 <= i < ports.len() ==> (#[trigger] ports[i]).0
                < before.nodes[src_node.0].info.channel_config.num_outputs.spec_get() && ports[i].1
                < before.nodes[dst_node.0].info.channel_config.num_inputs.spec_get(),
{
}

/// The first pair of ports of which one does not exist is told: its output port if that is
/// the one, or else its input port.
pub proof fn law_first_missing_port_is_told<N>(
    before: GraphView<N>,
    src_node: NodeID,
    dst_node: NodeID,
    ports: Seq<(PortIdx, PortIdx)>,
    check_for_cycles: bool,
    after: GraphView<N>,
    result: Result<SmallList, AddEdgeError>,
    i: int,
)
    requires
        AudioGraph::<N>::connected(
            before,
            src_node,
            dst_node,
            ports,
            check_for_cycles,
            after,
            result,
        ),
        before.nodes.contains_key(src_node.0),
        before.nodes.contains_key(dst_node.0),
        src_node != dst_node,
        0 <= i < ports.len(),
        ports[i].0 >= before.nodes[src_node.0].info.channel_config.num_outputs.spec_get()
            || ports[i].1 >= before.nodes[dst_node.0].info.channel_config.num_inputs.spec_get(),
        forall|j: int|
            0 <= j < i ==> (#[trigger] ports[j]).0
                < before.nodes[src_node.0].info.channel_config.num_outputs.spec_get() && ports[j].1
                < before.nodes[dst_node.0].info.channel_config.num_inputs.spec_get(),
    ensures
        result == Err::<SmallList, _>(
            if ports[i].0 >= before.nodes[src_node.0].info.channel_config.num_outputs.spec_get() {
                AddEdgeError::OutPortOutOfRange {
                    node: src_node,
                    port_idx: ports[i].0,
                    num_out_ports: before.nodes[src_node.0].info.channel_config.num_outputs,
                }
            } else {
                AddEdgeError::InPortOutOfRange {
                    node: dst_node,
                    port_idx: ports[i].1,
                    num_in_ports: before.nodes[dst_node.0].info.channel_config.num_inputs,
                }
            },
        ),
{
    assert(!ports_exist(before, src_node, dst_node, ports[i]));
    assert forall|j: int| 0 <= j < i implies ports_exist(
        before,
        src_node,
        dst_node,
        #[trigger] ports[j],
    ) by {}
    let b = first_bad(before, src_node, dst_node, ports);
    assert(0 <= b < ports.len() && !ports_exist(before, src_node, dst_node, ports[b]) && forall|
        j: int,
    |
        0 <= j < b ==> ports_exist(before, src_node, dst_node, #[trigger] ports[j]));
    assert(b == i) by {
        if b < i {
            assert(ports_exist(before, src_node, dst_node, ports[b]));
        }
        if i < b {
            assert(ports_exist(before, src_node, dst_node, ports[i]));
        }
    }
    assert(!connects(before, src_node, dst_node, ports));
}

/// Ports that there are, of two nodes, are connected unless cycles are looked for and there
/// is one with the new edges.
pub proof fn law_connect_fails_only_for_a_cycle<N>(
    before: GraphView<N>,
    src_node: NodeID,
    dst_node: NodeID,
    ports: Seq<(PortIdx, PortIdx)>,
    check_for_cycles: bool,
    after: GraphView<N>,
    result: Result<SmallList, AddEdgeError>,
    e: u64,
    edge: Edge,
)
    requires
        AudioGraph::<N>::connected(
            before,
            src_node,
            dst_node,
            ports,
            check_for_cycles,
            after,
            result,
        ),
        before.nodes.contains_key(src_node.0),
        before.nodes.contains_key(dst_node.0),
        src_node != dst_node,
        forall|j: int|
            0 <= j < ports.len() ==> (#[trigger] ports[j]).0
                < before.nodes[src_node.0].info.channel_config.num_outputs.spec_get() && ports[j].1
                < before.nodes[dst_node.0].info.channel_config.num_inputs.spec_get(),
        !before.edges.contains_key(e),
        edge.src_node == src_node,
        edge.dst_node == dst_node,
    ensures
        !check_for_cycles ==> result is Ok,
        result is Err ==> result == Err::<SmallList, _>(AddEdgeError::CycleDetected),
        result is Err && ports.len() > 0 ==> has_cycle(before.edges.insert(e, edge)),
        result is Err && ports.len() == 0 ==> has_cycle(before.edges),
        check_for_cycles && ports.len() > 0 && has_cycle(before.edges.insert(e, edge))
            ==> result is Err,
        check_for_cycles && ports.len() == 0 && has_cycle(before.edges) ==> result is Err,
{
    assert forall|j: int| 0 <= j < ports.len() implies ports_exist(
        before,
        src_node,
        dst_node,
        #[trigger] ports[j],
    ) by {}
    assert(connects(before, src_node, dst_node, ports));
    lemma_cycle_with_edge(before.edges, e, edge);
}

/// The edges that connecting returns join the ports that were asked for, pair by pair.
/// Nothing else is added, nothing is taken away, and the graph is to be compiled again.
pub proof fn law_connect_joins_what_was_asked<N>(
    before: GraphView<N>,
    src_node: NodeID,
    dst_node: NodeID,
    ports: Seq<(PortIdx, PortIdx)>,
    check_for_cycles: bool,
    after: GraphView<N>,
    ids: SmallList,
    i: int,
    e: u64,
)
    requires
        AudioGraph::<N>::connected(
            before,
            src_node,
            dst_node,
            ports,
            check_for_cycles,
            after,
            Ok(ids),
        ),
    ensures
        ids@.len() == ports.len(),
        0 <= i < ports.len() ==> after.edges.contains_key(ids@[i]) && ({
            let edge = after.edges[ids@[i]];
            &&& edge.src_node == src_node
            &&& edge.dst_node == dst_node
            &&& edge.src_port == ports[i].0
            &&& edge.dst_port == ports[i].1
        }),
        before.edges.contains_key(e) ==> after.edges.contains_key(e) && after.edges[e]
            == before.edges[e],
        after.edges.contains_key(e) && !before.edges.contains_key(e) ==> ids@.contains(e),
        after.needs_compile,
        after == (GraphView { edges: after.edges, needs_compile: true, ..before }),
{
}

/// Disconnecting takes away the edges between the two nodes that join ports of the list, and
/// no other, and tells whether there was one.
pub proof fn law_disconnect_takes_what_was_asked<N>(
    before: GraphView<N>,
    src_node: NodeID,
    dst_node: NodeID,
    ports: Seq<(PortIdx, PortIdx)>,
    after: GraphView<N>,
    any_removed: bool,
    e: u64,
)
    requires
        AudioGraph::<N>::disconnected(before, src_node, dst_node, ports, after, any_removed),
        before.edges.contains_key(e),
    ensures
        after.edges.contains_key(e) <==> !(before.edges[e].src_node == src_node
            && before.edges[e].dst_node == dst_node && ports.contains(
            (before.edges[e].src_port, before.edges[e].dst_port),
        )),
        after.edges.contains_key(e) ==> after.edges[e] == before.edges[e],
        !after.edges.contains_key(e) ==> any_removed && after.needs_compile,
        !any_removed ==> after.needs_compile == before.needs_compile,
        after.edges.dom().subset_of(before.edges.dom()),
        after == (GraphView {
            edges: after.edges,
            needs_compile: after.needs_compile,
            ..before
        }),
{
}

/// The nodes of the graph's own inputs and outputs cannot be removed. Any other node can,
/// with the edges that lead to it or come from it, and it is remembered so that the audio
/// thread removes it too. There is nothing to do for a node that there is not.
pub proof fn law_remove_takes_node_and_its_edges<N>(
    before: GraphView<N>,
    node_id: NodeID,
    after: GraphView<N>,
    result: Result<SmallList, RemoveNodeError>,
    e: u64,
)
    requires
        before.graph_in != before.graph_out,
        AudioGraph::<N>::node_removed(before, node_id, after, result),
    ensures
        node_id.0 == before.graph_in <==> result == Err::<SmallList, _>(
            RemoveNodeError::CannotRemoveGraphInNode,
        ),
        node_id.0 == before.graph_out <==> result == Err::<SmallList, _>(
            RemoveNodeError::CannotRemoveGraphOutNode,
        ),
        result is Err ==> after == before,
        result is Ok ==> (result->Ok_0@.contains(e) <==> before.edges.contains_key(e) && (
        before.edges[e].src_node == node_id || before.edges[e].dst_node == node_id)),
        result is Ok && before.nodes.contains_key(node_id.0) ==> {
            &&& after.nodes == before.nodes.remove(node_id.0)
            &&& after.edges.contains_key(e) <==> before.edges.contains_key(e)
                && before.edges[e].src_node != node_id && before.edges[e].dst_node != node_id
            &&& after.edges.contains_key(e) ==> after.edges[e] == before.edges[e]
            &&& after.needs_compile
            &&& after.nodes_to_remove == before.nodes_to_remove.push(node_id)
            &&& after.removed_nodes == before.removed_nodes.push(before.nodes[node_id.0])
            &&& after.graph_in == before.graph_in && after.graph_out == before.graph_out
        },
        result is Ok && !before.nodes.contains_key(node_id.0) ==> after == before,
{
    if result is Ok {
        let removed = result->Ok_0@;
        assert(removed.to_set().contains(e) <==> removed.contains(e));
    }
}

/// The edges of a node that is removed are told in order: those that lead to it before those
/// that come from it, each port by port, and at one port in the order of their numbers.
pub proof fn law_removed_edges_are_in_order<N>(
    before: GraphView<N>,
    node_id: NodeID,
    after: GraphView<N>,
    removed: SmallList,
    i: int,
    j: int,
)
    requires
        are_table_ids(before.edges.dom()),
        AudioGraph::<N>::node_removed(before, node_id, after, Ok(removed)),
        0 <= i < j < removed@.len(),
    ensures
        ({
            let first = before.edges[removed@[i]];
            let second = before.edges[removed@[j]];
            &&& first.dst_node == node_id || second.src_node == node_id
            &&& first.dst_node == node_id && first.src_node != node_id && second.dst_node == node_id
                && second.src_node != node_id ==> first.dst_port < second.dst_port || (
            first.dst_port == second.dst_port && slot_of(removed@[i]) < slot_of(removed@[j]))
            &&& first.dst_node != node_id && second.dst_node != node_id ==> first.src_port
                < second.src_port || (first.src_port == second.src_port && slot_of(removed@[i])
                < slot_of(removed@[j]))
        }),
{
    let edges = before.edges;
    let k = node_id.0;
    assert(removed@ == edges_of_node(before, k));
    let config = before.nodes[k].info.channel_config;
    let to_node = edges_at_ports(edges, k, true, 0, config.inputs() as int);
    let from_node = edges_at_ports(edges, k, false, 0, config.outputs() as int);
    lemma_ports_in_order(edges, k, true, 0, config.inputs() as int);
    lemma_ports_in_order(edges, k, false, 0, config.outputs() as int);
    assert(removed@ == to_node + from_node);
    if j < to_node.len() {
        assert(removed@[i] == to_node[i] && removed@[j] == to_node[j]);
    } else if i < to_node.len() {
        assert(removed@[i] == to_node[i] && removed@[j] == from_node[j - to_node.len()]);
    } else {
        assert(removed@[i] == from_node[i - to_node.len()] && removed@[j] == from_node[j
            - to_node.len()]);
    }
}

/// Setting the channels of the graph sets those of its input and output nodes, and takes away
/// the edges at ports that there are no longer. No other node changes, and no other edge.
pub proof fn law_graph_channels_are_set<N>(
    before: GraphView<N>,
    config: ChannelConfig,
    after: GraphView<N>,
    removed: SmallList,
    e: u64,
    k: u64,
)
    requires
        before.valid(),
        AudioGraph::<N>::channels_set(before, config, after, removed),
    ensures
        after.nodes[before.graph_in].info.channel_config.num_outputs.spec_get()
            == config.num_inputs.spec_get(),
        after.nodes[before.graph_out].info.channel_config.num_inputs.spec_get()
            == config.num_outputs.spec_get(),
        after.nodes.contains_key(k) <==> before.nodes.contains_key(k),
        before.nodes.contains_key(k) && k != before.graph_in && k != before.graph_out
            ==> after.nodes[k] == before.nodes[k],
        before.nodes.contains_key(k) ==> after.nodes[k].dyn_node == before.nodes[k].dyn_node
            && after.nodes[k].id == before.nodes[k].id && after.nodes[k].processor_constructed
            == before.nodes[k].processor_constructed,
        before.edges.contains_key(e) ==> ({
            let edge = before.edges[e];
            let gone = (edge.src_node.0 == before.graph_in && edge.src_port
                >= config.num_inputs.spec_get()) || (edge.dst_node.0 == before.graph_out
                && edge.dst_port >= config.num_outputs.spec_get());
            &&& removed@.contains(e) <==> gone
            &&& after.edges.contains_key(e) <==> !gone
            &&& after.edges.contains_key(e) ==> after.edges[e] == edge
            &&& gone ==> after.needs_compile
        }),
        before.needs_compile ==> after.needs_compile,
        before.nodes[before.graph_in].info.channel_config.num_outputs.spec_get()
            != config.num_inputs.spec_get() ==> after.needs_compile,
        before.nodes[before.graph_out].info.channel_config.num_inputs.spec_get()
            != config.num_outputs.spec_get() ==> after.needs_compile,
        before.nodes[before.graph_in].info.channel_config.num_outputs.spec_get()
            == config.num_inputs.spec_get()
            && before.nodes[before.graph_out].info.channel_config.num_inputs.spec_get()
            == config.num_outputs.spec_get() ==> after.needs_compile == before.needs_compile,
{
    assert(removed@.to_set().contains(e) <==> removed@.contains(e));
}

/// In a graph that is valid every edge knows its number and joins ports that there are, of two
/// nodes that there are and that are not the same. No two edges join the same ports. The
/// nodes of the graph's inputs and outputs are two nodes, without inputs and without outputs.
pub proof fn law_valid_graph_has_no_loose_ends<N>(graph: GraphView<N>, e: u64, f: u64, k: u64)
    requires
        graph.valid(),
    ensures
        graph.edges.contains_key(e) ==> ({
            let edge = graph.edges[e];
            &&& edge.id.0 == e
            &&& edge.src_node != edge.dst_node
            &&& graph.nodes.contains_key(edge.src_node.0)
            &&& graph.nodes.contains_key(edge.dst_node.0)
            &&& edge.src_port
                < graph.nodes[edge.src_node.0].info.channel_config.num_outputs.spec_get()
            &&& edge.dst_port
                < graph.nodes[edge.dst_node.0].info.channel_config.num_inputs.spec_get()
        }),
        graph.edges.contains_key(e) && graph.edges.contains_key(f) && e != f ==> !(
        graph.edges[e].src_node == graph.edges[f].src_node && graph.edges[e].dst_node
            == graph.edges[f].dst_node && graph.edges[e].src_port == graph.edges[f].src_port
            && graph.edges[e].dst_port == graph.edges[f].dst_port),
        graph.nodes.contains_key(k) ==> graph.nodes[k].id.0 == k,
        graph.nodes.contains_key(graph.graph_in),
        graph.nodes.contains_key(graph.graph_out),
        graph.graph_in != graph.graph_out,
        graph.nodes[graph.graph_in].info.channel_config.num_inputs.spec_get() == 0,
        graph.nodes[graph.graph_out].info.channel_config.num_outputs.spec_get() == 0,
{
}

/// An edge is looked for at a port of its source or of its destination, or between both.
pub proof fn law_pattern_finds_its_edges(edge: Edge, node: NodeID, other: NodeID, port: u32)
    ensures
        (EdgePattern::ToPort { node, port }).matches_edge(edge) <==> edge.dst_node == node
            && edge.dst_port == port,
        (EdgePattern::FromPort { node, port }).matches_edge(edge) <==> edge.src_node == node
            && edge.src_port == port,
        (EdgePattern::Between { src: node, dst: other }).matches_edge(edge) <==> edge.src_node
            == node && edge.dst_node == other,
{
}

/// Edges that lead from node to node and back to the first one are a cycle.
pub proof fn law_edges_that_lead_back_are_a_cycle(edges: Map<u64, Edge>, round: Seq<u64>)
    requires
        round.len() > 0,
        forall|i: int| 0 <= i < round.len() ==> edges.contains_key(#[trigger] round[i]),
        forall|i: int|
            0 < i < round.len() ==> edges[round[i - 1]].dst_node == edges[
            #[trigger] round[i]].src_node,
        edges[round.last()].dst_node == edges[round[0]].src_node,
    ensures
        has_cycle(edges),
{
    let walk = Seq::new(
        round.len() + 1,
        |i: int|
            if i < round.len() {
                edges[round[i]].src_node.0
            } else {
                edges[round[0]].src_node.0
            },
    );
    assert forall|i: int, j: int| 0 <= i && j == i + 1 && j < walk.len() implies linked(
        edges,
        #[trigger] walk[i],
        #[trigger] walk[j],
    ) by {
        assert(edges.contains_key(round[i]));
        if j < round.len() {
            assert(edges[round[j - 1]].dst_node == edges[round[j]].src_node);
        }
        assert(edges[round[i]].src_node.0 == walk[i] && edges[round[i]].dst_node.0 == walk[j]);
    }
    assert(is_walk(edges, walk));
}

/// There is no cycle where the nodes can be numbered so that every edge leads to a greater
/// number.
pub proof fn law_ascending_edges_have_no_cycle(edges: Map<u64, Edge>, rank: spec_fn(u64) -> int)
    requires
        forall|e: u64| #[trigger]
            edges.contains_key(e) ==> rank(edges[e].src_node.0) < rank(edges[e].dst_node.0),
    ensures
        !has_cycle(edges),
{
    if has_cycle(edges) {
        let walk = choose|walk: Seq<u64>|
            walk.len() >= 2 && walk[0] == walk.last() && #[trigger] is_walk(edges, walk);
        lemma_walk_ascends(edges, rank, walk, walk.len() - 1);
    }
}

proof fn lemma_walk_ascends(
    edges: Map<u64, Edge>,
    rank: spec_fn(u64) -> int,
    walk: Seq<u64>,
    n: int,
)
    requires
        forall|e: u64| #[trigger]
            edges.contains_key(e) ==> rank(edges[e].src_node.0) < rank(edges[e].dst_node.0),
        is_walk(edges, walk),
        0 < n < walk.len(),
    ensures
        rank(walk[0]) < rank(walk[n]),
    decreases n,
{
    let m = n - 1;
    assert(linked(edges, walk[m], walk[n]));
    if n > 1 {
        lemma_walk_ascends(edges, rank, walk, n - 1);
    }
}

/// A cycle with a link that is added is a cycle with an edge that makes that link.
proof fn lemma_cycle_with_edge(edges: Map<u64, Edge>, e: u64, edge: Edge)
    requires
        !edges.contains_key(e),
    ensures
        has_cycle_with(edges, edge.src_node.0, edge.dst_node.0) <==> has_cycle(
            edges.insert(e, edge),
        ),
{
    let more = edges.insert(e, edge);
    let (src, dst) = (edge.src_node.0, edge.dst_node.0);
    if has_cycle_with(edges, src, dst) {
        let walk = choose|walk: Seq<u64>|
            walk.len() >= 2 && walk[0] == walk.last() && #[trigger] is_walk_with(
                edges,
                src,
                dst,
                walk,
            );
        assert forall|i: int, j: int| 0 <= i && j == i + 1 && j < walk.len() implies linked(
            more,
            #[trigger] walk[i],
            #[trigger] walk[j],
        ) by {
            if linked(edges, walk[i], walk[j]) {
                let f = choose|f: u64| #[trigger]
                    edges.contains_key(f) && edges[f].src_node.0 == walk[i] && edges[f].dst_node.0
                        == walk[j];
                assert(more.contains_key(f) && more[f] == edges[f]);
            } else {
                assert(more.contains_key(e));
            }
        }
        assert(is_walk(more, walk));
    }
    if has_cycle(more) {
        let walk = choose|walk: Seq<u64>|
            walk.len() >= 2 && walk[0] == walk.last() && #[trigger] is_walk(more, walk);
        assert forall|i: int, j: int| 0 <= i && j == i + 1 && j < walk.len() implies linked(
            edges,
            #[trigger] walk[i],
            #[trigger] walk[j],
        ) || (walk[i] == src && walk[j] == dst) by {
            assert(linked(more, walk[i], walk[j]));
            let f = choose|f: u64| #[trigger]
                more.contains_key(f) && more[f].src_node.0 == walk[i] && more[f].dst_node.0
                    == walk[j];
            if f != e {
                assert(edges.contains_key(f));
            }
        }
        assert(is_walk_with(edges, src, dst, walk));
    }
}

/// The edges at the ports of a node are found port by port, and at one port in the order of
/// their numbers.
proof fn lemma_ports_in_order(edges: Map<u64, Edge>, node: u64, input: bool, from: int, to: int)
    requires
        are_table_ids(edges.dom()),
        0 <= from,
        to <= u32::MAX,
    ensures
        ({
            let found = edges_at_ports(edges, node, input, from, to);
            &&& forall|i: int|
                0 <= i < found.len() ==> edges.contains_key(#[trigger] found[i]) && (if input {
                    edges[found[i]].dst_node.0 == node && from <= edges[found[i]].dst_port < to
                } else {
                    edges[found[i]].src_node.0 == node && from <= edges[found[i]].src_port < to
                })
            &&& forall|i: int, j: int|
                0 <= i < j < found.len() ==> ({
                    let p = if input {
                        edges[#[trigger] found[i]].dst_port
                    } else {
                        edges[found[i]].src_port
                    };
                    let q = if input {
                        edges[#[trigger] found[j]].dst_port
                    } else {
                        edges[found[j]].src_port
                    };
                    p < q || (p == q && slot_of(found[i]) < slot_of(found[j]))
                })
        }),
    decreases to - from,
{
    if to > from {
        lemma_ports_in_order(edges, node, input, from, to - 1);
        let before = edges_at_ports(edges, node, input, from, to - 1);
        let port = (to - 1) as u32;
        let last = edges_at_port(edges, node, port, input);
        let pattern = if input {
            EdgePattern::ToPort { node: NodeID(node), port }
        } else {
            EdgePattern::FromPort { node: NodeID(node), port }
        };
        lemma_slot_order(edges.dom());
        lemma_among(pattern, edges);
        assert(last == pattern.among(edges));
        assert forall|i: int| 0 <= i < last.len() implies edges.contains_key(#[trigger] last[i])
            && pattern.matches_edge(edges[last[i]]) by {
            assert(pattern.among(edges).contains(last[i]));
        }
        let found = edges_at_ports(edges, node, input, from, to);
        assert(found == before + last);
        assert forall|i: int| 0 <= i < found.len() implies #[trigger] found[i] == (if i
            < before.len() {
            before[i]
        } else {
            last[i - before.len()]
        }) by {}
    }
}

} // verus!
