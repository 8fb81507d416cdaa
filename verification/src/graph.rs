//! The audio graph: nodes, edges and the compiler of its schedule.

pub mod buffers;
pub mod change_laws;
pub mod compiler;
pub mod edge_map;
pub mod laws;
pub mod schedule_laws;
pub mod topology;

use crate::channel_config::{ChannelConfig, ChannelCount};
use crate::context::FirewheelConfig;
use crate::graph::compiler::{
    compile, cycle_detected, graph_wf, edge_wf, CompileGraphError, CompiledSchedule, NodeEntry,
};
use crate::graph::edge_map::{
    edge_map_entries, edge_map_get, edge_map_insert, edge_map_remove, edge_map_with_capacity,
};
use crate::graph::topology::{
    has_cycle, has_cycle_with, lemma_has_cycle_with, linked, Edge, EdgeID, PortIdx,
};
use crate::id_table::{are_table_ids, in_slot_order, is_id, lemma_slot_order_unique, slot_of, slot_order, IdTable};
use crate::node::{AudioNodeInfo, NodeID};
use crate::small_list::SmallList;
use bevy_platform::collections::HashMap;
use vstd::prelude::*;

verus! {

/// What a graph consists of.
#[verifier::ext_equal]
#[verifier::reject_recursive_types(N)]
pub struct GraphView<N> {
    /// The nodes, by identifier.
    pub nodes: Map<u64, NodeEntry<N>>,
    /// The edges, by identifier.
    pub edges: Map<u64, Edge>,
    /// The node that stands for the input of the graph.
    pub graph_in: u64,
    /// The node that stands for the output of the graph.
    pub graph_out: u64,
    /// Whether the graph has changed since it was last compiled.
    pub needs_compile: bool,
    /// The nodes that were removed since the graph was last compiled.
    pub nodes_to_remove: Seq<NodeID>,
    /// All entries that were ever removed.
    pub removed_nodes: Seq<NodeEntry<N>>,
    /// The nodes that want to be called on updates.
    pub nodes_to_update: Seq<NodeID>,
    /// The largest number of nodes that there were at once.
    pub positions: int,
    /// The largest number of nodes that there were at once when the graph was last
    /// compiled.
    pub compiled_positions: usize,
}

/// The ports that an edge joins.
pub open spec fn key_of(edge: Edge) -> (u64, u64, u32, u32) {
    (edge.src_node.0, edge.dst_node.0, edge.src_port, edge.dst_port)
}

impl<N> GraphView<N> {
    /// Validity of a graph: every edge joins ports that exist, on two different
    /// nodes; no two edges join the same ports; nothing leads into the graph
    /// input node, and nothing leaves the graph output node.
    pub open spec fn valid(self) -> bool {
        &&& graph_wf(self.nodes, self.edges, self.graph_in, self.graph_out)
        &&& forall|e: u64| #[trigger]
            self.edges.contains_key(e) ==> self.edges[e].src_node != self.edges[e].dst_node
        &&& forall|e1: u64, e2: u64| #[trigger]
            self.edges.contains_key(e1) && #[trigger] self.edges.contains_key(e2) && key_of(
                self.edges[e1],
            ) == key_of(self.edges[e2]) ==> e1 == e2
    }
}

/// A set of edges.
#[derive(Debug, Clone, Copy)]
pub enum EdgePattern {
    /// The edges that lead to an input port.
    ToPort { node: NodeID, port: PortIdx },
    /// The edges that leave an output port.
    FromPort { node: NodeID, port: PortIdx },
    /// The edges from one node to another.
    Between { src: NodeID, dst: NodeID },
}

impl EdgePattern {
    /// Whether an edge is in the set.
    pub open spec fn matches_edge(self, edge: Edge) -> bool {
        match self {
            EdgePattern::ToPort { node, port } => edge.dst_node == node && edge.dst_port == port,
            EdgePattern::FromPort { node, port } => edge.src_node == node && edge.src_port == port,
            EdgePattern::Between { src, dst } => edge.src_node == src && edge.dst_node == dst,
        }
    }

    /// The edges of the set, in slot order.
    pub open spec fn among(self, edges: Map<u64, Edge>) -> Seq<u64> {
        slot_order(edges.dom()).filter(|e: u64| self.matches_edge(edges[e]))
    }

    fn is_match(&self, edge: &Edge) -> (found: bool)
        ensures
            found == self.matches_edge(*edge),
    {
        match self {
            EdgePattern::ToPort { node, port } => edge.dst_node == *node && edge.dst_port == *port,
            EdgePattern::FromPort { node, port } => edge.src_node == *node && edge.src_port
                == *port,
            EdgePattern::Between { src, dst } => edge.src_node == *src && edge.dst_node == *dst,
        }
    }
}

/// The edges at a port of a node, in slot order.
pub open spec fn edges_at_port(edges: Map<u64, Edge>, node: u64, port: u32, input: bool) -> Seq<
    u64,
> {
    if input {
        (EdgePattern::ToPort { node: NodeID(node), port }).among(edges)
    } else {
        (EdgePattern::FromPort { node: NodeID(node), port }).among(edges)
    }
}

/// The edges at the ports `from..to` of a node, port by port.
pub open spec fn edges_at_ports(
    edges: Map<u64, Edge>,
    node: u64,
    input: bool,
    from: int,
    to: int,
) -> Seq<u64>
    decreases to - from,
{
    if to <= from {
        Seq::empty()
    } else {
        edges_at_ports(edges, node, input, from, to - 1) + edges_at_port(
            edges,
            node,
            (to - 1) as u32,
            input,
        )
    }
}

/// Why a node could not be removed.
#[derive(Debug, Clone, Copy, PartialEq, Eq, Structural)]
pub enum RemoveNodeError {
    /// Removing the graph input node is not allowed.
    CannotRemoveGraphInNode,
    /// Removing the graph output node is not allowed.
    CannotRemoveGraphOutNode,
}

/// Why edges could not be added.
#[derive(Debug, Clone, Copy, PartialEq, Eq, Structural)]
pub enum AddEdgeError {
    /// The given source node was not found in the graph.
    SrcNodeNotFound(NodeID),
    /// The given destination node was not found in the graph.
    DstNodeNotFound(NodeID),
    /// The given input port index is out of range.
    InPortOutOfRange { node: NodeID, port_idx: PortIdx, num_in_ports: ChannelCount },
    /// The given output port index is out of range.
    OutPortOutOfRange { node: NodeID, port_idx: PortIdx, num_out_ports: ChannelCount },
    /// This edge would have created a cycle in the graph.
    CycleDetected,
}

/// The audio graph interface.
#[verifier::reject_recursive_types(N)]
pub struct AudioGraph<N> {
    nodes: IdTable<NodeEntry<N>>,
    edges: IdTable<Edge>,
    existing_edges: HashMap<(u64, u64, u32, u32), u64>,
    graph_in_id: NodeID,
    graph_out_id: NodeID,
    needs_compile: bool,
    nodes_to_remove_from_schedule: Vec<NodeID>,
    removed_nodes: Vec<NodeEntry<N>>,
    nodes_to_call_update_method: Vec<NodeID>,
    prev_node_positions: usize,
}

impl<N> View for AudioGraph<N> {
    type V = GraphView<N>;

    closed spec fn view(&self) -> GraphView<N> {
        GraphView {
            nodes: self.nodes@,
            edges: self.edges@,
            graph_in: self.graph_in_id.0,
            graph_out: self.graph_out_id.0,
            needs_compile: self.needs_compile,
            nodes_to_remove: self.nodes_to_remove_from_schedule@,
            removed_nodes: self.removed_nodes@,
            nodes_to_update: self.nodes_to_call_update_method@,
            positions: self.nodes.num_positions(),
            compiled_positions: self.prev_node_positions,
        }
    }
}

impl<N> AudioGraph<N> {
    /// Well-formedness: the graph is valid, and the map finds exactly its edges.
    pub closed spec fn wf(&self) -> bool {
        let map = edge_map_entries(self.existing_edges);
        &&& self.nodes.wf()
        &&& self.edges.wf()
        &&& graph_wf(self.nodes@, self.edges@, self.graph_in_id.0, self.graph_out_id.0)
        &&& forall|e: u64| #[trigger]
            self.edges@.contains_key(e) ==> self.edges@[e].src_node != self.edges@[e].dst_node
        &&& forall|e: u64| #[trigger]
            self.edges@.contains_key(e) ==> map.contains_key(key_of(self.edges@[e]))
                && map[key_of(self.edges@[e])] == e
        &&& forall|k: (u64, u64, u32, u32)| #[trigger]
            map.contains_key(k) ==> self.edges@.contains_key(map[k]) && key_of(
                self.edges@[map[k]],
            ) == k
    }

    /// Every graph is valid.
    pub proof fn lemma_valid(&self)
        requires
            self.wf(),
        ensures
            self@.valid(),
            self@.nodes.dom().finite(),
            self@.edges.dom().finite(),
            are_table_ids(self@.nodes.dom()),
            are_table_ids(self@.edges.dom()),
            self@.nodes.len() <= self@.positions,
    {
        self.nodes.lemma_ids();
        self.edges.lemma_ids();
        assert forall|k1: u64, k2: u64| #[trigger]
            self@.nodes.dom().contains(k1) && #[trigger] self@.nodes.dom().contains(k2) && k1
                != k2 implies slot_of(k1) != slot_of(k2) by {
            assert(self.nodes@.contains_key(k1) && self.nodes@.contains_key(k2));
        }
        assert forall|k: u64| #[trigger] self@.nodes.dom().contains(k) implies is_id(k) by {
            assert(self.nodes@.contains_key(k));
        }
        assert forall|k1: u64, k2: u64| #[trigger]
            self@.edges.dom().contains(k1) && #[trigger] self@.edges.dom().contains(k2) && k1
                != k2 implies slot_of(k1) != slot_of(k2) by {
            assert(self.edges@.contains_key(k1) && self.edges@.contains_key(k2));
        }
        assert forall|k: u64| #[trigger] self@.edges.dom().contains(k) implies is_id(k) by {
            assert(self.edges@.contains_key(k));
        }
    }

    /// The edges that match a pattern.
    fn find_edges(&self, pattern: EdgePattern) -> (list: SmallList)
        requires
            self.wf(),
        ensures
            list@ == pattern.among(self@.edges),
            list@.no_duplicates(),
            forall|e: u64| #[trigger]
                list@.contains(e) <==> self@.edges.contains_key(e) && pattern.matches_edge(
                    self@.edges[e],
                ),
    {
        let ids = self.edges.ids();
        let num: usize = ids.len();
        let mut list = SmallList::new();
        let ghost edges = self.edges@;
        let ghost p = |e: u64| pattern.matches_edge(edges[e]);
        proof {
            reveal(Seq::filter);
            assert(ids@.take(0).filter(p) =~= Seq::<u64>::empty());
        }
        for i in 0..num
            invariant
                self.wf(),
                edges == self.edges@,
                num == ids@.len(),
                ids@.to_set() == edges.dom(),
                p == (|e: u64| pattern.matches_edge(edges[e])),
                list@ == ids@.take(i as int).filter(p),
        {
            let e: u64 = ids[i];
            proof {
                assert(ids@.to_set().contains(e));
                assert(ids@.take(i + 1) =~= ids@.take(i as int).push(e));
                ids@.take(i as int).lemma_filter_push(e, p);
            }
            if let Some(edge) = self.edges.get(e) {
                if pattern.is_match(edge) {
                    list.push(e);
                }
            }
        }
        proof {
            assert(ids@.take(num as int) =~= ids@);
            self.edges.lemma_ids();
            lemma_among(pattern, edges);
        }
        list
    }

    /// Remove a connection (edge) via the edge's unique ID.
    ///
    /// If the edge did not exist in this graph, then `false` will be returned.
    pub fn disconnect_by_edge_id(&mut self, edge_id: EdgeID) -> (removed: bool)
        requires
            old(self).wf(),
        ensures
            final(self).wf(),
            removed == old(self)@.edges.contains_key(edge_id.0),
            final(self)@ == (GraphView {
                edges: old(self)@.edges.remove(edge_id.0),
                needs_compile: old(self)@.needs_compile || removed,
                ..old(self)@
            }),
    {
        match self.edges.remove(edge_id.0) {
            Some(edge) => {
                edge_map_remove(
                    &mut self.existing_edges,
                    (edge.src_node.0, edge.dst_node.0, edge.src_port, edge.dst_port),
                );
                self.needs_compile = true;
                true
            },
            None => {
                assert(self@ =~= old(self)@);
                false
            },
        }
    }

    /// Removes edges that are in the graph.
    fn disconnect_list(&mut self, list: &SmallList)
        requires
            old(self).wf(),
            list@.no_duplicates(),
            forall|e: u64| #[trigger] list@.contains(e) ==> old(self)@.edges.contains_key(e),
        ensures
            final(self).wf(),
            final(self)@ == (GraphView {
                edges: old(self)@.edges.remove_keys(list@.to_set()),
                needs_compile: old(self)@.needs_compile || list@.len() > 0,
                ..old(self)@
            }),
    {
        let num: usize = list.len();
        proof {
            assert(old(self)@.edges.remove_keys(list@.take(0).to_set()) =~= old(self)@.edges);
        }
        for i in 0..num
            invariant
                self.wf(),
                num == list@.len(),
                list@.no_duplicates(),
                forall|e: u64| #[trigger] list@.contains(e) ==> old(self)@.edges.contains_key(e),
                self@ == (GraphView {
                    edges: old(self)@.edges.remove_keys(list@.take(i as int).to_set()),
                    needs_compile: old(self)@.needs_compile || i > 0,
                    ..old(self)@
                }),
        {
            let e: u64 = list.get(i);
            proof {
                assert(list@.contains(e));
                assert(list@.take(i + 1) =~= list@.take(i as int).push(e));
                list@.take(i as int).lemma_push_to_set_commute(e);
                assert(!list@.take(i as int).contains(e)) by {
                    if list@.take(i as int).contains(e) {
                        let j = list@.take(i as int).index_of(e);
                        assert(list@[j] == e);
                    }
                }
                assert(self@.edges.remove(e) =~= old(self)@.edges.remove_keys(
                    list@.take(i + 1).to_set(),
                ));
            }
            self.disconnect_by_edge_id(EdgeID(e));
        }
        assert(list@.take(num as int) =~= list@);
    }

    /// Removes the edges at the ports `from..to` of a node, port by port.
    fn remove_edges_at_ports(&mut self, node_id: NodeID, input: bool, from: u32, to: u32) -> (
    removed: SmallList)
        requires
            old(self).wf(),
        ensures
            final(self).wf(),
            removed@ == edges_at_ports(old(self)@.edges, node_id.0, input, from as int, to as int),
            forall|e: u64| #[trigger]
                removed@.contains(e) <==> old(self)@.edges.contains_key(e) && at_ports(
                    old(self)@.edges[e],
                    node_id.0,
                    input,
                    from as int,
                    to as int,
                ),
            removed@.no_duplicates(),
            final(self)@ == (GraphView {
                edges: old(self)@.edges.remove_keys(removed@.to_set()),
                needs_compile: old(self)@.needs_compile || removed@.len() > 0,
                ..old(self)@
            }),
    {
        let mut removed = SmallList::new();
        let mut port: u32 = from;
        let ghost edges0 = self@.edges;
        proof {
            assert(edges0.remove_keys(removed@.to_set()) =~= edges0);
            assert(self@ =~= (GraphView {
                edges: edges0.remove_keys(removed@.to_set()),
                needs_compile: old(self)@.needs_compile || removed@.len() > 0,
                ..old(self)@
            }));
        }
        while port < to
            invariant
                self.wf(),
                from <= port,
                port <= to || port == from,
                edges0 == old(self)@.edges,
                old(self).wf(),
                removed@ == edges_at_ports(edges0, node_id.0, input, from as int, port as int),
                forall|e: u64| #[trigger]
                    removed@.contains(e) <==> edges0.contains_key(e) && at_ports(
                        edges0[e],
                        node_id.0,
                        input,
                        from as int,
                        port as int,
                    ),
                removed@.no_duplicates(),
                self@ == (GraphView {
                    edges: edges0.remove_keys(removed@.to_set()),
                    needs_compile: old(self)@.needs_compile || removed@.len() > 0,
                    ..old(self)@
                }),
            decreases to - port,
        {
            let ghost removed1 = removed@;
            let pattern = if input {
                EdgePattern::ToPort { node: node_id, port }
            } else {
                EdgePattern::FromPort { node: node_id, port }
            };
            let list = self.find_edges(pattern);
            let ghost edges1 = self@.edges;
            proof {
                old(self).edges.lemma_ids();
                self.edges.lemma_ids();
                assert forall|e: u64| #[trigger] edges0.contains_key(e) && pattern.matches_edge(
                    edges0[e],
                ) implies edges1.contains_key(e) by {
                    assert(!removed1.contains(e));
                    assert(!removed1.to_set().contains(e));
                }
                lemma_among_same(pattern, edges0, edges1);
            }
            self.disconnect_list(&list);
            removed.append(&list);
            proof {
                lemma_listed_once(edges0, removed1, list@);
                vstd::seq_lib::seq_to_set_distributes_over_add(removed1, list@);
                assert(self@.edges =~= edges0.remove_keys(removed@.to_set()));
                assert(self@ =~= (GraphView {
                    edges: edges0.remove_keys(removed@.to_set()),
                    needs_compile: old(self)@.needs_compile || removed@.len() > 0,
                    ..old(self)@
                }));
                assert forall|e: u64| #[trigger] removed@.contains(e) <==> edges0.contains_key(e)
                    && at_ports(edges0[e], node_id.0, input, from as int, port + 1) by {
                    assert(removed@.to_set().contains(e) <==> removed1.to_set().contains(e)
                        || list@.to_set().contains(e));
                    assert(list@.contains(e) <==> edges1.contains_key(e) && pattern.matches_edge(
                        edges1[e],
                    ));
                }
            }
            port = port + 1;
        }
        removed
    }

    /// What removing a node does.
    pub open spec fn node_removed(
        before: GraphView<N>,
        node_id: NodeID,
        after: GraphView<N>,
        result: Result<SmallList, RemoveNodeError>,
    ) -> bool {
        &&& match result {
            Err(RemoveNodeError::CannotRemoveGraphInNode) => node_id.0 == before.graph_in
                && after == before,
            Err(RemoveNodeError::CannotRemoveGraphOutNode) => node_id.0 == before.graph_out
                && after == before,
            Ok(removed) => {
                &&& node_id.0 != before.graph_in
                &&& node_id.0 != before.graph_out
                &&& removed@ == edges_of_node(before, node_id.0)
                &&& removed@.no_duplicates()
                &&& forall|e: u64| #[trigger]
                    removed@.contains(e) <==> before.edges.contains_key(e) && touches(
                        before.edges[e],
                        node_id.0,
                    )
                &&& after == if before.nodes.contains_key(node_id.0) {
                    GraphView {
                        nodes: before.nodes.remove(node_id.0),
                        edges: before.edges.remove_keys(removed@.to_set()),
                        needs_compile: true,
                        nodes_to_remove: before.nodes_to_remove.push(node_id),
                        removed_nodes: before.removed_nodes.push(
                            before.nodes[node_id.0],
                        ),
                        ..before
                    }
                } else {
                    before
                }
            },
        }
    }

    /// Remove the given node from the audio graph.
    ///
    /// This will automatically remove all edges from the graph that
    /// were connected to this node.
    ///
    /// On success, this returns a list of all edges that were removed
    /// from the graph as a result of removing this node.
    ///
    /// This will return an error if the ID is of the graph input or graph
    /// output node.
    pub fn remove_node(&mut self, node_id: NodeID) -> (result: Result<SmallList, RemoveNodeError>)
        requires
            old(self).wf(),
        ensures
            final(self).wf(),
            Self::node_removed(old(self)@, node_id, final(self)@, result),
    {
        if node_id == self.graph_in_id {
            return Err(RemoveNodeError::CannotRemoveGraphInNode);
        }
        if node_id == self.graph_out_id {
            return Err(RemoveNodeError::CannotRemoveGraphOutNode);
        }
        let ghost edges0 = self@.edges;
        let (num_inputs, num_outputs): (u32, u32) = match self.nodes.get(node_id.0) {
            Some(entry) => (
                entry.info.channel_config.num_inputs.get(),
                entry.info.channel_config.num_outputs.get(),
            ),
            None => {
                let none = SmallList::new();
                proof {
                    assert forall|e: u64| edges0.contains_key(e) implies !touches(
                        edges0[e],
                        node_id.0,
                    ) by {
                        assert(edge_wf(self.nodes@, edges0[e], e));
                    }
                }
                return Ok(none);
            },
        };
        let mut removed_edges = self.remove_edges_at_ports(node_id, true, 0, num_inputs);
        let ghost removed1 = removed_edges@;
        let ghost edges1 = self@.edges;
        proof {
            assert forall|e: u64| #[trigger] edges0.contains_key(e) && at_ports(
                edges0[e],
                node_id.0,
                false,
                0,
                num_outputs as int,
            ) implies edges1.contains_key(e) by {
                assert(!removed1.to_set().contains(e)) by {
                    assert(edge_wf(old(self).nodes@, edges0[e], e));
                }
            }
            old(self).edges.lemma_ids();
            self.edges.lemma_ids();
            lemma_edges_at_ports_same(
                edges0,
                edges1,
                node_id.0,
                false,
                0,
                num_outputs as int,
            );
        }
        let more = self.remove_edges_at_ports(node_id, false, 0, num_outputs);
        removed_edges.append(&more);
        proof {
            lemma_listed_once(edges0, removed1, more@);
            vstd::seq_lib::seq_to_set_distributes_over_add(removed1, more@);
            assert(self@.edges =~= edges0.remove_keys(removed_edges@.to_set()));
            assert forall|e: u64| #[trigger] removed_edges@.contains(e) <==> edges0.contains_key(e)
                && touches(edges0[e], node_id.0) by {
                assert(removed_edges@.to_set().contains(e) <==> removed1.to_set().contains(e)
                    || more@.to_set().contains(e));
                if edges0.contains_key(e) {
                    assert(edge_wf(old(self).nodes@, edges0[e], e));
                }
            }
            assert forall|e: u64| #[trigger] self@.edges.contains_key(e) implies !touches(
                self@.edges[e],
                node_id.0,
            ) by {
                assert(edges0.contains_key(e));
                assert(!removed_edges@.to_set().contains(e));
                assert(!removed_edges@.contains(e));
            }
        }
        if let Some(node_entry) = self.nodes.remove(node_id.0) {
            self.nodes_to_remove_from_schedule.push(node_id);
            self.removed_nodes.push(node_entry);
        }
        self.needs_compile = true;
        proof {
            assert forall|e: u64| #[trigger] self.edges@.contains_key(e) implies edge_wf(
                self.nodes@,
                self.edges@[e],
                e,
            ) by {
                assert(edge_wf(old(self).nodes@, edges0[e], e));
                assert(!touches(self.edges@[e], node_id.0));
            }
        }
        Ok(removed_edges)
    }

    /// What setting the channels of the graph does.
    pub open spec fn channels_set(
        before: GraphView<N>,
        channel_config: ChannelConfig,
        after: GraphView<N>,
        removed: SmallList,
    ) -> bool {
        &&& removed@ == edges_at_ports(
            before.edges,
            before.graph_in,
            false,
            channel_config.inputs() as int,
            before.num_graph_inputs(),
        ) + edges_at_ports(
            before.edges.remove_keys(
                edges_at_ports(
                    before.edges,
                    before.graph_in,
                    false,
                    channel_config.inputs() as int,
                    before.num_graph_inputs(),
                ).to_set(),
            ),
            before.graph_out,
            true,
            channel_config.outputs() as int,
            before.num_graph_outputs(),
        )
        &&& forall|e: u64| #[trigger]
            removed@.contains(e) <==> before.edges.contains_key(e) && (at_ports(
                before.edges[e],
                before.graph_in,
                false,
                channel_config.inputs() as int,
                before.num_graph_inputs(),
            ) || at_ports(
                before.edges[e],
                before.graph_out,
                true,
                channel_config.outputs() as int,
                before.num_graph_outputs(),
            ))
        &&& removed@.no_duplicates()
        &&& after.num_graph_inputs() == channel_config.inputs()
        &&& after.num_graph_outputs() == channel_config.outputs()
        &&& same_but_channels(
            after.nodes[before.graph_in],
            before.nodes[before.graph_in],
        )
        &&& same_but_channels(
            after.nodes[before.graph_out],
            before.nodes[before.graph_out],
        )
        &&& after.nodes.dom() == before.nodes.dom()
        &&& forall|k: u64| #[trigger]
            before.nodes.contains_key(k) && k != before.graph_in && k
                != before.graph_out ==> after.nodes[k] == before.nodes[k]
        &&& after == (GraphView {
            nodes: after.nodes,
            edges: before.edges.remove_keys(removed@.to_set()),
            needs_compile: before.needs_compile || channel_config.inputs()
                != before.num_graph_inputs() || channel_config.outputs()
                != before.num_graph_outputs(),
            ..before
        })
    }

    /// Set the number of input and output channels to and from the audio graph.
    ///
    /// Returns the list of edges that were removed.
    pub fn set_graph_channel_config(&mut self, channel_config: ChannelConfig) -> (removed: SmallList)
        requires
            old(self).wf(),
        ensures
            final(self).wf(),
            Self::channels_set(old(self)@, channel_config, final(self)@, removed),
    {
        let ghost edges0 = self@.edges;
        let ghost gin = self@.graph_in;
        let ghost gout = self@.graph_out;
        let old_num_inputs: u32 = match self.nodes.get(self.graph_in_id.0) {
            Some(entry) => entry.info.channel_config.num_outputs.get(),
            None => 0,
        };
        let old_num_outputs: u32 = match self.nodes.get(self.graph_out_id.0) {
            Some(entry) => entry.info.channel_config.num_inputs.get(),
            None => 0,
        };
        let num_inputs: u32 = channel_config.num_inputs.get();
        let num_outputs: u32 = channel_config.num_outputs.get();

        let mut removed = self.remove_edges_at_ports(
            self.graph_in_id,
            false,
            num_inputs,
            old_num_inputs,
        );
        let ghost removed1 = removed@;
        let ghost edges1 = self@.edges;
        let ghost nodes1 = self@.nodes;
        let ghost state1 = *self;
        if num_inputs != old_num_inputs {
            if let Some(entry) = self.nodes.get_mut(self.graph_in_id.0) {
                entry.info.channel_config.num_outputs = channel_config.num_inputs;
            }
            self.needs_compile = true;
        }
        proof {
            assert forall|e: u64| #[trigger] self.edges@.contains_key(e) implies edge_wf(
                self.nodes@,
                self.edges@[e],
                e,
            ) by {
                assert(edge_wf(nodes1, edges1[e], e));
                assert(edges0.contains_key(e));
                assert(!removed1.to_set().contains(e));
                assert(!removed1.contains(e));
            }
            assert(self.wf());
        }

        let more = self.remove_edges_at_ports(
            self.graph_out_id,
            true,
            num_outputs,
            old_num_outputs,
        );
        removed.append(&more);
        let ghost edges2 = self@.edges;
        let ghost nodes2 = self@.nodes;
        if num_outputs != old_num_outputs {
            if let Some(entry) = self.nodes.get_mut(self.graph_out_id.0) {
                entry.info.channel_config.num_inputs = channel_config.num_outputs;
            }
            self.needs_compile = true;
        }
        proof {
            assert forall|e: u64| #[trigger] self.edges@.contains_key(e) implies edge_wf(
                self.nodes@,
                self.edges@[e],
                e,
            ) by {
                assert(edge_wf(nodes2, edges2[e], e));
                assert(edges1.contains_key(e));
                assert(!more@.to_set().contains(e));
                assert(!more@.contains(e));
            }
            lemma_listed_once(edges0, removed1, more@);
            vstd::seq_lib::seq_to_set_distributes_over_add(removed1, more@);
            assert(self@.edges =~= edges0.remove_keys(removed@.to_set()));
            assert forall|e: u64| #[trigger] removed@.contains(e) <==> edges0.contains_key(e) && (
            at_ports(edges0[e], gin, false, num_inputs as int, old_num_inputs as int) || at_ports(
                edges0[e],
                gout,
                true,
                num_outputs as int,
                old_num_outputs as int,
            )) by {
                assert(removed@.to_set().contains(e) <==> removed1.to_set().contains(e)
                    || more@.to_set().contains(e));
                assert(more@.contains(e) <==> edges1.contains_key(e) && at_ports(
                    edges1[e],
                    gout,
                    true,
                    num_outputs as int,
                    old_num_outputs as int,
                ));
            }
            assert(self@.nodes.dom() =~= old(self)@.nodes.dom());
        }
        removed
    }

    /// Adds one edge, unless the ports are joined already. Returns the edge that
    /// joins the ports, and whether it was added.
    fn join(&mut self, src_node: NodeID, dst_node: NodeID, src_port: u32, dst_port: u32) -> (result:
        (u64, bool))
        requires
            old(self).wf(),
            old(self)@.edges.len() < 0xFFFF_FFFF,
            old(self)@.nodes.contains_key(src_node.0),
            old(self)@.nodes.contains_key(dst_node.0),
            src_node != dst_node,
            src_port < old(self)@.nodes[src_node.0].info.channel_config.outputs(),
            dst_port < old(self)@.nodes[dst_node.0].info.channel_config.inputs(),
        ensures
            final(self).wf(),
            final(self)@.edges.contains_key(result.0),
            key_of(final(self)@.edges[result.0]) == (src_node.0, dst_node.0, src_port, dst_port),
            result.1 == !old(self)@.edges.contains_key(result.0),
            final(self)@ == (GraphView {
                edges: if result.1 {
                    old(self)@.edges.insert(result.0, final(self)@.edges[result.0])
                } else {
                    old(self)@.edges
                },
                ..old(self)@
            }),
    {
        let key: (u64, u64, u32, u32) = (src_node.0, dst_node.0, src_port, dst_port);
        if let Some(id) = edge_map_get(&self.existing_edges, key) {
            // The caller gave us more than one of the same edge.
            return (id, false);
        }
        let edge = Edge { id: EdgeID(0), src_node, src_port, dst_node, dst_port };
        let id: u64 = self.edges.insert(edge);
        if let Some(edge) = self.edges.get_mut(id) {
            edge.id = EdgeID(id);
        }
        edge_map_insert(&mut self.existing_edges, key, id);
        proof {
            let edges = self.edges@;
            assert forall|e: u64| #[trigger] edges.contains_key(e) && e != id implies key_of(
                edges[e],
            ) != key by {
                assert(old(self).edges@.contains_key(e));
            }
            assert forall|e: u64| #[trigger] edges.contains_key(e) implies edge_wf(
                self.nodes@,
                edges[e],
                e,
            ) by {
                if e != id {
                    assert(edge_wf(old(self).nodes@, old(self).edges@[e], e));
                }
            }
            assert(self@.edges =~= old(self)@.edges.insert(id, self@.edges[id]));
        }
        (id, true)
    }

    /// What connecting ports does.
    pub open spec fn connected(
        before: GraphView<N>,
        src_node: NodeID,
        dst_node: NodeID,
        ports_src_dst: Seq<(PortIdx, PortIdx)>,
        check_for_cycles: bool,
        after: GraphView<N>,
        result: Result<SmallList, AddEdgeError>,
    ) -> bool {
        &&& match result {
            Err(error) => after == before && connect_error(
                before,
                src_node,
                dst_node,
                ports_src_dst,
                check_for_cycles,
                error,
            ),
            Ok(ids) => connects(before, src_node, dst_node, ports_src_dst) && !(
            check_for_cycles && connect_makes_cycle(
                before.edges,
                src_node,
                dst_node,
                ports_src_dst,
            )) && joined(
                before.edges,
                after.edges,
                src_node,
                dst_node,
                ports_src_dst,
                ids@,
            ) && after == (GraphView {
                edges: after.edges,
                needs_compile: true,
                ..before
            }),
        }
    }

    /// Add connections (edges) between two nodes to the graph.
    ///
    /// * `src_node` - The ID of the source node.
    /// * `dst_node` - The ID of the destination node.
    /// * `ports_src_dst` - The port indices for each connection to make,
    /// where the first value in a tuple is the output port on `src_node`,
    /// and the second value in that tuple is the input port on `dst_node`.
    /// * `check_for_cycles` - If `true`, then this will run a check to
    /// see if adding these edges will create a cycle in the graph, and
    /// return an error if it does. Note, checking for cycles can be quite
    /// expensive, so avoid enabling this when calling this method many times
    /// in a row.
    ///
    /// If successful, then this returns a list of edge IDs in order.
    ///
    /// If this returns an error, then the audio graph has not been
    /// modified.
    #[verifier::spinoff_prover]
    #[verifier::rlimit(60)]
    pub fn connect(
        &mut self,
        src_node: NodeID,
        dst_node: NodeID,
        ports_src_dst: &[(PortIdx, PortIdx)],
        check_for_cycles: bool,
    ) -> (result: Result<SmallList, AddEdgeError>)
        requires
            old(self).wf(),
            old(self)@.edges.len() + ports_src_dst@.len() <= 0xFFFF_FFFF,
        ensures
            final(self).wf(),
            Self::connected(
                old(self)@,
                src_node,
                dst_node,
                ports_src_dst@,
                check_for_cycles,
                final(self)@,
                result,
            ),
    {
        let num_outputs: ChannelCount = match self.nodes.get(src_node.0) {
            Some(entry) => entry.info.channel_config.num_outputs,
            None => {
                return Err(AddEdgeError::SrcNodeNotFound(src_node));
            },
        };
        let num_inputs: ChannelCount = match self.nodes.get(dst_node.0) {
            Some(entry) => entry.info.channel_config.num_inputs,
            None => {
                return Err(AddEdgeError::DstNodeNotFound(dst_node));
            },
        };
        if src_node == dst_node {
            return Err(AddEdgeError::CycleDetected);
        }
        let num_ports: usize = ports_src_dst.len();
        for i in 0..num_ports
            invariant
                *self == *old(self),
                num_ports == ports_src_dst@.len(),
                self.wf(),
                self@.nodes.contains_key(src_node.0),
                self@.nodes.contains_key(dst_node.0),
                src_node != dst_node,
                num_outputs == self@.nodes[src_node.0].info.channel_config.num_outputs,
                num_inputs == self@.nodes[dst_node.0].info.channel_config.num_inputs,
                forall|j: int|
                    0 <= j < i ==> ports_exist(
                        self@,
                        src_node,
                        dst_node,
                        #[trigger] ports_src_dst@[j],
                    ),
        {
            let (src_port, dst_port): (PortIdx, PortIdx) = ports_src_dst[i];
            if src_port >= num_outputs.get() {
                proof {
                    assert(!ports_exist(self@, src_node, dst_node, ports_src_dst@[i as int]));
                    lemma_first_bad(self@, src_node, dst_node, ports_src_dst@, i as int);
                }
                return Err(
                    AddEdgeError::OutPortOutOfRange {
                        node: src_node,
                        port_idx: src_port,
                        num_out_ports: num_outputs,
                    },
                );
            }
            if dst_port >= num_inputs.get() {
                proof {
                    assert(!ports_exist(self@, src_node, dst_node, ports_src_dst@[i as int]));
                    lemma_first_bad(self@, src_node, dst_node, ports_src_dst@, i as int);
                }
                return Err(
                    AddEdgeError::InPortOutOfRange {
                        node: dst_node,
                        port_idx: dst_port,
                        num_in_ports: num_inputs,
                    },
                );
            }
        }
        assert(connects(self@, src_node, dst_node, ports_src_dst@));

        let mut edge_ids = SmallList::new();
        let mut new_ids: Vec<u64> = Vec::new();
        let ghost edges0 = self@.edges;
        let ghost view0 = self@;
        proof {
            self.edges.lemma_ids();
            assert(self@ =~= (GraphView { edges: self@.edges, ..view0 }));
        }
        for i in 0..num_ports
            invariant
                num_ports == ports_src_dst@.len(),
                self.wf(),
                view0 == old(self)@,
                edges0 == view0.edges,
                edges0.dom().finite(),
                edges0.len() + ports_src_dst@.len() <= 0xFFFF_FFFF,
                connects(view0, src_node, dst_node, ports_src_dst@),
                self@ == (GraphView { edges: self@.edges, ..view0 }),
                self@.edges.dom().finite(),
                self@.edges.len() <= edges0.len() + i,
                new_ids@.no_duplicates(),
                forall|e: u64| #[trigger]
                    edges0.contains_key(e) ==> self@.edges.contains_key(e) && self@.edges[e]
                        == edges0[e],
                forall|e: u64| #[trigger]
                    self@.edges.contains_key(e) ==> edges0.contains_key(e) || new_ids@.contains(e),
                forall|e: u64| #[trigger]
                    new_ids@.contains(e) ==> self@.edges.contains_key(e) && !edges0.contains_key(e)
                        && edge_ids@.contains(e),
                edge_ids@.len() == i,
                forall|j: int|
                    0 <= j < i ==> self@.edges.contains_key(#[trigger] edge_ids@[j]) && key_of(
                        self@.edges[edge_ids@[j]],
                    ) == (
                        src_node.0,
                        dst_node.0,
                        ports_src_dst@[j].0,
                        ports_src_dst@[j].1,
                    ),
        {
            let (src_port, dst_port): (PortIdx, PortIdx) = ports_src_dst[i];
            let ghost ids1 = edge_ids@;
            let ghost new1 = new_ids@;
            let ghost edges1 = self@.edges;
            assert(ports_exist(view0, src_node, dst_node, ports_src_dst@[i as int]));
            let (id, added): (u64, bool) = self.join(src_node, dst_node, src_port, dst_port);
            edge_ids.push(id);
            proof {
                assert(edge_ids@[i as int] == id);
                assert forall|e: u64| #[trigger] ids1.contains(e) implies edge_ids@.contains(e) by {
                    let j = ids1.index_of(e);
                    assert(edge_ids@[j] == e);
                }
            }
            if added {
                assert(!new1.contains(id)) by {
                    if new1.contains(id) {
                        assert(edges1.contains_key(id));
                    }
                }
                new_ids.push(id);
                proof {
                    assert(new_ids@[new1.len() as int] == id);
                    assert forall|e: u64| #[trigger] new1.contains(e) implies new_ids@.contains(
                        e,
                    ) by {
                        let j = new1.index_of(e);
                        assert(new_ids@[j] == e);
                    }
                    assert forall|e: u64| #[trigger] new_ids@.contains(e) implies new1.contains(e)
                        || e == id by {
                        let j = new_ids@.index_of(e);
                        if j < new1.len() {
                            assert(new1[j] == e);
                        }
                    }
                }
            }
            proof {
                assert forall|j: int| 0 <= j < i + 1 implies self@.edges.contains_key(
                    #[trigger] edge_ids@[j],
                ) && key_of(self@.edges[edge_ids@[j]]) == (
                    src_node.0,
                    dst_node.0,
                    ports_src_dst@[j].0,
                    ports_src_dst@[j].1,
                ) by {
                    if j < i {
                        assert(edge_ids@[j] == ids1[j]);
                        assert(edges1.contains_key(ids1[j]));
                    }
                }
            }
        }
        proof {
            assert(joined(
                edges0,
                self@.edges,
                src_node,
                dst_node,
                ports_src_dst@,
                edge_ids@,
            ));
            lemma_joined_cycle(
                edges0,
                self@.edges,
                src_node,
                dst_node,
                ports_src_dst@,
                edge_ids@,
            );
        }

        if check_for_cycles {
            if self.cycle_detected() {
                let needs_compile = self.needs_compile;
                let num_new: usize = new_ids.len();
                assert(new_ids@.skip(0) =~= new_ids@);
                for i in 0..num_new
                    invariant
                        num_new == new_ids@.len(),
                        new_ids@.no_duplicates(),
                        self.wf(),
                        self@ == (GraphView {
                            edges: self@.edges,
                            needs_compile: self@.needs_compile,
                            ..view0
                        }),
                        forall|e: u64| #[trigger]
                            edges0.contains_key(e) ==> self@.edges.contains_key(e) && self@.edges[e]
                                == edges0[e],
                        forall|e: u64| #[trigger]
                            self@.edges.contains_key(e) ==> edges0.contains_key(e)
                                || new_ids@.skip(i as int).contains(e),
                        forall|e: u64| #[trigger] new_ids@.contains(e) ==> !edges0.contains_key(e),
                {
                    let id: u64 = new_ids[i];
                    let ghost rest = new_ids@.skip(i as int);
                    let ghost rest2 = new_ids@.skip(i + 1);
                    proof {
                        assert(new_ids@.contains(id));
                    }
                    self.disconnect_by_edge_id(EdgeID(id));
                    proof {
                        assert forall|e: u64| #[trigger] self@.edges.contains_key(
                            e,
                        ) implies edges0.contains_key(e) || rest2.contains(e) by {
                            if rest.contains(e) {
                                let j = rest.index_of(e);
                                if j > 0 {
                                    assert(rest2[j - 1] == e);
                                }
                            }
                        }
                    }
                }
                self.needs_compile = needs_compile;
                proof {
                    assert forall|e: u64| #[trigger] self@.edges.contains_key(
                        e,
                    ) implies edges0.contains_key(e) by {
                        if new_ids@.skip(num_new as int).contains(e) {
                            assert(new_ids@.skip(num_new as int).len() == 0);
                        }
                    }
                    assert(self@.edges =~= edges0);
                    assert(self@ =~= old(self)@);
                }
                return Err(AddEdgeError::CycleDetected);
            }
        }
        self.needs_compile = true;
        Ok(edge_ids)
    }

    /// What disconnecting ports does.
    pub open spec fn disconnected(
        before: GraphView<N>,
        src_node: NodeID,
        dst_node: NodeID,
        ports_src_dst: Seq<(PortIdx, PortIdx)>,
        after: GraphView<N>,
        any_removed: bool,
    ) -> bool {
        &&& any_removed <==> exists|e: u64| #[trigger]
            before.edges.contains_key(e) && joins_any(
                before.edges[e],
                src_node,
                dst_node,
                ports_src_dst,
            )
        &&& forall|e: u64| #[trigger]
            after.edges.contains_key(e) <==> before.edges.contains_key(e)
                && !joins_any(before.edges[e], src_node, dst_node, ports_src_dst)
        &&& forall|e: u64| #[trigger]
            after.edges.contains_key(e) ==> after.edges[e] == before.edges[e]
        &&& after == (GraphView {
            edges: after.edges,
            needs_compile: before.needs_compile || any_removed,
            ..before
        })
    }

    /// Remove connections (edges) between two nodes from the graph.
    ///
    /// * `src_node` - The ID of the source node.
    /// * `dst_node` - The ID of the destination node.
    /// * `ports_src_dst` - The port indices for each connection to make,
    /// where the first value in a tuple is the output port on `src_node`,
    /// and the second value in that tuple is the input port on `dst_node`.
    ///
    /// If none of the edges existed in the graph, then `false` will be
    /// returned.
    pub fn disconnect(
        &mut self,
        src_node: NodeID,
        dst_node: NodeID,
        ports_src_dst: &[(PortIdx, PortIdx)],
    ) -> (any_removed: bool)
        requires
            old(self).wf(),
        ensures
            final(self).wf(),
            Self::disconnected(
                old(self)@,
                src_node,
                dst_node,
                ports_src_dst@,
                final(self)@,
                any_removed,
            ),
    {
        let mut any_removed = false;
        let num_ports: usize = ports_src_dst.len();
        let ghost view0 = self@;
        let ghost ports = ports_src_dst@;
        proof {
            assert(self@ =~= (GraphView {
                edges: self@.edges,
                needs_compile: view0.needs_compile || any_removed,
                ..view0
            }));
            assert(ports.take(0) =~= Seq::<(PortIdx, PortIdx)>::empty());
        }
        for i in 0..num_ports
            invariant
                self.wf(),
                ports == ports_src_dst@,
                num_ports == ports.len(),
                any_removed <==> exists|e: u64| #[trigger]
                    view0.edges.contains_key(e) && joins_any(
                        view0.edges[e],
                        src_node,
                        dst_node,
                        ports.take(i as int),
                    ),
                forall|e: u64| #[trigger]
                    self@.edges.contains_key(e) <==> view0.edges.contains_key(e) && !joins_any(
                        view0.edges[e],
                        src_node,
                        dst_node,
                        ports.take(i as int),
                    ),
                forall|e: u64| #[trigger]
                    self@.edges.contains_key(e) ==> self@.edges[e] == view0.edges[e],
                self@ == (GraphView {
                    edges: self@.edges,
                    needs_compile: view0.needs_compile || any_removed,
                    ..view0
                }),
        {
            let (src_port, dst_port): (PortIdx, PortIdx) = ports_src_dst[i];
            let key: (u64, u64, u32, u32) = (src_node.0, dst_node.0, src_port, dst_port);
            let ghost edges1 = self@.edges;
            let ghost removed1 = any_removed;
            proof {
                assert forall|edge: Edge| #[trigger] joins_any(
                    edge,
                    src_node,
                    dst_node,
                    ports.take(i + 1),
                ) <==> joins_any(edge, src_node, dst_node, ports.take(i as int)) || key_of(edge)
                    == key by {
                    lemma_joins_any_push(edge, src_node, dst_node, ports, i as int);
                }
            }
            if let Some(edge_id) = edge_map_get(&self.existing_edges, key) {
                self.disconnect_by_edge_id(EdgeID(edge_id));
                any_removed = true;
                proof {
                    assert(view0.edges.contains_key(edge_id));
                    assert(joins_any(
                        view0.edges[edge_id],
                        src_node,
                        dst_node,
                        ports.take(i + 1),
                    ));
                }
            } else {
                assert forall|e: u64| #[trigger] edges1.contains_key(e) implies key_of(edges1[e])
                    != key by {}
            }
            proof {
                if removed1 {
                    let e = choose|e: u64| #[trigger]
                        view0.edges.contains_key(e) && joins_any(
                            view0.edges[e],
                            src_node,
                            dst_node,
                            ports.take(i as int),
                        );
                    assert(joins_any(view0.edges[e], src_node, dst_node, ports.take(i + 1)));
                }
                if !any_removed {
                    assert forall|e: u64| #[trigger] view0.edges.contains_key(e) implies !joins_any(
                        view0.edges[e],
                        src_node,
                        dst_node,
                        ports.take(i + 1),
                    ) by {
                        assert(edges1.contains_key(e));
                    }
                }
                assert forall|e: u64| #[trigger] self@.edges.contains_key(e) <==>
                    view0.edges.contains_key(e) && !joins_any(
                    view0.edges[e],
                    src_node,
                    dst_node,
                    ports.take(i + 1),
                ) by {
                    if view0.edges.contains_key(e) {
                        assert(edges1.contains_key(e) <==> !joins_any(
                            view0.edges[e],
                            src_node,
                            dst_node,
                            ports.take(i as int),
                        ));
                    }
                }
            }
        }
        assert(ports.take(num_ports as int) =~= ports);
        any_removed
    }

    /// Remove all connections (edges) between two nodes in the graph.
    ///
    /// * `src_node` - The ID of the source node.
    /// * `dst_node` - The ID of the destination node.
    pub fn disconnect_all_between(&mut self, src_node: NodeID, dst_node: NodeID) -> (removed:
        SmallList)
        requires
            old(self).wf(),
        ensures
            final(self).wf(),
            removed@ == (EdgePattern::Between { src: src_node, dst: dst_node }).among(
                old(self)@.edges,
            ),
            removed@.no_duplicates(),
            forall|e: u64| #[trigger]
                removed@.contains(e) <==> old(self)@.edges.contains_key(e)
                    && old(self)@.edges[e].src_node == src_node && old(self)@.edges[e].dst_node
                    == dst_node,
            final(self)@ == (GraphView {
                edges: old(self)@.edges.remove_keys(removed@.to_set()),
                needs_compile: old(self)@.needs_compile || removed@.len() > 0,
                ..old(self)@
            }),
    {
        let list = self.find_edges(EdgePattern::Between { src: src_node, dst: dst_node });
        self.disconnect_list(&list);
        list
    }

    /// Whether the edges form a cycle.
    pub fn cycle_detected(&self) -> (detected: bool)
        requires
            self.wf(),
        ensures
            detected == has_cycle(self@.edges),
    {
        cycle_detected(&self.nodes, &self.edges, self.graph_in_id, self.graph_out_id)
    }

    /// The graph of a new context: only the graph input and output nodes.
    pub fn new(config: &FirewheelConfig, graph_in_node: N, graph_out_node: N) -> (graph: Self)
        ensures
            graph.wf(),
            graph@.edges == Map::<u64, Edge>::empty(),
            graph@.nodes.dom() == set![graph@.graph_in, graph@.graph_out],
            graph@.nodes[graph@.graph_in].dyn_node == graph_in_node,
            graph@.nodes[graph@.graph_in].info.debug_name@ == "graph_in"@,
            graph@.nodes[graph@.graph_in].info.channel_config.inputs() == 0,
            graph@.nodes[graph@.graph_in].info.channel_config.num_outputs
                == config.num_graph_inputs,
            !graph@.nodes[graph@.graph_in].info.call_update_method,
            !graph@.nodes[graph@.graph_in].processor_constructed,
            graph@.nodes[graph@.graph_out].dyn_node == graph_out_node,
            graph@.nodes[graph@.graph_out].info.debug_name@ == "graph_out"@,
            graph@.nodes[graph@.graph_out].info.channel_config.num_inputs
                == config.num_graph_outputs,
            graph@.nodes[graph@.graph_out].info.channel_config.outputs() == 0,
            !graph@.nodes[graph@.graph_out].info.call_update_method,
            !graph@.nodes[graph@.graph_out].processor_constructed,
            graph@.needs_compile,
            graph@.nodes_to_remove.len() == 0,
            graph@.removed_nodes.len() == 0,
            graph@.nodes_to_update.len() == 0,
            graph@.positions == 2,
            graph@.compiled_positions == 0,
    {
        let node_capacity: usize = config.initial_node_capacity as usize;
        let edge_capacity: usize = config.initial_edge_capacity as usize;
        let mut nodes: IdTable<NodeEntry<N>> = IdTable::with_capacity(node_capacity);
        let graph_in_config = ChannelConfig {
            num_inputs: ChannelCount::zero(),
            num_outputs: config.num_graph_inputs,
        };
        let graph_out_config = ChannelConfig {
            num_inputs: config.num_graph_outputs,
            num_outputs: ChannelCount::zero(),
        };
        let graph_in: u64 = nodes.insert(
            NodeEntry::new(AudioNodeInfo::new("graph_in", graph_in_config), graph_in_node),
        );
        if let Some(entry) = nodes.get_mut(graph_in) {
            entry.id = NodeID(graph_in);
        }
        let graph_out: u64 = nodes.insert(
            NodeEntry::new(AudioNodeInfo::new("graph_out", graph_out_config), graph_out_node),
        );
        if let Some(entry) = nodes.get_mut(graph_out) {
            entry.id = NodeID(graph_out);
        }
        let edges: IdTable<Edge> = IdTable::with_capacity(edge_capacity);
        let graph = AudioGraph {
            nodes,
            edges,
            existing_edges: edge_map_with_capacity(edge_capacity),
            graph_in_id: NodeID(graph_in),
            graph_out_id: NodeID(graph_out),
            needs_compile: true,
            nodes_to_remove_from_schedule: Vec::with_capacity(node_capacity),
            removed_nodes: Vec::new(),
            nodes_to_call_update_method: Vec::new(),
            prev_node_positions: 0,
        };
        assert(graph@.nodes.dom() =~= set![graph_in, graph_out]);
        graph
    }

    /// Add a node to the audio graph.
    pub fn add_node(&mut self, info: AudioNodeInfo, node: N) -> (id: NodeID)
        requires
            old(self).wf(),
            old(self)@.nodes.len() < 0xFFFF_FFFF,
        ensures
            final(self).wf(),
            !old(self)@.nodes.contains_key(id.0),
            final(self)@ == (GraphView {
                nodes: old(self)@.nodes.insert(
                    id.0,
                    NodeEntry { id, info, dyn_node: node, processor_constructed: false },
                ),
                nodes_to_update: if info.call_update_method {
                    old(self)@.nodes_to_update.push(id)
                } else {
                    old(self)@.nodes_to_update
                },
                needs_compile: true,
                positions: if old(self)@.nodes.len() + 1 > old(self)@.positions {
                    (old(self)@.nodes.len() + 1) as int
                } else {
                    old(self)@.positions
                },
                ..old(self)@
            }),
    {
        proof {
            self.nodes.lemma_ids();
        }
        let id: u64 = self.nodes.insert(NodeEntry::new(info, node));
        if let Some(entry) = self.nodes.get_mut(id) {
            entry.id = NodeID(id);
        }
        if info.call_update_method {
            self.nodes_to_call_update_method.push(NodeID(id));
        }
        self.needs_compile = true;
        proof {
            assert(self@.nodes =~= old(self)@.nodes.insert(
                id,
                NodeEntry { id: NodeID(id), info, dyn_node: node, processor_constructed: false },
            ));
            assert forall|e: u64| #[trigger] self.edges@.contains_key(e) implies edge_wf(
                self.nodes@,
                self.edges@[e],
                e,
            ) by {
                assert(edge_wf(old(self).nodes@, self.edges@[e], e));
            }
        }
        NodeID(id)
    }

    /// The ID of the graph input node
    pub fn graph_in_node(&self) -> (id: NodeID)
        ensures
            id.0 == self@.graph_in,
    {
        self.graph_in_id
    }

    /// The ID of the graph output node
    pub fn graph_out_node(&self) -> (id: NodeID)
        ensures
            id.0 == self@.graph_out,
    {
        self.graph_out_id
    }

    /// Get information about a node in the graph.
    pub fn node_info(&self, id: NodeID) -> (entry: Option<&NodeEntry<N>>)
        requires
            self.wf(),
        ensures
            match entry {
                Some(n) => self@.nodes.contains_key(id.0) && *n == self@.nodes[id.0],
                None => !self@.nodes.contains_key(id.0),
            },
    {
        self.nodes.get(id.0)
    }

    /// Write access to what constructs and updates the processor of a node.
    pub fn node_mut(&mut self, id: NodeID) -> (node: Option<&mut N>)
        requires
            old(self).wf(),
        ensures
            final(self).wf(),
            match node {
                Some(n) => old(self)@.nodes.contains_key(id.0) && *n
                    == old(self)@.nodes[id.0].dyn_node && final(self)@ == (GraphView {
                    nodes: old(self)@.nodes.insert(
                        id.0,
                        NodeEntry { dyn_node: *final(n), ..old(self)@.nodes[id.0] },
                    ),
                    ..old(self)@
                }),
                None => !old(self)@.nodes.contains_key(id.0) && final(self)@ == old(self)@,
            },
    {
        match self.nodes.get_mut(id.0) {
            Some(entry) => Some(&mut entry.dyn_node),
            None => None,
        }
    }

    /// Get a list of all the existing nodes in the graph.
    pub fn nodes(&self) -> (list: Vec<NodeID>)
        requires
            self.wf(),
        ensures
            list@.map_values(|n: NodeID| n.0) == slot_order(self@.nodes.dom()),
    {
        let ids = self.nodes.ids();
        let num: usize = ids.len();
        let mut list: Vec<NodeID> = Vec::with_capacity(num);
        for i in 0..num
            invariant
                num == ids@.len(),
                list@.len() == i,
                forall|j: int| 0 <= j < i ==> (#[trigger] list@[j]).0 == ids@[j],
        {
            list.push(NodeID(ids[i]));
        }
        assert(list@.map_values(|n: NodeID| n.0) =~= ids@);
        list
    }

    /// Get a list of all the existing edges in the graph.
    pub fn edges(&self) -> (list: Vec<Edge>)
        requires
            self.wf(),
        ensures
            list@ == slot_order(self@.edges.dom()).map_values(|e: u64| self@.edges[e]),
    {
        let ids = self.edges.ids();
        let num: usize = ids.len();
        let mut list: Vec<Edge> = Vec::with_capacity(num);
        for i in 0..num
            invariant
                self.wf(),
                num == ids@.len(),
                ids@.to_set() == self.edges@.dom(),
                list@.len() == i,
                forall|j: int| 0 <= j < i ==> #[trigger] list@[j] == self.edges@[ids@[j]],
        {
            assert(ids@.to_set().contains(ids@[i as int]));
            if let Some(edge) = self.edges.get(ids[i]) {
                list.push(*edge);
            }
        }
        assert(list@ =~= ids@.map_values(|e: u64| self@.edges[e]));
        list
    }

    /// Get information about the given [Edge]
    pub fn edge(&self, edge_id: EdgeID) -> (edge: Option<&Edge>)
        requires
            self.wf(),
        ensures
            match edge {
                Some(e) => self@.edges.contains_key(edge_id.0) && *e == self@.edges[edge_id.0],
                None => !self@.edges.contains_key(edge_id.0),
            },
    {
        self.edges.get(edge_id.0)
    }

    /// Whether the graph has changed since it was last compiled.
    pub fn needs_compile(&self) -> (needs: bool)
        ensures
            needs == self@.needs_compile,
    {
        self.needs_compile
    }

    /// A graph whose schedule was not delivered.
    pub open spec fn undelivered(
        before: GraphView<N>,
        failed_schedule: ScheduleHeapData,
        after: GraphView<N>,
    ) -> bool {
        &&& after == (GraphView { nodes: after.nodes, needs_compile: true, ..before })
        &&& after.nodes.dom() == before.nodes.dom()
        &&& forall|k: u64| #[trigger]
            before.nodes.contains_key(k) ==> after.nodes[k] == (NodeEntry {
                processor_constructed: before.nodes[k].processor_constructed
                    && !failed_schedule.new_node_processors@.contains(NodeID(k)),
                ..before.nodes[k]
            })
    }

    /// The schedule was not delivered: the graph has to be compiled again, and
    /// the processors that came with it have to be constructed again.
    pub fn on_schedule_send_failed(&mut self, failed_schedule: &ScheduleHeapData)
        requires
            old(self).wf(),
        ensures
            final(self).wf(),
            Self::undelivered(old(self)@, *failed_schedule, final(self)@),
    {
        self.needs_compile = true;
        let num: usize = failed_schedule.new_node_processors.len();
        let ghost new = failed_schedule.new_node_processors@;
        for i in 0..num
            invariant
                self.wf(),
                new == failed_schedule.new_node_processors@,
                num == new.len(),
                self@ == (GraphView { nodes: self@.nodes, needs_compile: true, ..old(self)@ }),
                self@.nodes.dom() == old(self)@.nodes.dom(),
                forall|k: u64| #[trigger]
                    old(self)@.nodes.contains_key(k) ==> self@.nodes[k] == (NodeEntry {
                        processor_constructed: old(self)@.nodes[k].processor_constructed
                            && !new.take(i as int).contains(NodeID(k)),
                        ..old(self)@.nodes[k]
                    }),
        {
            let id: NodeID = failed_schedule.new_node_processors[i];
            let ghost nodes1 = self.nodes@;
            if let Some(entry) = self.nodes.get_mut(id.0) {
                entry.processor_constructed = false;
            }
            proof {
                lemma_contains_push(new, i as int);
                assert(self@.nodes.dom() =~= old(self)@.nodes.dom());
                assert forall|k: u64| #[trigger] old(self)@.nodes.contains_key(
                    k,
                ) implies self@.nodes[k] == (NodeEntry {
                    processor_constructed: old(self)@.nodes[k].processor_constructed && !new.take(
                        i + 1,
                    ).contains(NodeID(k)),
                    ..old(self)@.nodes[k]
                }) by {
                    assert(nodes1.contains_key(k));
                    assert(new.take(i + 1).contains(NodeID(k)) <==> new.take(i as int).contains(
                        NodeID(k),
                    ) || NodeID(k) == id);
                }
                assert forall|e: u64| #[trigger] self.edges@.contains_key(e) implies edge_wf(
                    self.nodes@,
                    self.edges@[e],
                    e,
                ) by {
                    assert(edge_wf(nodes1, self.edges@[e], e));
                }
            }
        }
        assert(new.take(num as int) =~= new);
    }

    /// The stream was stopped: the graph has to be compiled for the next one.
    pub fn deactivate(&mut self)
        requires
            old(self).wf(),
        ensures
            final(self).wf(),
            final(self)@ == (GraphView { needs_compile: true, ..old(self)@ }),
    {
        self.needs_compile = true;
    }

    /// What compiling a graph does: the result has a correct schedule, the nodes
    /// that were removed, and the nodes without a processor, which have one from
    /// then on.
    pub open spec fn compiled(
        before: GraphView<N>,
        max_block_frames: usize,
        after: GraphView<N>,
        data: ScheduleHeapData,
    ) -> bool {
        &&& data.schedule.schedules(before.nodes, before.edges, before.graph_in, before.graph_out)
        &&& data.schedule.max_block_frames == max_block_frames
        &&& data.nodes_to_remove@ == before.nodes_to_remove
        &&& data.new_node_processors@.map_values(|n: NodeID| n.0) == slot_order(
            before.nodes.dom(),
        ).filter(|k: u64| !before.nodes[k].processor_constructed)
        &&& match data.new_arena_capacity {
            Some(capacity) => capacity == before.positions && before.positions
                > before.compiled_positions,
            None => before.positions <= before.compiled_positions,
        }
        &&& after.compiled_positions == before.positions
        &&& after == (GraphView {
            nodes: before.nodes.map_values(
                |n: NodeEntry<N>| NodeEntry { processor_constructed: true, ..n },
            ),
            needs_compile: false,
            nodes_to_remove: Seq::empty(),
            compiled_positions: after.compiled_positions,
            ..before
        })
    }

    /// Compiles the graph. On success, the processors of the nodes listed in the
    /// result have to be constructed; on an error nothing changes.
    #[verifier::rlimit(40)]
    pub fn compile(&mut self, max_block_frames: usize) -> (result: Result<
        ScheduleHeapData,
        CompileGraphError,
    >)
        requires
            old(self).wf(),
            max_block_frames > 0,
        ensures
            final(self).wf(),
            match result {
                Err(error) => has_cycle(old(self)@.edges) && error
                    == CompileGraphError::CycleDetected && final(self)@ == old(self)@,
                Ok(data) => !has_cycle(old(self)@.edges) && Self::compiled(
                    old(self)@,
                    max_block_frames,
                    final(self)@,
                    data,
                ),
            },
    {
        let schedule = match compile(
            &self.nodes,
            &self.edges,
            self.graph_in_id,
            self.graph_out_id,
            max_block_frames,
        ) {
            Ok(schedule) => schedule,
            Err(error) => {
                return Err(error);
            },
        };

        let mut new_node_processors: Vec<NodeID> = Vec::new();
        let ids = self.nodes.ids();
        let num: usize = ids.len();
        let ghost nodes0 = self.nodes@;
        let ghost p = |k: u64| !nodes0[k].processor_constructed;
        proof {
            reveal(Seq::filter);
            assert(ids@.take(0).filter(p) =~= Seq::<u64>::empty());
            assert(new_node_processors@.map_values(|n: NodeID| n.0) =~= Seq::<u64>::empty());
        }
        for i in 0..num
            invariant
                self.wf(),
                num == ids@.len(),
                ids@ == slot_order(nodes0.dom()),
                ids@.to_set() == nodes0.dom(),
                ids@.no_duplicates(),
                nodes0 == old(self)@.nodes,
                p == (|k: u64| !nodes0[k].processor_constructed),
                self@ == (GraphView { nodes: self@.nodes, ..old(self)@ }),
                self@.nodes.dom() == nodes0.dom(),
                forall|k: u64| #[trigger]
                    nodes0.contains_key(k) ==> self@.nodes[k] == (NodeEntry {
                        processor_constructed: nodes0[k].processor_constructed || ids@.take(
                            i as int,
                        ).contains(k),
                        ..nodes0[k]
                    }),
                new_node_processors@.map_values(|n: NodeID| n.0) == ids@.take(i as int).filter(p),
        {
            let id: u64 = ids[i];
            let ghost nodes1 = self.nodes@;
            let ghost new1 = new_node_processors@;
            proof {
                assert(ids@.to_set().contains(id));
                assert(ids@.take(i + 1) =~= ids@.take(i as int).push(id));
                ids@.take(i as int).lemma_filter_push(id, p);
                assert(!ids@.take(i as int).contains(id)) by {
                    if ids@.take(i as int).contains(id) {
                        let j = ids@.take(i as int).index_of(id);
                        assert(ids@[j] == id);
                    }
                }
            }
            if let Some(entry) = self.nodes.get_mut(id) {
                if !entry.processor_constructed {
                    entry.processor_constructed = true;
                    new_node_processors.push(NodeID(id));
                    assert(new_node_processors@.map_values(|n: NodeID| n.0) =~= new1.map_values(
                        |n: NodeID| n.0,
                    ).push(id));
                }
            }
            proof {
                assert(self@.nodes.dom() =~= nodes0.dom());
                assert forall|k: u64| #[trigger] nodes0.contains_key(k) implies self@.nodes[k] == (
                NodeEntry {
                    processor_constructed: nodes0[k].processor_constructed || ids@.take(
                        i + 1,
                    ).contains(k),
                    ..nodes0[k]
                }) by {
                    assert(nodes1.contains_key(k));
                    assert(ids@.take(i + 1)[i as int] == id);
                    if ids@.take(i as int).contains(k) {
                        let j = ids@.take(i as int).index_of(k);
                        assert(ids@.take(i + 1)[j] == k);
                    }
                    if ids@.take(i + 1).contains(k) {
                        let j = ids@.take(i + 1).index_of(k);
                        if j < i {
                            assert(ids@.take(i as int)[j] == k);
                        }
                    }
                }
                assert forall|e: u64| #[trigger] self.edges@.contains_key(e) implies edge_wf(
                    self.nodes@,
                    self.edges@[e],
                    e,
                ) by {
                    assert(edge_wf(nodes1, self.edges@[e], e));
                }
            }
        }
        proof {
            assert(ids@.take(num as int) =~= ids@);
            assert(self@.nodes =~= nodes0.map_values(
                |n: NodeEntry<N>| NodeEntry { processor_constructed: true, ..n },
            )) by {
                assert forall|k: u64| #[trigger] nodes0.contains_key(
                    k,
                ) implies self@.nodes[k].processor_constructed by {
                    assert(ids@.to_set().contains(k));
                }
            }
        }

        let mut nodes_to_remove: Vec<NodeID> = Vec::new();
        std::mem::swap(&mut self.nodes_to_remove_from_schedule, &mut nodes_to_remove);

        let positions: usize = self.nodes.positions();
        let new_arena_capacity: Option<usize> = if positions > self.prev_node_positions {
            Some(positions)
        } else {
            None
        };
        self.prev_node_positions = positions;
        self.needs_compile = false;
        assert(self@.nodes_to_remove =~= Seq::empty());
        Ok(ScheduleHeapData { schedule, nodes_to_remove, new_node_processors, new_arena_capacity })
    }

    /// The nodes to call on an update. Nodes that are no longer in the graph are
    /// taken off the list.
    pub fn update(&mut self) -> (nodes: Vec<NodeID>)
        requires
            old(self).wf(),
        ensures
            final(self).wf(),
            nodes@ == old(self)@.nodes_to_update.filter(
                |n: NodeID| old(self)@.nodes.contains_key(n.0),
            ),
            final(self)@ == (GraphView { nodes_to_update: nodes@, ..old(self)@ }),
    {
        let mut kept: Vec<NodeID> = Vec::new();
        let mut nodes: Vec<NodeID> = Vec::new();
        let num: usize = self.nodes_to_call_update_method.len();
        let ghost all = self.nodes_to_call_update_method@;
        let ghost p = |n: NodeID| old(self)@.nodes.contains_key(n.0);
        proof {
            reveal(Seq::filter);
            assert(all.take(0).filter(p) =~= Seq::<NodeID>::empty());
        }
        for i in 0..num
            invariant
                self.wf(),
                *self == *old(self),
                all == self.nodes_to_call_update_method@,
                num == all.len(),
                p == (|n: NodeID| old(self)@.nodes.contains_key(n.0)),
                kept@ == all.take(i as int).filter(p),
                nodes@ == kept@,
        {
            let id: NodeID = self.nodes_to_call_update_method[i];
            proof {
                assert(all.take(i + 1) =~= all.take(i as int).push(id));
                all.take(i as int).lemma_filter_push(id, p);
            }
            if self.nodes.contains(id.0) {
                kept.push(id);
                nodes.push(id);
            }
        }
        assert(all.take(num as int) =~= all);
        self.nodes_to_call_update_method = kept;
        nodes
    }
}

/// Edges that are left over once some are taken away are not among those.
proof fn lemma_listed_once(edges: Map<u64, Edge>, removed: Seq<u64>, more: Seq<u64>)
    requires
        removed.no_duplicates(),
        more.no_duplicates(),
        forall|e: u64| #[trigger]
            more.contains(e) ==> edges.remove_keys(removed.to_set()).contains_key(e),
    ensures
        (removed + more).no_duplicates(),
{
    assert forall|i: int, j: int| 0 <= i < removed.len() && 0 <= j < more.len() implies removed[i]
        != more[j] by {
        assert(more.contains(more[j]));
        assert(removed.to_set().contains(removed[i]));
    }
    vstd::seq_lib::lemma_no_dup_in_concat(removed, more);
}

/// The edges of a pattern.
proof fn lemma_among(pattern: EdgePattern, edges: Map<u64, Edge>)
    requires
        in_slot_order(slot_order(edges.dom())),
        slot_order(edges.dom()).to_set() == edges.dom(),
        slot_order(edges.dom()).no_duplicates(),
    ensures
        in_slot_order(pattern.among(edges)),
        pattern.among(edges).no_duplicates(),
        forall|e: u64| #[trigger]
            pattern.among(edges).contains(e) <==> edges.contains_key(e) && pattern.matches_edge(
                edges[e],
            ),
{
    let all = slot_order(edges.dom());
    lemma_filter_in_slot_order(all, |e: u64| pattern.matches_edge(edges[e]));
    assert forall|e: u64| #[trigger] pattern.among(edges).contains(e) <==> edges.contains_key(e)
        && pattern.matches_edge(edges[e]) by {
        assert(all.contains(e) <==> all.to_set().contains(e));
    }
}

proof fn lemma_filter_in_slot_order(s: Seq<u64>, p: spec_fn(u64) -> bool)
    requires
        in_slot_order(s),
        s.no_duplicates(),
    ensures
        in_slot_order(s.filter(p)),
        s.filter(p).no_duplicates(),
        forall|e: u64| #[trigger] s.filter(p).contains(e) <==> s.contains(e) && p(e),
    decreases s.len(),
{
    reveal(Seq::filter);
    if s.len() > 0 {
        let t = s.drop_last();
        lemma_filter_in_slot_order(t, p);
        t.lemma_filter_push(s.last(), p);
        assert(s =~= t.push(s.last()));
        let f = t.filter(p);
        assert(s.filter(p) == if p(s.last()) {
            f.push(s.last())
        } else {
            f
        });
        assert forall|e: u64| #[trigger] t.contains(e) implies slot_of(e) < slot_of(
            s.last(),
        ) by {
            let i = t.index_of(e);
            assert(s[i] == e);
        }
        assert forall|e: u64| #[trigger] s.filter(p).contains(e) <==> s.contains(e) && p(e) by {
            assert(f.contains(e) <==> t.contains(e) && p(e));
            if s.contains(e) {
                let i = s.index_of(e);
                if i < t.len() {
                    assert(t[i] == e);
                }
            }
            if t.contains(e) {
                let i = t.index_of(e);
                assert(s[i] == e);
            }
            assert(s[s.len() - 1] == s.last());
            if f.contains(e) {
                let i = f.index_of(e);
                assert(f.push(s.last())[i] == e);
            }
            assert(f.push(s.last())[f.len() as int] == s.last());
        }
        let g = s.filter(p);
        assert forall|i: int, j: int| 0 <= i < j < g.len() implies slot_of(#[trigger] g[i])
            < slot_of(#[trigger] g[j]) by {
            if j < f.len() {
                assert(g[i] == f[i] && g[j] == f[j]);
            } else {
                assert(g[i] == f[i]);
                assert(f.contains(f[i]));
                assert(t.contains(g[i]));
            }
        }
        assert(g.no_duplicates()) by {
            assert forall|i: int, j: int| 0 <= i < g.len() && 0 <= j < g.len() && i
                != j implies g[i] != g[j] by {
                if i < j {
                    assert(slot_of(g[i]) < slot_of(g[j]));
                } else {
                    assert(slot_of(g[j]) < slot_of(g[i]));
                }
            }
        }
    }
}

/// Whether an edge is at one of the ports `from..to` of a node.
pub open spec fn at_ports(edge: Edge, node: u64, input: bool, from: int, to: int) -> bool {
    if input {
        edge.dst_node.0 == node && from <= edge.dst_port < to
    } else {
        edge.src_node.0 == node && from <= edge.src_port < to
    }
}

/// Whether an edge leads to or leaves a node.
pub open spec fn touches(edge: Edge, node: u64) -> bool {
    edge.src_node.0 == node || edge.dst_node.0 == node
}

/// All edges of a node: those of its input ports, port by port, and then those
/// of its output ports.
pub open spec fn edges_of_node<N>(graph: GraphView<N>, node: u64) -> Seq<u64> {
    if graph.nodes.contains_key(node) {
        let config = graph.nodes[node].info.channel_config;
        edges_at_ports(graph.edges, node, true, 0, config.inputs() as int) + edges_at_ports(
            graph.edges,
            node,
            false,
            0,
            config.outputs() as int,
        )
    } else {
        Seq::empty()
    }
}

/// Whether two entries differ at most in their channels.
pub open spec fn same_but_channels<N>(a: NodeEntry<N>, b: NodeEntry<N>) -> bool {
    &&& a.id == b.id
    &&& a.dyn_node == b.dyn_node
    &&& a.processor_constructed == b.processor_constructed
    &&& a.info.debug_name == b.info.debug_name
    &&& a.info.call_update_method == b.info.call_update_method
}

impl<N> GraphView<N> {
    /// The number of input channels of the graph: the outputs of its input node.
    pub open spec fn num_graph_inputs(self) -> int {
        self.nodes[self.graph_in].info.channel_config.outputs() as int
    }

    /// The number of output channels of the graph: the inputs of its output node.
    pub open spec fn num_graph_outputs(self) -> int {
        self.nodes[self.graph_out].info.channel_config.inputs() as int
    }
}

/// A pattern finds the same edges where only edges that it does not match are
/// left out.
proof fn lemma_among_same(pattern: EdgePattern, edges: Map<u64, Edge>, fewer: Map<u64, Edge>)
    requires
        in_slot_order(slot_order(edges.dom())),
        slot_order(edges.dom()).to_set() == edges.dom(),
        slot_order(edges.dom()).no_duplicates(),
        in_slot_order(slot_order(fewer.dom())),
        slot_order(fewer.dom()).to_set() == fewer.dom(),
        slot_order(fewer.dom()).no_duplicates(),
        forall|e: u64| #[trigger]
            fewer.contains_key(e) ==> edges.contains_key(e) && edges[e] == fewer[e],
        forall|e: u64| #[trigger]
            edges.contains_key(e) && pattern.matches_edge(edges[e]) ==> fewer.contains_key(e),
    ensures
        pattern.among(edges) == pattern.among(fewer),
{
    lemma_among(pattern, edges);
    lemma_among(pattern, fewer);
    assert forall|e: u64| pattern.among(edges).to_set().contains(e) <==> pattern.among(
        fewer,
    ).to_set().contains(e) by {
        assert(pattern.among(edges).contains(e) <==> edges.contains_key(e)
            && pattern.matches_edge(edges[e]));
        assert(pattern.among(fewer).contains(e) <==> fewer.contains_key(e)
            && pattern.matches_edge(fewer[e]));
    }
    assert(pattern.among(edges).to_set() =~= pattern.among(fewer).to_set());
    lemma_slot_order_unique(pattern.among(edges), pattern.among(fewer));
}

proof fn lemma_edges_at_ports_same(
    edges: Map<u64, Edge>,
    fewer: Map<u64, Edge>,
    node: u64,
    input: bool,
    from: int,
    to: int,
)
    requires
        0 <= from,
        to <= 0xFFFF_FFFF,
        in_slot_order(slot_order(edges.dom())),
        slot_order(edges.dom()).to_set() == edges.dom(),
        slot_order(edges.dom()).no_duplicates(),
        in_slot_order(slot_order(fewer.dom())),
        slot_order(fewer.dom()).to_set() == fewer.dom(),
        slot_order(fewer.dom()).no_duplicates(),
        forall|e: u64| #[trigger]
            fewer.contains_key(e) ==> edges.contains_key(e) && edges[e] == fewer[e],
        forall|e: u64| #[trigger]
            edges.contains_key(e) && at_ports(edges[e], node, input, from, to)
                ==> fewer.contains_key(e),
    ensures
        edges_at_ports(edges, node, input, from, to) == edges_at_ports(
            fewer,
            node,
            input,
            from,
            to,
        ),
    decreases to - from,
{
    if from < to {
        lemma_edges_at_ports_same(edges, fewer, node, input, from, to - 1);
        let port = (to - 1) as u32;
        let pattern = if input {
            EdgePattern::ToPort { node: NodeID(node), port }
        } else {
            EdgePattern::FromPort { node: NodeID(node), port }
        };
        lemma_among_same(pattern, edges, fewer);
    }
}

/// Whether a pair of ports exists on the nodes that are to be joined.
pub open spec fn ports_exist<N>(
    graph: GraphView<N>,
    src_node: NodeID,
    dst_node: NodeID,
    ports: (PortIdx, PortIdx),
) -> bool {
    &&& ports.0 < graph.nodes[src_node.0].info.channel_config.outputs()
    &&& ports.1 < graph.nodes[dst_node.0].info.channel_config.inputs()
}

/// Whether two nodes can be joined at the given ports.
pub open spec fn connects<N>(
    graph: GraphView<N>,
    src_node: NodeID,
    dst_node: NodeID,
    ports: Seq<(PortIdx, PortIdx)>,
) -> bool {
    &&& graph.nodes.contains_key(src_node.0)
    &&& graph.nodes.contains_key(dst_node.0)
    &&& src_node != dst_node
    &&& forall|i: int|
        0 <= i < ports.len() ==> ports_exist(graph, src_node, dst_node, #[trigger] ports[i])
}

/// The position of the first pair of ports that does not exist.
pub open spec fn first_bad<N>(
    graph: GraphView<N>,
    src_node: NodeID,
    dst_node: NodeID,
    ports: Seq<(PortIdx, PortIdx)>,
) -> int {
    choose|i: int|
        0 <= i < ports.len() && !ports_exist(graph, src_node, dst_node, #[trigger] ports[i])
            && forall|j: int|
            0 <= j < i ==> ports_exist(graph, src_node, dst_node, #[trigger] ports[j])
}

/// Whether there is a cycle once the nodes are joined.
pub open spec fn connect_makes_cycle(
    edges: Map<u64, Edge>,
    src_node: NodeID,
    dst_node: NodeID,
    ports: Seq<(PortIdx, PortIdx)>,
) -> bool {
    if ports.len() == 0 {
        has_cycle(edges)
    } else {
        has_cycle_with(edges, src_node.0, dst_node.0)
    }
}

/// Which error keeps two nodes from being joined. Of several, it is the first:
/// a missing source node, a missing destination node, a node joined to itself,
/// the first pair of ports that is out of range, and then a cycle, if that is
/// checked.
pub open spec fn connect_error<N>(
    graph: GraphView<N>,
    src_node: NodeID,
    dst_node: NodeID,
    ports: Seq<(PortIdx, PortIdx)>,
    check_for_cycles: bool,
    error: AddEdgeError,
) -> bool {
    if !graph.nodes.contains_key(src_node.0) {
        error == AddEdgeError::SrcNodeNotFound(src_node)
    } else if !graph.nodes.contains_key(dst_node.0) {
        error == AddEdgeError::DstNodeNotFound(dst_node)
    } else if src_node == dst_node {
        error == AddEdgeError::CycleDetected
    } else if !connects(graph, src_node, dst_node, ports) {
        let (src_port, dst_port) = ports[first_bad(graph, src_node, dst_node, ports)];
        let num_out_ports = graph.nodes[src_node.0].info.channel_config.num_outputs;
        let num_in_ports = graph.nodes[dst_node.0].info.channel_config.num_inputs;
        if src_port >= num_out_ports.spec_get() {
            error == (AddEdgeError::OutPortOutOfRange {
                node: src_node,
                port_idx: src_port,
                num_out_ports,
            })
        } else {
            error == (AddEdgeError::InPortOutOfRange {
                node: dst_node,
                port_idx: dst_port,
                num_in_ports,
            })
        }
    } else {
        error == AddEdgeError::CycleDetected && check_for_cycles && connect_makes_cycle(
            graph.edges,
            src_node,
            dst_node,
            ports,
        )
    }
}

/// Whether `after` holds the edges of `before` unchanged, and besides them only
/// edges that join the given ports; `ids` are the edges that join them, pair by
/// pair.
pub open spec fn joined(
    before: Map<u64, Edge>,
    after: Map<u64, Edge>,
    src_node: NodeID,
    dst_node: NodeID,
    ports: Seq<(PortIdx, PortIdx)>,
    ids: Seq<u64>,
) -> bool {
    &&& ids.len() == ports.len()
    &&& forall|i: int|
        0 <= i < ports.len() ==> after.contains_key(#[trigger] ids[i]) && key_of(after[ids[i]]) == (
            src_node.0,
            dst_node.0,
            ports[i].0,
            ports[i].1,
        )
    &&& forall|e: u64| #[trigger]
        before.contains_key(e) ==> after.contains_key(e) && after[e] == before[e]
    &&& forall|e: u64| #[trigger]
        after.contains_key(e) ==> before.contains_key(e) || ids.contains(e)
}

/// Whether an edge joins two nodes at one of the given pairs of ports.
pub open spec fn joins_any(
    edge: Edge,
    src_node: NodeID,
    dst_node: NodeID,
    ports: Seq<(PortIdx, PortIdx)>,
) -> bool {
    edge.src_node == src_node && edge.dst_node == dst_node && ports.contains(
        (edge.src_port, edge.dst_port),
    )
}

proof fn lemma_joins_any_push(
    edge: Edge,
    src_node: NodeID,
    dst_node: NodeID,
    ports: Seq<(PortIdx, PortIdx)>,
    i: int,
)
    requires
        0 <= i < ports.len(),
    ensures
        joins_any(edge, src_node, dst_node, ports.take(i + 1)) <==> joins_any(
            edge,
            src_node,
            dst_node,
            ports.take(i),
        ) || key_of(edge) == (src_node.0, dst_node.0, ports[i].0, ports[i].1),
{
    let p = (edge.src_port, edge.dst_port);
    let a = ports.take(i);
    let b = ports.take(i + 1);
    if a.contains(p) {
        let j = a.index_of(p);
        assert(b[j] == p);
    }
    assert(b[i] == ports[i]);
    if b.contains(p) {
        let j = b.index_of(p);
        if j < i {
            assert(a[j] == p);
        }
    }
    assert(edge.src_node == src_node <==> edge.src_node.0 == src_node.0);
    assert(edge.dst_node == dst_node <==> edge.dst_node.0 == dst_node.0);
}

proof fn lemma_first_bad<N>(
    graph: GraphView<N>,
    src_node: NodeID,
    dst_node: NodeID,
    ports: Seq<(PortIdx, PortIdx)>,
    i: int,
)
    requires
        0 <= i < ports.len(),
        !ports_exist(graph, src_node, dst_node, ports[i]),
        forall|j: int|
            0 <= j < i ==> ports_exist(graph, src_node, dst_node, #[trigger] ports[j]),
    ensures
        first_bad(graph, src_node, dst_node, ports) == i,
        !connects(graph, src_node, dst_node, ports),
{
    let k = first_bad(graph, src_node, dst_node, ports);
    assert(0 <= k < ports.len() && !ports_exist(graph, src_node, dst_node, ports[k]));
    if k < i {
        assert(ports_exist(graph, src_node, dst_node, ports[k]));
    }
    if i < k {
        assert(ports_exist(graph, src_node, dst_node, ports[i]));
    }
}

proof fn lemma_joined_cycle(
    before: Map<u64, Edge>,
    after: Map<u64, Edge>,
    src_node: NodeID,
    dst_node: NodeID,
    ports: Seq<(PortIdx, PortIdx)>,
    ids: Seq<u64>,
)
    requires
        joined(before, after, src_node, dst_node, ports, ids),
    ensures
        has_cycle(after) == connect_makes_cycle(before, src_node, dst_node, ports),
{
    if ports.len() == 0 {
        assert forall|e: u64| after.contains_key(e) implies before.contains_key(e) by {
            if ids.contains(e) {
                let i = ids.index_of(e);
            }
        }
        assert(after =~= before);
    } else {
        assert forall|a: u64, b: u64| #[trigger] linked(after, a, b) <==> linked(before, a, b) || (a
            == src_node.0 && b == dst_node.0) by {
            if linked(after, a, b) {
                let e = choose|e: u64| #[trigger]
                    after.contains_key(e) && after[e].src_node.0 == a && after[e].dst_node.0 == b;
                if before.contains_key(e) {
                    assert(linked(before, a, b));
                } else {
                    let i = ids.index_of(e);
                    assert(key_of(after[ids[i]]) == (
                        src_node.0,
                        dst_node.0,
                        ports[i].0,
                        ports[i].1,
                    ));
                }
            }
            if linked(before, a, b) {
                let e = choose|e: u64| #[trigger]
                    before.contains_key(e) && before[e].src_node.0 == a && before[e].dst_node.0
                        == b;
                assert(after.contains_key(e));
            }
            if a == src_node.0 && b == dst_node.0 {
                assert(after.contains_key(ids[0]));
            }
        }
        lemma_has_cycle_with(before, after, src_node.0, dst_node.0);
    }
}

/// A compiled schedule, and what changes with it on the audio thread.
pub struct ScheduleHeapData {
    /// The schedule.
    pub schedule: CompiledSchedule,
    /// The nodes whose processors are to be dropped.
    pub nodes_to_remove: Vec<NodeID>,
    /// The nodes whose processors are new.
    pub new_node_processors: Vec<NodeID>,
    /// The number of nodes to make room for, if it has grown.
    pub new_arena_capacity: Option<usize>,
}

proof fn lemma_contains_push(s: Seq<NodeID>, i: int)
    requires
        0 <= i < s.len(),
    ensures
        forall|n: NodeID| #[trigger]
            s.take(i + 1).contains(n) <==> s.take(i).contains(n) || n == s[i],
{
    assert forall|n: NodeID| #[trigger] s.take(i + 1).contains(n) <==> s.take(i).contains(n) || n
        == s[i] by {
        assert(s.take(i + 1)[i] == s[i]);
        if s.take(i).contains(n) {
            let j = s.take(i).index_of(n);
            assert(s.take(i + 1)[j] == n);
        }
        if s.take(i + 1).contains(n) {
            let j = s.take(i + 1).index_of(n);
            if j < i {
                assert(s.take(i)[j] == n);
            }
        }
    }
}

} // verus!
