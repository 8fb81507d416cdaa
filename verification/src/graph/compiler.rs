//! Compiles a graph into a schedule: an order in which to process the nodes,
//! and the buffers that carry audio between them.

use crate::graph::buffers::{
    accounted, after_node, after_sums, all_in_use, all_needed, balanced, covered,
    exclusive_input, grown_if_needed, held_before, in_port_edges, in_use, input_routed,
    is_buffer_of, is_cleared, is_output, lemma_after_sums_prefix, lemma_held_before_prefix,
    lemma_not_in_use, lemma_port_assigned, lemma_sums_before_bounds,
    lemma_sums_before_monotonic, lemma_uses_insert, lemma_uses_remove, node_routed,
    out_port_edges, output_port, port_assigned, signal_of, sum_routed, sums_before, to_be_read,
    uses, BufferAllocator, InBufferAssignment, InsertedSum, OutBufferAssignment, ScheduledNode,
};
use crate::graph::topology::{
    closed_backwards, has_cycle, into, lemma_closed_backwards_has_cycle,
    lemma_topological_has_no_cycle, topological, Edge,
};
use crate::id_table::{
    arena_entries, arena_insert_at, arena_remove, arena_with_capacity, slot_of, slot_order,
    IdTable,
};
use crate::node::{AudioNodeInfo, NodeID};
use crate::small_list::SmallList;
use std::collections::VecDeque;
use thunderdome::Arena;
use vstd::prelude::*;

verus! {

/// A node of the graph. `N` is what constructs and updates its processor.
pub struct NodeEntry<N> {
    pub id: NodeID,
    pub info: AudioNodeInfo,
    pub dyn_node: N,
    pub processor_constructed: bool,
}

impl<N> NodeEntry<N> {
    /// An entry whose identifier is not set yet.
    pub fn new(info: AudioNodeInfo, dyn_node: N) -> (entry: Self)
        ensures
            entry.info == info,
            entry.dyn_node == dyn_node,
            !entry.processor_constructed,
    {
        NodeEntry { id: NodeID(0), info, dyn_node, processor_constructed: false }
    }
}

/// Why a graph could not be compiled.
#[derive(Debug, Clone, Copy, PartialEq, Eq, Structural)]
pub enum CompileGraphError {
    /// A cycle was detected in the graph.
    CycleDetected,
}

/// Validity of a graph: every edge joins ports that exist, nothing leads into
/// the graph input node, and nothing leaves the graph output node.
pub open spec fn graph_wf<N>(
    nodes: Map<u64, NodeEntry<N>>,
    edges: Map<u64, Edge>,
    graph_in: u64,
    graph_out: u64,
) -> bool {
    &&& nodes.contains_key(graph_in)
    &&& nodes.contains_key(graph_out)
    &&& graph_in != graph_out
    &&& nodes[graph_in].info.channel_config.inputs() == 0
    &&& nodes[graph_out].info.channel_config.outputs() == 0
    &&& forall|k: u64| #[trigger] nodes.contains_key(k) ==> nodes[k].id.0 == k
    &&& forall|e: u64| #[trigger] edges.contains_key(e) ==> edge_wf(nodes, edges[e], e)
}

/// Validity of one edge.
pub open spec fn edge_wf<N>(nodes: Map<u64, NodeEntry<N>>, edge: Edge, id: u64) -> bool {
    &&& edge.id.0 == id
    &&& nodes.contains_key(edge.src_node.0)
    &&& nodes.contains_key(edge.dst_node.0)
    &&& edge.src_port < nodes[edge.src_node.0].info.channel_config.outputs()
    &&& edge.dst_port < nodes[edge.dst_node.0].info.channel_config.inputs()
}

/// The edges that leave node `k`, in slot order.
pub open spec fn outgoing_edges(edges: Map<u64, Edge>, k: u64) -> Seq<u64> {
    slot_order(edges.dom()).filter(|e: u64| edges[e].src_node.0 == k)
}

/// The edges that lead to node `k`, in slot order.
pub open spec fn incoming_edges(edges: Map<u64, Edge>, k: u64) -> Seq<u64> {
    slot_order(edges.dom()).filter(|e: u64| edges[e].dst_node.0 == k)
}

/// Internal IR used by the compiler algorithm. Built incrementally
/// via the compiler passes.
struct GraphIR<'a, N> {
    nodes: &'a IdTable<NodeEntry<N>>,
    edges: &'a IdTable<Edge>,
    /// For each node position, the edges that leave the node.
    outgoing: Vec<SmallList>,
    /// For each node position, the edges that lead to the node.
    incoming: Vec<SmallList>,
    graph_in_id: NodeID,
    graph_out_id: NodeID,
}

impl<'a, N> GraphIR<'a, N> {
    spec fn wf(&self) -> bool {
        &&& self.nodes.wf()
        &&& self.edges.wf()
        &&& graph_wf(self.nodes@, self.edges@, self.graph_in_id.0, self.graph_out_id.0)
        &&& self.outgoing@.len() == self.nodes.num_positions()
        &&& self.incoming@.len() == self.nodes.num_positions()
        &&& forall|k: u64| #[trigger]
            self.nodes@.contains_key(k) ==> self.outgoing@[self.nodes.position_of(k)]@
                == outgoing_edges(self.edges@, k) && self.incoming@[self.nodes.position_of(k)]@
                == incoming_edges(self.edges@, k)
    }

    /// Construct a [GraphIR] instance from lists of nodes and edges, building
    /// up the adjacency table.
    fn preprocess(
        nodes: &'a IdTable<NodeEntry<N>>,
        edges: &'a IdTable<Edge>,
        graph_in_id: NodeID,
        graph_out_id: NodeID,
    ) -> (ir: Self)
        requires
            nodes.wf(),
            edges.wf(),
            graph_wf(nodes@, edges@, graph_in_id.0, graph_out_id.0),
        ensures
            ir.wf(),
            ir.nodes == nodes,
            ir.edges == edges,
            ir.graph_in_id == graph_in_id,
            ir.graph_out_id == graph_out_id,
    {
        let num_positions: usize = nodes.positions();
        let mut outgoing: Vec<SmallList> = Vec::with_capacity(num_positions);
        let mut incoming: Vec<SmallList> = Vec::with_capacity(num_positions);
        for i in 0..num_positions
            invariant
                outgoing@.len() == i,
                incoming@.len() == i,
                forall|p: int| 0 <= p < i ==> (#[trigger] outgoing@[p])@ == Seq::<u64>::empty(),
                forall|p: int| 0 <= p < i ==> (#[trigger] incoming@[p])@ == Seq::<u64>::empty(),
        {
            outgoing.push(SmallList::new());
            incoming.push(SmallList::new());
        }
        let ids: Vec<u64> = edges.ids();
        let num_edges: usize = ids.len();
        proof {
            reveal(Seq::filter);
            nodes.lemma_ids();
            assert(ids@.take(0) =~= Seq::<u64>::empty());
        }
        for i in 0..num_edges
            invariant
                num_edges == ids@.len(),
                ids@ == slot_order(edges@.dom()),
                ids@.to_set() == edges@.dom(),
                nodes.wf(),
                edges.wf(),
                graph_wf(nodes@, edges@, graph_in_id.0, graph_out_id.0),
                outgoing@.len() == nodes.num_positions(),
                incoming@.len() == nodes.num_positions(),
                forall|k: u64| #[trigger]
                    nodes@.contains_key(k) ==> outgoing@[nodes.position_of(k)]@ == ids@.take(
                        i as int,
                    ).filter(|e: u64| edges@[e].src_node.0 == k) && incoming@[nodes.position_of(
                        k,
                    )]@ == ids@.take(i as int).filter(|e: u64| edges@[e].dst_node.0 == k),
        {
            proof {
                nodes.lemma_ids();
                assert(ids@.to_set().contains(ids@[i as int]));
                assert(ids@.take(i + 1) =~= ids@.take(i as int).push(ids@[i as int]));
            }
            let id: u64 = ids[i];
            if let Some(edge) = edges.get(id) {
                if let Some(src) = nodes.position(edge.src_node.0) {
                    outgoing[src].push(id);
                }
                if let Some(dst) = nodes.position(edge.dst_node.0) {
                    incoming[dst].push(id);
                }
            }
            proof {
                assert forall|k: u64| #[trigger] nodes@.contains_key(k) implies outgoing@[nodes.position_of(
                    k,
                )]@ == ids@.take(i + 1).filter(|e: u64| edges@[e].src_node.0 == k)
                    && incoming@[nodes.position_of(k)]@ == ids@.take(i + 1).filter(
                    |e: u64| edges@[e].dst_node.0 == k,
                ) by {
                    ids@.take(i as int).lemma_filter_push(id, |e: u64| edges@[e].src_node.0 == k);
                    ids@.take(i as int).lemma_filter_push(id, |e: u64| edges@[e].dst_node.0 == k);
                }
            }
        }
        assert(ids@.take(num_edges as int) =~= ids@);
        GraphIR { nodes, edges, outgoing, incoming, graph_in_id, graph_out_id }
    }

    /// The number of edges that lead to each node, by the node's position.
    fn in_degrees(&self) -> (degrees: Vec<usize>)
        requires
            self.wf(),
        ensures
            degrees@.len() == self.nodes.num_positions(),
            forall|k: u64| #[trigger]
                self.nodes@.contains_key(k) ==> degrees@[self.nodes.position_of(k)] == into(
                    self.edges@,
                    self.edges@.dom(),
                    k,
                ).len(),
    {
        let num_positions: usize = self.nodes.positions();
        let mut degrees: Vec<usize> = Vec::with_capacity(num_positions);
        for i in 0..num_positions
            invariant
                degrees@.len() == i,
                forall|p: int| 0 <= p < i ==> #[trigger] degrees@[p] == 0,
        {
            degrees.push(0);
        }
        let ids: Vec<u64> = self.edges.ids();
        let num_edges: usize = ids.len();
        let ghost mut counted: Set<u64> = Set::empty();
        proof {
            self.nodes.lemma_ids();
            self.edges.lemma_ids();
            assert forall|k: u64| #[trigger] self.nodes@.contains_key(k) implies into(
                self.edges@,
                counted,
                k,
            ).len() == 0 by {
                assert(into(self.edges@, counted, k) =~= Set::empty());
            }
            assert(counted =~= ids@.take(0).to_set());
        }
        for i in 0..num_edges
            invariant
                self.wf(),
                num_edges == ids@.len(),
                ids@.to_set() == self.edges@.dom(),
                ids@.no_duplicates(),
                counted == ids@.take(i as int).to_set(),
                counted.finite(),
                degrees@.len() == self.nodes.num_positions(),
                forall|k: u64| #[trigger]
                    self.nodes@.contains_key(k) ==> degrees@[self.nodes.position_of(k)] == into(
                        self.edges@,
                        counted,
                        k,
                    ).len(),
        {
            let id: u64 = ids[i];
            proof {
                self.nodes.lemma_ids();
                assert(ids@.to_set().contains(id));
                assert(ids@.take(i + 1) =~= ids@.take(i as int).push(id));
                ids@.take(i as int).lemma_push_to_set_commute(id);
                assert(!counted.contains(id)) by {
                    if ids@.take(i as int).contains(id) {
                        let j = ids@.take(i as int).index_of(id);
                        assert(ids@[j] == id);
                    }
                }
            }
            if let Some(edge) = self.edges.get(id) {
                if let Some(dst) = self.nodes.position(edge.dst_node.0) {
                    proof {
                        let k = edge.dst_node.0;
                        vstd::set_lib::lemma_len_subset(into(self.edges@, counted, k), counted);
                        ids@.take(i as int).unique_seq_to_set();
                    }
                    degrees[dst] = degrees[dst] + 1;
                }
                proof {
                    assert forall|k: u64| #[trigger]
                        self.nodes@.contains_key(k) implies degrees@[self.nodes.position_of(k)]
                        == into(self.edges@, counted.insert(id), k).len() by {
                        if k == edge.dst_node.0 {
                            assert(into(self.edges@, counted.insert(id), k) =~= into(
                                self.edges@,
                                counted,
                                k,
                            ).insert(id));
                        } else {
                            assert(into(self.edges@, counted.insert(id), k) =~= into(
                                self.edges@,
                                counted,
                                k,
                            ));
                        }
                    }
                    counted = counted.insert(id);
                }
            }
        }
        assert(ids@.take(num_edges as int) =~= ids@);
        degrees
    }

    /// Sort the nodes topologically using Kahn's algorithm.
    /// <https://www.geeksforgeeks.org/topological-sorting-indegree-based-solution/>
    #[verifier::spinoff_prover]
    #[verifier::rlimit(60)]
    fn sort_topologically(&self, build_schedule: bool) -> (result: Result<
        Vec<NodeID>,
        CompileGraphError,
    >)
        requires
            self.wf(),
        ensures
            result is Err <==> has_cycle(self.edges@),
            match result {
                Ok(order) => if build_schedule {
                    is_schedule_order(
                        self.nodes@.dom(),
                        self.edges@,
                        node_ids(order@),
                        self.graph_in_id.0,
                        self.graph_out_id.0,
                    )
                } else {
                    order@.len() == 0
                },
                Err(error) => error == CompileGraphError::CycleDetected,
            },
    {
        let num_nodes: usize = self.nodes.len();
        let mut in_degree: Vec<usize> = self.in_degrees();
        let mut queue: VecDeque<u64> = VecDeque::with_capacity(num_nodes);
        let mut schedule: Vec<NodeID> = Vec::new();
        let mut num_visited: usize = 0;

        // Make sure that the graph in node is the first entry in the
        // schedule. Otherwise a different root node could overwrite
        // the buffers assigned to the graph in node.
        queue.push_back(self.graph_in_id.0);

        let ids: Vec<u64> = self.nodes.ids();
        let num_ids: usize = ids.len();
        let ghost edges = self.edges@;
        let ghost all = self.edges@.dom();
        let ghost nodes = self.nodes@.dom();
        let ghost gin = self.graph_in_id.0;
        let ghost gout = self.graph_out_id.0;
        proof {
            self.nodes.lemma_ids();
            self.edges.lemma_ids();
            assert(into(edges, all, gin) =~= Set::empty());
        }

        // Enqueue all other nodes with 0 in-degree
        for i in 0..num_ids
            invariant
                self.wf(),
                num_ids == ids@.len(),
                ids@.to_set() == nodes,
                ids@.no_duplicates(),
                edges == self.edges@,
                all == edges.dom(),
                nodes == self.nodes@.dom(),
                gin == self.graph_in_id.0,
                into(edges, all, gin).len() == 0,
                in_degree@.len() == self.nodes.num_positions(),
                forall|k: u64| #[trigger]
                    self.nodes@.contains_key(k) ==> in_degree@[self.nodes.position_of(k)] == into(
                        edges,
                        all,
                        k,
                    ).len(),
                queue@.no_duplicates(),
                queue@.len() > 0 && queue@[0] == gin,
                forall|k: u64| #[trigger]
                    queue@.contains(k) ==> k == gin || ids@.take(i as int).contains(k),
                forall|k: u64| #[trigger]
                    queue@.contains(k) ==> nodes.contains(k) && into(edges, all, k).len() == 0,
                forall|j: int|
                    0 <= j < i && into(edges, all, #[trigger] ids@[j]).len() == 0
                        ==> queue@.contains(ids@[j]),
        {
            let id: u64 = ids[i];
            proof {
                self.nodes.lemma_ids();
                assert(ids@.to_set().contains(id));
                assert(ids@.take(i + 1) =~= ids@.take(i as int).push(id));
            }
            let ghost before = queue@;
            if let Some(position) = self.nodes.position(id) {
                if in_degree[position] == 0 && id != self.graph_in_id.0 {
                    proof {
                        if before.contains(id) {
                            assert(ids@.take(i as int).contains(id));
                            let j = ids@.take(i as int).index_of(id);
                            assert(ids@[j] == id);
                        }
                    }
                    queue.push_back(id);
                    assert(queue@ == before.push(id));
                }
            }
            proof {
                assert forall|k: u64| #[trigger] queue@.contains(k) implies k == gin || ids@.take(
                    i + 1,
                ).contains(k) by {
                    if before.contains(k) {
                        if k != gin {
                            let j = ids@.take(i as int).index_of(k);
                            assert(ids@.take(i + 1)[j] == k);
                        }
                    } else {
                        assert(k == id);
                        assert(ids@.take(i + 1)[i as int] == k);
                    }
                }
                assert forall|k: u64| #[trigger] queue@.contains(k) implies nodes.contains(k) && into(
                    edges,
                    all,
                    k,
                ).len() == 0 by {
                    if before.contains(k) {
                    } else {
                        let j = queue@.index_of(k);
                        assert(j == before.len());
                        assert(k == id);
                    }
                }
                assert forall|k: u64| #[trigger] before.contains(k) implies queue@.contains(k) by {
                    let j = before.index_of(k);
                    assert(queue@[j] == k);
                }
                if queue@.len() > before.len() {
                    assert(queue@[before.len() as int] == id);
                }
                if id == gin {
                    assert(queue@[0] == gin);
                }
            }
        }

        let ghost mut seen: Seq<u64> = queue@;
        let ghost mut pending: Set<u64> = all;
        proof {
            assert(seen.skip(0) =~= seen);
            assert forall|k: u64| #[trigger] self.nodes@.contains_key(k) implies (seen.contains(k)
                <==> into(edges, pending, k).len() == 0) by {
                assert(ids@.to_set().contains(k));
                let j = ids@.index_of(k);
                assert(ids@[j] == k);
            }
            assert forall|e: u64, j: int|
                #![trigger edges.contains_key(e), seen[j]]
                edges.contains_key(e) && 0 <= j < seen.len() && seen[j]
                    == edges[e].dst_node.0 implies seen.take(
                if j <= num_visited {
                    j
                } else {
                    num_visited as int
                },
            ).contains(edges[e].src_node.0) by {
                assert(seen.contains(seen[j]));
                assert(into(edges, all, seen[j]).contains(e));
            }
            assert(seen.take(0) =~= Seq::<u64>::empty());
        }

        // BFS traversal
        while queue.len() > 0
            invariant
                self.wf(),
                num_nodes == self.nodes@.len(),
                edges == self.edges@,
                all == edges.dom(),
                nodes == self.nodes@.dom(),
                gin == self.graph_in_id.0,
                gout == self.graph_out_id.0,
                kahn(self.nodes, edges, in_degree@, seen, num_visited as int, pending),
                queue@ == seen.skip(num_visited as int),
                seen.len() > 0 && seen[0] == gin,
                build_schedule ==> node_ids(schedule@) == without(
                    seen.take(num_visited as int),
                    gout,
                ),
                !build_schedule ==> schedule@.len() == 0,
            decreases num_nodes - num_visited,
        {
            let ghost seen0 = seen;
            let ghost visited0 = num_visited as int;
            proof {
                lemma_seen_bounded(self.nodes, seen);
            }
            let id: u64 = match queue.pop_front() {
                Some(id) => id,
                None => {
                    return Err(CompileGraphError::CycleDetected);
                },
            };
            num_visited = num_visited + 1;
            let ghost pre = seen.take(visited0);
            proof {
                assert(id == seen[visited0]);
                assert(queue@ =~= seen.skip(num_visited as int));
                assert(seen.contains(id));
                assert(seen.take(num_visited as int) =~= pre.push(id));
                self.nodes.lemma_ids();
                lemma_kahn_advance(self.nodes, edges, in_degree@, seen, visited0, pending);
            }

            if let Some(position) = self.nodes.position(id) {
                let ghost out = self.outgoing@[position as int]@;
                let num_out: usize = self.outgoing[position].len();
                proof {
                    lemma_adjacency(self.edges, id);
                    assert(out.take(0) =~= Seq::<u64>::empty());
                }
                // Reduce in-degree of adjacent nodes
                for j in 0..num_out
                    invariant
                        self.wf(),
                        edges == self.edges@,
                        gin == self.graph_in_id.0,
                        position < self.outgoing@.len(),
                        out == self.outgoing@[position as int]@,
                        out == outgoing_edges(edges, id),
                        num_out == out.len(),
                        num_visited == visited0 + 1,
                        pre == seen.take(visited0),
                        pre.len() == visited0,
                        0 <= visited0 < seen.len(),
                        seen[visited0] == id,
                        seen[0] == gin,
                        queue@ == seen.skip(num_visited as int),
                        kahn_core(self.nodes, edges, in_degree@, seen, num_visited as int, pending),
                        forall|e: u64| #[trigger]
                            pending.contains(e) <==> edges.contains_key(e) && !pre.contains(
                                edges[e].src_node.0,
                            ) && !out.take(j as int).contains(e),
                {
                    let e: u64 = self.outgoing[position].get(j);
                    let ghost seen1 = seen;
                    let ghost degree1 = in_degree@;
                    let ghost pending1 = pending;
                    proof {
                        self.nodes.lemma_ids();
                        lemma_adjacency(self.edges, id);
                        assert(out.contains(e));
                        assert(out.take(j + 1) =~= out.take(j as int).push(e));
                        assert(!out.take(j as int).contains(e)) by {
                            if out.take(j as int).contains(e) {
                                let i = out.take(j as int).index_of(e);
                                assert(out[i] == e);
                            }
                        }
                        assert(!pre.contains(id)) by {
                            if pre.contains(id) {
                                let i = pre.index_of(id);
                                assert(seen[i] == id);
                            }
                        }
                        assert(pending.contains(e));
                        pending = pending.remove(e);
                    }
                    if let Some(edge) = self.edges.get(e) {
                        let dst: u64 = edge.dst_node.0;
                        if let Some(d) = self.nodes.position(dst) {
                            proof {
                                lemma_into_remove(edges, pending1, e);
                            }
                            in_degree[d] = in_degree[d] - 1;
                            // If in-degree becomes 0, enqueue it
                            if in_degree[d] == 0 {
                                queue.push_back(dst);
                                proof {
                                    seen = seen.push(dst);
                                    assert(queue@ =~= seen.skip(num_visited as int));
                                    assert(seen.take(visited0) =~= pre);
                                }
                            }
                            proof {
                                assert forall|x: u64| #[trigger]
                                    pending.contains(x) <==> edges.contains_key(x) && !pre.contains(
                                        edges[x].src_node.0,
                                    ) && !out.take(j + 1).contains(x) by {
                                    if out.take(j + 1).contains(x) {
                                        let i = out.take(j + 1).index_of(x);
                                        if i < j {
                                            assert(out.take(j as int)[i] == x);
                                        }
                                    }
                                    if out.take(j as int).contains(x) {
                                        let i = out.take(j as int).index_of(x);
                                        assert(out.take(j + 1)[i] == x);
                                    }
                                    assert(out.take(j + 1)[j as int] == e);
                                }
                                lemma_kahn_edge(
                                    self.nodes,
                                    edges,
                                    degree1,
                                    seen1,
                                    num_visited as int,
                                    pending1,
                                    e,
                                    in_degree@,
                                    seen,
                                    pending,
                                    out.take(j + 1),
                                );
                            }
                        }
                    }
                }
                proof {
                    assert(out.take(num_out as int) =~= out);
                    lemma_adjacency(self.edges, id);
                    assert(seen.take(num_visited as int) =~= pre.push(id));
                    assert forall|e: u64| #[trigger]
                        pending.contains(e) <==> edges.contains_key(e) && !seen.take(
                            num_visited as int,
                        ).contains(edges[e].src_node.0) by {
                        if edges.contains_key(e) {
                            let src = edges[e].src_node.0;
                            assert(pre.push(id).contains(src) <==> pre.contains(src) || src == id) by {
                                assert(pre.push(id)[visited0] == id);
                                if pre.contains(src) {
                                    let i = pre.index_of(src);
                                    assert(pre.push(id)[i] == src);
                                }
                            }
                        }
                    }
                }
            }

            if build_schedule {
                proof {
                    pre.lemma_filter_push(id, differs_from(gout));
                }
                if id != self.graph_out_id.0 {
                    let ghost schedule1 = schedule@;
                    schedule.push(NodeID(id));
                    assert(node_ids(schedule@) =~= node_ids(schedule1).push(id));
                }
            }
        }

        proof {
            lemma_seen_bounded(self.nodes, seen);
            assert(seen.take(num_visited as int) =~= seen);
            self.nodes.lemma_ids();
        }

        // If not all vertices are visited, cycle
        if num_visited != num_nodes {
            proof {
                lemma_not_all_seen(self.nodes, edges, in_degree@, seen, pending, gin, gout);
            }
            return Err(CompileGraphError::CycleDetected);
        }
        proof {
            assert forall|e: u64| #[trigger] edges.contains_key(e) implies seen.contains(
                edges[e].dst_node.0,
            ) && seen.contains(edges[e].src_node.0) by {
                assert(edge_wf(self.nodes@, edges[e], e));
                assert(seen.to_set().contains(edges[e].dst_node.0));
                assert(seen.to_set().contains(edges[e].src_node.0));
            }
            assert(topological(edges, seen)) by {
                assert forall|e: u64, j: int|
                    #![trigger edges.contains_key(e), seen[j]]
                    edges.contains_key(e) && 0 <= j < seen.len() && seen[j]
                        == edges[e].dst_node.0 implies seen.take(j).contains(
                    edges[e].src_node.0,
                ) by {}
            }
            lemma_topological_has_no_cycle(edges, seen);
        }
        if build_schedule {
            // Make sure that the graph out node is the last entry in the
            // schedule by waiting to push it after all other nodes have
            // been pushed. Otherwise a different leaf node could overwrite
            // the buffers assigned to the graph out node.
            let ghost schedule1 = schedule@;
            schedule.push(self.graph_out_id);
            proof {
                assert(node_ids(schedule@) =~= node_ids(schedule1).push(gout));
                lemma_move_to_end(self.nodes@, edges, seen, gin, gout);
            }
        }
        Ok(schedule)
    }

    /// The edges that lead to an input port of a node.
    fn edges_to_port(&self, id: u64, port: u32) -> (list: SmallList)
        requires
            self.wf(),
            self.nodes@.contains_key(id),
        ensures
            list@ == in_port_edges(self.edges@, id, port),
    {
        let mut list = SmallList::new();
        let ghost all = incoming_edges(self.edges@, id);
        let ghost p = |e: u64| self.edges@[e].dst_port == port;
        proof {
            reveal(Seq::filter);
            self.nodes.lemma_ids();
            assert(all.take(0).filter(p) =~= Seq::<u64>::empty());
        }
        if let Some(position) = self.nodes.position(id) {
            let num: usize = self.incoming[position].len();
            for i in 0..num
                invariant
                    self.wf(),
                    position < self.incoming@.len(),
                    all == self.incoming@[position as int]@,
                    all == incoming_edges(self.edges@, id),
                    num == all.len(),
                    p == (|e: u64| self.edges@[e].dst_port == port),
                    list@ == all.take(i as int).filter(p),
            {
                let e: u64 = self.incoming[position].get(i);
                proof {
                    lemma_adjacency(self.edges, id);
                    assert(all.contains(e));
                    assert(all.take(i + 1) =~= all.take(i as int).push(e));
                    all.take(i as int).lemma_filter_push(e, p);
                }
                if let Some(edge) = self.edges.get(e) {
                    if edge.dst_port == port {
                        list.push(e);
                    }
                }
            }
            assert(all.take(num as int) =~= all);
        }
        list
    }

    /// The edges that leave an output port of a node.
    fn edges_from_port(&self, id: u64, port: u32) -> (list: SmallList)
        requires
            self.wf(),
            self.nodes@.contains_key(id),
        ensures
            list@ == out_port_edges(self.edges@, id, port),
    {
        let mut list = SmallList::new();
        let ghost all = outgoing_edges(self.edges@, id);
        let ghost p = |e: u64| self.edges@[e].src_port == port;
        proof {
            reveal(Seq::filter);
            self.nodes.lemma_ids();
            assert(all.take(0).filter(p) =~= Seq::<u64>::empty());
        }
        if let Some(position) = self.nodes.position(id) {
            let num: usize = self.outgoing[position].len();
            for i in 0..num
                invariant
                    self.wf(),
                    position < self.outgoing@.len(),
                    all == self.outgoing@[position as int]@,
                    all == outgoing_edges(self.edges@, id),
                    num == all.len(),
                    p == (|e: u64| self.edges@[e].src_port == port),
                    list@ == all.take(i as int).filter(p),
            {
                let e: u64 = self.outgoing[position].get(i);
                proof {
                    lemma_adjacency(self.edges, id);
                    assert(all.contains(e));
                    assert(all.take(i + 1) =~= all.take(i as int).push(e));
                    all.take(i as int).lemma_filter_push(e, p);
                }
                if let Some(edge) = self.edges.get(e) {
                    if edge.src_port == port {
                        list.push(e);
                    }
                }
            }
            assert(all.take(num as int) =~= all);
        }
        list
    }

    /// Assigns the buffer of one input port.
    #[verifier::spinoff_prover]
    #[verifier::rlimit(60)]
    fn assign_input(
        &self,
        id: u64,
        port: u32,
        node: &mut ScheduledNode,
        allocator: &mut BufferAllocator,
        table: &mut Arena<usize>,
        to_release: &mut Vec<usize>,
        Ghost(done): Ghost<Set<u64>>,
        Ghost(held): Ghost<Map<int, (u64, u32)>>,
    )
        requires
            self.wf(),
            self.nodes@.contains_key(id),
            port < 64,
            !done.contains(id),
            forall|e: u64| #[trigger]
                self.edges@.contains_key(e) && self.edges@[e].dst_node.0 == id ==> done.contains(
                    self.edges@[e].src_node.0,
                ),
            old(allocator).wf(),
            input_state(
                self.edges@,
                done,
                held,
                id,
                port as int,
                *old(node),
                arena_entries(*old(table)),
                old(to_release)@,
                old(allocator).counts(),
            ),
        ensures
            final(allocator).wf(),
            final(allocator).counts().len() >= old(allocator).counts().len(),
            input_state(
                self.edges@,
                done,
                held,
                id,
                port + 1,
                *final(node),
                arena_entries(*final(table)),
                final(to_release)@,
                final(allocator).counts(),
            ),
            final(node).output_buffers == old(node).output_buffers,
            final(node).out_connected_mask == old(node).out_connected_mask,
            final(node).debug_name == old(node).debug_name,
            port_assigned(
                *old(node),
                arena_entries(*old(table)),
                old(to_release)@,
                old(allocator).counts(),
                *final(node),
                arena_entries(*final(table)),
                final(to_release)@,
                final(allocator).counts(),
            ),
    {
        let ghost edges = self.edges@;
        let ghost node0 = *node;
        let ghost table0 = arena_entries(*table);
        let ghost release0 = to_release@;
        let ghost counts0 = allocator.counts();
        let ghost sums0 = node.sum_inputs@;
        let ghost summed0 = after_sums(held, sums0, sums0.len() as int);
        let list = self.edges_to_port(id, port);
        let num_edges: usize = list.len();
        proof {
            lemma_in_port_edges(self.edges, id, port);
            self.edges.lemma_ids();
        }
        node.in_connected_mask.set_channel(port as usize, num_edges != 0);

        if num_edges == 0 {
            // The port is an input and it is unconnected. Acquire a buffer, and
            // assign it. The buffer must be cleared. Release the buffer once the
            // node assignments are done.
            let buffer: usize = allocator.acquire(1);
            let input = InBufferAssignment { buffer_index: buffer, should_clear: true };
            node.input_buffers.push(input);
            to_release.push(buffer);
            proof {
                lemma_not_in_use(table0, release0, counts0, buffer);
                lemma_balanced_acquire(table0, release0, counts0, allocator.counts(), buffer);
                assert(node.input_buffers@.drop_last() =~= node0.input_buffers@);
                lemma_input_added(
                    self.edges,
                    done,
                    held,
                    id,
                    port as int,
                    node0,
                    table0,
                    release0,
                    counts0,
                    *node,
                    arena_entries(*table),
                    to_release@,
                    allocator.counts(),
                );
            }
        } else if num_edges == 1 {
            // The port is an input, and has exactly one incoming edge. Lookup the
            // corresponding buffer and assign it. Buffer should not be cleared.
            // Release the buffer once the node assignments are done.
            let e: u64 = list.get(0);
            assert(list@.contains(e));
            assert(table0.contains_key(e));
            if let Some(buffer) = arena_remove(table, e) {
                let input = InBufferAssignment { buffer_index: buffer, should_clear: false };
                node.input_buffers.push(input);
                to_release.push(buffer);
                proof {
                    lemma_uses_remove(table0, e);
                    vstd::seq_lib::to_multiset_build(release0, buffer);
                    assert(balanced(arena_entries(*table), to_release@, allocator.counts())) by {
                        let t2 = arena_entries(*table);
                        let counts = allocator.counts();
                        assert forall|x: u64| #[trigger] t2.contains_key(x) implies t2[x]
                            < counts.len() by {
                            assert(table0.contains_key(x));
                        }
                        assert forall|i: int| 0 <= i < to_release@.len() implies (
                        #[trigger] to_release@[i]) < counts.len() by {
                            if i < release0.len() {
                                assert(release0[i] < counts.len());
                            }
                        }
                        assert forall|b: usize| b < counts.len() implies #[trigger] counts[b as int]
                            == uses(t2, b) + to_release@.to_multiset().count(b) by {
                            assert(counts0[b as int] == uses(table0, b)
                                + release0.to_multiset().count(b));
                        }
                    }
                    assert(node.input_buffers@.drop_last() =~= node0.input_buffers@);
                    lemma_input_added(
                        self.edges,
                        done,
                        held,
                        id,
                        port as int,
                        node0,
                        table0,
                        release0,
                        counts0,
                        *node,
                        arena_entries(*table),
                        to_release@,
                        allocator.counts(),
                    );
                }
            }
        } else {
            // The port is an input with multiple incoming edges. Compute the
            // summing point, and assign the input buffer assignment to the output
            // of the summing point.
            let sum_buffer: usize = allocator.acquire(1);
            to_release.push(sum_buffer);
            proof {
                lemma_not_in_use(table0, release0, counts0, sum_buffer);
                lemma_balanced_acquire(table0, release0, counts0, allocator.counts(), sum_buffer);
            }
            let ghost counts1 = allocator.counts();
            let ghost release1 = to_release@;
            let mut sum_inputs = SmallList::new();

            // The sum inputs are the corresponding output buffers of the incoming edges.
            for i in 0..num_edges
                invariant
                    self.edges.wf(),
                    edges == self.edges@,
                    num_edges == list@.len(),
                    list@ == in_port_edges(edges, id, port),
                    list@.no_duplicates(),
                    allocator.wf(),
                    allocator.counts().len() == counts1.len(),
                    balanced(arena_entries(*table), release1, allocator.counts()),
                    forall|e: u64| #[trigger] list@.contains(e) ==> table0.contains_key(e),
                    forall|e: u64| #[trigger] table0.contains_key(e) ==> edges.contains_key(e),
                    forall|e: u64| #[trigger]
                        arena_entries(*table).contains_key(e) <==> table0.contains_key(e)
                            && !list@.take(i as int).contains(e),
                    forall|e: u64| #[trigger]
                        arena_entries(*table).contains_key(e) ==> arena_entries(*table)[e]
                            == table0[e],
                    sum_inputs@.len() == i,
                    forall|j: int|
                        0 <= j < i ==> #[trigger] sum_inputs@[j] == table0[list@[j]] as u64,
            {
                let e: u64 = list.get(i);
                let ghost t1 = arena_entries(*table);
                let ghost c1 = allocator.counts();
                proof {
                    self.edges.lemma_ids();
                    assert(list@.contains(e));
                    assert(!list@.take(i as int).contains(e)) by {
                        if list@.take(i as int).contains(e) {
                            let j = list@.take(i as int).index_of(e);
                            assert(list@[j] == e);
                        }
                    }
                    assert(t1.contains_key(e));
                    lemma_uses_remove(t1, e);
                }
                if let Some(buffer) = arena_remove(table, e) {
                    sum_inputs.push(buffer as u64);
                    assert(c1[buffer as int] == uses(t1, buffer) + release1.to_multiset().count(
                        buffer,
                    ));
                    allocator.release(buffer);
                    proof {
                        let t2 = arena_entries(*table);
                        let c2 = allocator.counts();
                        assert forall|x: u64| #[trigger] t2.contains_key(x) implies t2[x]
                            < c2.len() by {
                            assert(t1.contains_key(x));
                        }
                        assert forall|b: usize| b < c2.len() implies #[trigger] c2[b as int]
                            == uses(t2, b) + release1.to_multiset().count(b) by {
                            assert(c1[b as int] == uses(t1, b) + release1.to_multiset().count(b));
                        }
                        assert(list@.take(i + 1) =~= list@.take(i as int).push(e));
                        assert forall|x: u64| #[trigger] t2.contains_key(x) <==> table0.contains_key(
                            x,
                        ) && !list@.take(i + 1).contains(x) by {
                            assert(list@.take(i + 1)[i as int] == e);
                            if list@.take(i as int).contains(x) {
                                let j = list@.take(i as int).index_of(x);
                                assert(list@.take(i + 1)[j] == x);
                            }
                            if list@.take(i + 1).contains(x) {
                                let j = list@.take(i + 1).index_of(x);
                                if j < i {
                                    assert(list@.take(i as int)[j] == x);
                                }
                            }
                        }
                    }
                }
            }
            assert(list@.take(num_edges as int) =~= list@);

            let output_buffer = OutBufferAssignment { buffer_index: sum_buffer };
            node.sum_inputs.push(InsertedSum { input_buffers: sum_inputs, output_buffer });

            // This node's input buffer is the sum output buffer. Release it once the node
            // assignments are done.
            let input = InBufferAssignment { buffer_index: sum_buffer, should_clear: false };
            node.input_buffers.push(input);
            proof {
                assert(node.input_buffers@.drop_last() =~= node0.input_buffers@);
                assert(node.sum_inputs@.drop_last() =~= sums0);
                assert forall|j: int| 0 <= j < num_edges implies table0.contains_key(
                    #[trigger] list@[j],
                ) && sum_inputs@[j] == table0[list@[j]] as u64 by {
                    assert(list@.contains(list@[j]));
                }
                lemma_input_added(
                    self.edges,
                    done,
                    held,
                    id,
                    port as int,
                    node0,
                    table0,
                    release0,
                    counts0,
                    *node,
                    arena_entries(*table),
                    to_release@,
                    allocator.counts(),
                );
            }
        }
        proof {
            lemma_input_port_assigned(
                node0,
                table0,
                release0,
                counts0,
                *node,
                arena_entries(*table),
                to_release@,
                allocator.counts(),
            );
        }
    }

    /// Assigns the buffer of one output port.
    #[verifier::spinoff_prover]
    #[verifier::rlimit(60)]
    fn assign_output(
        &self,
        id: u64,
        port: u32,
        node: &mut ScheduledNode,
        allocator: &mut BufferAllocator,
        table: &mut Arena<usize>,
        to_release: &mut Vec<usize>,
        Ghost(done): Ghost<Set<u64>>,
        Ghost(held): Ghost<Map<int, (u64, u32)>>,
    )
        requires
            self.wf(),
            self.nodes@.contains_key(id),
            port < 64,
            !done.contains(id),
            old(allocator).wf(),
            output_state(
                self.edges@,
                done,
                held,
                id,
                port as int,
                *old(node),
                arena_entries(*old(table)),
                old(to_release)@,
                old(allocator).counts(),
            ),
        ensures
            final(allocator).wf(),
            final(allocator).counts().len() >= old(allocator).counts().len(),
            output_state(
                self.edges@,
                done,
                held,
                id,
                port + 1,
                *final(node),
                arena_entries(*final(table)),
                final(to_release)@,
                final(allocator).counts(),
            ),
            final(node).input_buffers == old(node).input_buffers,
            final(node).in_connected_mask == old(node).in_connected_mask,
            final(node).sum_inputs == old(node).sum_inputs,
            final(node).debug_name == old(node).debug_name,
            port_assigned(
                *old(node),
                arena_entries(*old(table)),
                old(to_release)@,
                old(allocator).counts(),
                *final(node),
                arena_entries(*final(table)),
                final(to_release)@,
                final(allocator).counts(),
            ),
    {
        let ghost edges = self.edges@;
        let ghost node0 = *node;
        let ghost table0 = arena_entries(*table);
        let ghost release0 = to_release@;
        let ghost counts0 = allocator.counts();
        let list = self.edges_from_port(id, port);
        let num_edges: usize = list.len();
        proof {
            lemma_out_port_edges(self.edges, id, port);
            self.edges.lemma_ids();
        }
        node.out_connected_mask.set_channel(port as usize, num_edges != 0);

        if num_edges == 0 {
            // The port is an output and it is unconnected. Acquire a buffer and
            // assign it. The buffer does not need to be cleared. Release the
            // buffer once the node assignments are done.
            let buffer: usize = allocator.acquire(1);
            node.output_buffers.push(OutBufferAssignment { buffer_index: buffer });
            to_release.push(buffer);
            proof {
                assert(node.output_buffers@.drop_last() =~= node0.output_buffers@);
                lemma_not_in_use(table0, release0, counts0, buffer);
                lemma_balanced_acquire(table0, release0, counts0, allocator.counts(), buffer);
                assert forall|q: int|
                    0 <= q < node0.input_buffers@.len() implies to_release@.contains(
                    (#[trigger] node0.input_buffers@[q]).buffer_index,
                ) by {
                    assert(release0.contains(node0.input_buffers@[q].buffer_index));
                    let i = release0.index_of(node0.input_buffers@[q].buffer_index);
                    assert(to_release@[i] == node0.input_buffers@[q].buffer_index);
                }
                assert forall|b: int| 0 <= b < counts0.len() implies #[trigger] allocator.counts()[b]
                    >= counts0[b] by {}
                assert(out_port_edges(edges, id, port).len() == 0);
                assert forall|e: u64| #[trigger] arena_entries(*table).contains_key(e) implies
                    table0.contains_key(e) by {}
                lemma_output_added(
                    self.edges,
                    done,
                    held,
                    id,
                    port as int,
                    node0,
                    table0,
                    release0,
                    counts0,
                    *node,
                    arena_entries(*table),
                    to_release@,
                    allocator.counts(),
                );
            }
        } else {
            // The port is an output. Acquire a buffer, and add to the assignment
            // table with any corresponding edge IDs. For each edge, update the
            // assigned buffer table. Buffer should not be cleared or released.
            let buffer: usize = allocator.acquire(num_edges);
            let ghost counts1 = allocator.counts();
            proof {
                lemma_not_in_use(table0, release0, counts0, buffer);
                assert forall|b: usize| b < counts1.len() && b != buffer implies #[trigger] counts1[b as int]
                    == uses(table0, b) + release0.to_multiset().count(b) by {
                    assert(counts0[b as int] == uses(table0, b) + release0.to_multiset().count(b));
                }
                assert(list@.take(0) =~= Seq::<u64>::empty());
            }
            for i in 0..num_edges
                invariant
                    self.edges.wf(),
                    edges == self.edges@,
                    num_edges == list@.len(),
                    list@.no_duplicates(),
                    counts1.len() >= counts0.len(),
                    forall|e: u64| #[trigger]
                        list@.contains(e) ==> edges.contains_key(e) && !table0.contains_key(e),
                    forall|e: u64| #[trigger] table0.contains_key(e) ==> edges.contains_key(e),
                    arena_entries(*table).dom().finite(),
                    forall|e: u64| #[trigger]
                        arena_entries(*table).contains_key(e) <==> table0.contains_key(e)
                            || list@.take(i as int).contains(e),
                    forall|e: u64| #[trigger]
                        arena_entries(*table).contains_key(e) ==> arena_entries(*table)[e] == (
                        if table0.contains_key(e) {
                            table0[e]
                        } else {
                            buffer
                        }),
                    uses(arena_entries(*table), buffer) == i,
                    forall|b: usize|
                        b < counts1.len() && b != buffer ==> #[trigger] counts1[b as int] == uses(
                            arena_entries(*table),
                            b,
                        ) + release0.to_multiset().count(b),
            {
                let e: u64 = list.get(i);
                let ghost t1 = arena_entries(*table);
                proof {
                    self.edges.lemma_ids();
                    assert(list@.contains(e));
                    assert(!list@.take(i as int).contains(e)) by {
                        if list@.take(i as int).contains(e) {
                            let j = list@.take(i as int).index_of(e);
                            assert(list@[j] == e);
                        }
                    }
                    assert forall|x: u64| #[trigger] t1.contains_key(x) implies edges.contains_key(
                        x,
                    ) by {
                        if list@.take(i as int).contains(x) {
                            let j = list@.take(i as int).index_of(x);
                            assert(list@[j] == x);
                            assert(list@.contains(x));
                        }
                    }
                    assert(t1.dom().subset_of(edges.dom().remove(e)));
                    vstd::set_lib::lemma_len_subset(t1.dom(), edges.dom().remove(e));
                    lemma_uses_insert(t1, e, buffer);
                }
                arena_insert_at(table, e, buffer);
                proof {
                    assert(t1.restrict(Set::new(|k: u64| slot_of(k) != slot_of(e))) =~= t1);
                    let t2 = arena_entries(*table);
                    assert(t2 == t1.insert(e, buffer));
                    assert(list@.take(i + 1) =~= list@.take(i as int).push(e));
                    assert forall|x: u64| #[trigger] t2.contains_key(x) <==> table0.contains_key(x)
                        || list@.take(i + 1).contains(x) by {
                        assert(t1.contains_key(x) <==> table0.contains_key(x) || list@.take(
                            i as int,
                        ).contains(x));
                        assert(list@.take(i + 1)[i as int] == e);
                        if list@.take(i as int).contains(x) {
                            let j = list@.take(i as int).index_of(x);
                            assert(list@.take(i + 1)[j] == x);
                        }
                        if list@.take(i + 1).contains(x) {
                            let j = list@.take(i + 1).index_of(x);
                            if j < i {
                                assert(list@.take(i as int)[j] == x);
                            }
                        }
                    }
                }
            }
            node.output_buffers.push(OutBufferAssignment { buffer_index: buffer });
            proof {
                assert(list@.take(num_edges as int) =~= list@);
                assert(node.output_buffers@.drop_last() =~= node0.output_buffers@);
                let t2 = arena_entries(*table);
                assert(balanced(t2, to_release@, allocator.counts())) by {
                    assert forall|x: u64| #[trigger] t2.contains_key(x) implies t2[x]
                        < counts1.len() by {
                        if table0.contains_key(x) {
                            assert(table0[x] < counts0.len());
                        }
                    }
                    assert forall|j: int| 0 <= j < release0.len() implies (#[trigger] release0[j])
                        < counts1.len() by {
                        assert(release0[j] < counts0.len());
                    }
                }
                lemma_output_added(
                    self.edges,
                    done,
                    held,
                    id,
                    port as int,
                    node0,
                    table0,
                    release0,
                    counts0,
                    *node,
                    arena_entries(*table),
                    to_release@,
                    allocator.counts(),
                );
            }
        }
        proof {
            lemma_output_port_assigned(
                node0,
                table0,
                release0,
                counts0,
                *node,
                arena_entries(*table),
                to_release@,
                allocator.counts(),
            );
        }
    }

    /// Assigns the buffers of one node, which comes after the nodes `done`.
    #[verifier::spinoff_prover]
    #[verifier::rlimit(80)]
    fn assign_node(
        &self,
        id: NodeID,
        debug_name: &'static str,
        allocator: &mut BufferAllocator,
        table: &mut Arena<usize>,
        Ghost(done): Ghost<Set<u64>>,
        Ghost(held): Ghost<Map<int, (u64, u32)>>,
    ) -> (node: ScheduledNode)
        requires
            self.wf(),
            self.nodes@.contains_key(id.0),
            !done.contains(id.0),
            forall|e: u64| #[trigger]
                self.edges@.contains_key(e) && self.edges@[e].dst_node.0 == id.0 ==> done.contains(
                    self.edges@[e].src_node.0,
                ),
            forall|e: u64| #[trigger]
                self.edges@.contains_key(e) && self.edges@[e].src_node.0 == id.0
                    ==> self.edges@[e].dst_node.0 != id.0 && !done.contains(
                    self.edges@[e].dst_node.0,
                ),
            old(allocator).wf(),
            flow_state(
                self.edges@,
                done,
                held,
                arena_entries(*old(table)),
                old(allocator).counts(),
            ),
        ensures
            node.id == id,
            node.debug_name == debug_name,
            final(allocator).wf(),
            final(allocator).counts().len() >= old(allocator).counts().len(),
            node_routed(
                self.nodes@,
                self.edges@,
                held,
                node,
                final(allocator).counts().len() as int,
            ),
            flow_state(
                self.edges@,
                done.insert(id.0),
                after_node(held, node),
                arena_entries(*final(table)),
                final(allocator).counts(),
            ),
            grown_if_needed(
                arena_entries(*old(table)),
                node,
                old(allocator).counts().len() as int,
                final(allocator).counts().len() as int,
            ),
    {
        // Collect the inputs to the algorithm, the incoming/outgoing edges of this node.
        let mut node = ScheduledNode::new(id, debug_name);
        let mut to_release: Vec<usize> = Vec::new();
        let ghost edges = self.edges@;
        let (num_inputs, num_outputs): (u32, u32) = match self.nodes.get(id.0) {
            Some(entry) => (
                entry.info.channel_config.num_inputs.get(),
                entry.info.channel_config.num_outputs.get(),
            ),
            None => (0, 0),
        };
        proof {
            assert(node.sum_inputs@ =~= Seq::<InsertedSum>::empty());
            assert(to_release@ =~= Seq::<usize>::empty());
        }
        for port in 0..num_inputs
            invariant
                num_inputs <= 64,
                self.wf(),
                edges == self.edges@,
                self.nodes@.contains_key(id.0),
                !done.contains(id.0),
                forall|e: u64| #[trigger]
                    edges.contains_key(e) && edges[e].dst_node.0 == id.0 ==> done.contains(
                        edges[e].src_node.0,
                    ),
                allocator.wf(),
                allocator.counts().len() >= old(allocator).counts().len(),
                node.id == id,
                node.debug_name == debug_name,
                node.output_buffers@.len() == 0,
                accounted(arena_entries(*old(table)), node, arena_entries(*table), to_release@),
                grown_if_needed(
                    arena_entries(*old(table)),
                    node,
                    old(allocator).counts().len() as int,
                    allocator.counts().len() as int,
                ),
                input_state(
                    edges,
                    done,
                    held,
                    id.0,
                    port as int,
                    node,
                    arena_entries(*table),
                    to_release@,
                    allocator.counts(),
                ),
        {
            let ghost node0 = node;
            let ghost table0 = arena_entries(*table);
            let ghost release0 = to_release@;
            let ghost counts0 = allocator.counts();
            self.assign_input(
                id.0,
                port,
                &mut node,
                allocator,
                table,
                &mut to_release,
                Ghost(done),
                Ghost(held),
            );
            proof {
                allocator.lemma_num_buffers();
                lemma_port_assigned(
                    arena_entries(*old(table)),
                    old(allocator).counts().len() as int,
                    node0,
                    table0,
                    release0,
                    counts0,
                    node,
                    arena_entries(*table),
                    to_release@,
                    allocator.counts(),
                );
            }
            assert(node.id == id);
        }
        let ghost inputs = node.input_buffers@;
        let ghost sums = node.sum_inputs@;
        let ghost in_mask = node.in_connected_mask;
        let ghost node1 = node;
        proof {
            let t = arena_entries(*table);
            assert forall|e: u64| #[trigger] t.contains_key(e) <==> edges.contains_key(e) && ((
            done.contains(edges[e].src_node.0) && !done.contains(edges[e].dst_node.0)
                && edges[e].dst_node.0 != id.0) || (edges[e].src_node.0 == id.0
                && edges[e].src_port < 0)) by {
                if edges.contains_key(e) {
                    assert(edge_wf(self.nodes@, edges[e], e));
                }
            }
            assert forall|q: int, e: u64|
                0 <= q < inputs.len() && #[trigger] t.contains_key(e) && (
                #[trigger] inputs[q]).should_clear implies t[e] != inputs[q].buffer_index by {
                assert(input_routed(edges, held, node, q));
            }
        }
        for port in 0..num_outputs
            invariant
                num_outputs <= 64,
                self.wf(),
                edges == self.edges@,
                self.nodes@.contains_key(id.0),
                !done.contains(id.0),
                allocator.wf(),
                allocator.counts().len() >= old(allocator).counts().len(),
                node.id == id,
                node.debug_name == debug_name,
                node.input_buffers@ == inputs,
                node.sum_inputs@ == sums,
                node.in_connected_mask == in_mask,
                accounted(arena_entries(*old(table)), node, arena_entries(*table), to_release@),
                grown_if_needed(
                    arena_entries(*old(table)),
                    node,
                    old(allocator).counts().len() as int,
                    allocator.counts().len() as int,
                ),
                output_state(
                    edges,
                    done,
                    held,
                    id.0,
                    port as int,
                    node,
                    arena_entries(*table),
                    to_release@,
                    allocator.counts(),
                ),
        {
            let ghost node0 = node;
            let ghost table0 = arena_entries(*table);
            let ghost release0 = to_release@;
            let ghost counts0 = allocator.counts();
            self.assign_output(
                id.0,
                port,
                &mut node,
                allocator,
                table,
                &mut to_release,
                Ghost(done),
                Ghost(held),
            );
            proof {
                allocator.lemma_num_buffers();
                lemma_port_assigned(
                    arena_entries(*old(table)),
                    old(allocator).counts().len() as int,
                    node0,
                    table0,
                    release0,
                    counts0,
                    node,
                    arena_entries(*table),
                    to_release@,
                    allocator.counts(),
                );
            }
            assert(node.id == id);
        }
        proof {
            lemma_node_routed(
                self.nodes@,
                edges,
                done,
                held,
                id.0,
                node1,
                node,
                arena_entries(*table),
                to_release@,
                allocator.counts(),
            );
        }
        let ghost routed_counts = allocator.counts();
        let ghost t = arena_entries(*table);
        let num_release: usize = to_release.len();
        assert(to_release@.skip(0) =~= to_release@);
        for i in 0..num_release
            invariant
                num_release == to_release@.len(),
                allocator.wf(),
                allocator.counts().len() == routed_counts.len(),
                balanced(t, to_release@.skip(i as int), allocator.counts()),
        {
            let buffer: usize = to_release[i];
            let ghost rest = to_release@.skip(i as int);
            let ghost rest2 = to_release@.skip(i + 1);
            let ghost c1 = allocator.counts();
            proof {
                assert(rest =~= seq![buffer] + rest2);
                vstd::seq_lib::lemma_multiset_commutative(seq![buffer], rest2);
                assert(seq![buffer] =~= Seq::<usize>::empty().push(buffer));
                vstd::seq_lib::to_multiset_build(Seq::<usize>::empty(), buffer);
                Seq::<usize>::empty().to_multiset_ensures();
                assert(rest[0] == buffer);
                assert(c1[buffer as int] == uses(t, buffer) + rest.to_multiset().count(buffer));
            }
            allocator.release(buffer);
            proof {
                let c2 = allocator.counts();
                assert forall|j: int| 0 <= j < rest2.len() implies (#[trigger] rest2[j])
                    < c2.len() by {
                    assert(rest[j + 1] == rest2[j]);
                }
                assert forall|b: usize| b < c2.len() implies #[trigger] c2[b as int] == uses(t, b)
                    + rest2.to_multiset().count(b) by {
                    assert(c1[b as int] == uses(t, b) + rest.to_multiset().count(b));
                }
            }
        }
        assert(to_release@.skip(num_release as int) =~= Seq::<usize>::empty());
        node
    }

    /// Assigns buffers to the ports of all nodes, in the order of the schedule.
    fn solve_buffer_requirements(&self, order: &Vec<NodeID>) -> (result: (
        Vec<ScheduledNode>,
        usize,
    ))
        requires
            self.wf(),
            is_schedule_order(
                self.nodes@.dom(),
                self.edges@,
                node_ids(order@),
                self.graph_in_id.0,
                self.graph_out_id.0,
            ),
        ensures
            result.0@.len() == order@.len(),
            forall|i: int| 0 <= i < order@.len() ==> (#[trigger] result.0@[i]).id == order@[i],
            schedule_routed(self.nodes@, self.edges@, result.0@, result.1 as int),
            all_needed(self.edges@, result.0@, result.1 as int),
            schedule_named(self.nodes@, self.graph_out_id.0, result.0@),
    {
        let mut allocator = BufferAllocator::new(64);
        let positions: usize = self.edges.positions();
        let mut table = arena_with_capacity(
            if positions <= 0xFFFF_FFFF {
                positions
            } else {
                0xFFFF_FFFF
            },
        );
        let mut schedule: Vec<ScheduledNode> = Vec::with_capacity(order.len());
        let ghost ids = node_ids(order@);
        let ghost edges = self.edges@;
        let num_nodes: usize = order.len();
        proof {
            let t = arena_entries(table);
            assert(t.dom().finite());
            assert(ids.take(0).to_set() =~= Set::<u64>::empty());
            Seq::<usize>::empty().to_multiset_ensures();
        }
        for i in 0..num_nodes
            invariant
                self.wf(),
                edges == self.edges@,
                num_nodes == order@.len(),
                ids == node_ids(order@),
                is_schedule_order(
                    self.nodes@.dom(),
                    edges,
                    ids,
                    self.graph_in_id.0,
                    self.graph_out_id.0,
                ),
                allocator.wf(),
                schedule@.len() == i,
                forall|j: int| 0 <= j < i ==> (#[trigger] schedule@[j]).id == order@[j],
                schedule_routed(
                    self.nodes@,
                    edges,
                    schedule@,
                    allocator.counts().len() as int,
                ),
                all_needed(edges, schedule@, allocator.counts().len() as int),
                schedule_named(self.nodes@, self.graph_out_id.0, schedule@),
                flow_state(
                    edges,
                    ids.take(i as int).to_set(),
                    held_before(schedule@, i as int),
                    arena_entries(table),
                    allocator.counts(),
                ),
        {
            let id: NodeID = order[i];
            let ghost done = ids.take(i as int).to_set();
            let ghost held = held_before(schedule@, i as int);
            let ghost before = schedule@;
            let ghost counts1 = allocator.counts();
            let ghost table1 = arena_entries(table);
            proof {
                lemma_next_in_order(
                    self.nodes@.dom(),
                    edges,
                    ids,
                    self.graph_in_id.0,
                    self.graph_out_id.0,
                    i as int,
                );
            }
            let debug_name: &'static str = if id == self.graph_out_id {
                "graph_out"
            } else {
                match self.nodes.get(id.0) {
                    Some(entry) => entry.info.debug_name,
                    None => "",
                }
            };
            let node = self.assign_node(
                id,
                debug_name,
                &mut allocator,
                &mut table,
                Ghost(done),
                Ghost(held),
            );
            schedule.push(node);
            proof {
                assert(ids.take(i + 1) =~= ids.take(i as int).push(id.0));
                ids.take(i as int).lemma_push_to_set_commute(id.0);
                let num = allocator.counts().len() as int;
                assert forall|j: int| 0 <= j < schedule@.len() implies #[trigger] node_routed(
                    self.nodes@,
                    edges,
                    held_before(schedule@, j),
                    schedule@[j],
                    num,
                ) by {
                    lemma_held_before_prefix(before, schedule@, j);
                    if j < i {
                        assert(schedule@[j] == before[j]);
                        lemma_routed_with_more(
                            self.nodes@,
                            edges,
                            held_before(before, j),
                            before[j],
                            counts1.len() as int,
                            num,
                        );
                    } else {
                        assert(schedule@[j] == node);
                        assert(held_before(schedule@, j) == held);
                    }
                }
                lemma_held_before_prefix(before, schedule@, i as int);
                assert forall|e: u64| #[trigger] table1.contains_key(e) implies !(exists|j: int|
                    0 <= j < before.len() && (#[trigger] before[j]).id == edges[e].dst_node) by {
                    if exists|j: int|
                        0 <= j < before.len() && (#[trigger] before[j]).id == edges[e].dst_node {
                        let j = choose|j: int|
                            0 <= j < before.len() && (#[trigger] before[j]).id
                                == edges[e].dst_node;
                        assert(ids.take(i as int)[j] == edges[e].dst_node.0);
                        assert(done.contains(edges[e].dst_node.0));
                    }
                }
                lemma_all_needed(
                    edges,
                    before,
                    node,
                    table1,
                    counts1.len() as int,
                    num,
                );
                assert forall|j: int| 0 <= j < schedule@.len() implies (
                #[trigger] schedule@[j]).debug_name@ == scheduled_name(
                    self.nodes@,
                    self.graph_out_id.0,
                    schedule@[j].id.0,
                ) by {
                    if j < i {
                        assert(schedule@[j] == before[j]);
                    }
                }
            }
        }
        (schedule, allocator.num_buffers())
    }
}

/// The bit forms of node identifiers.
pub open spec fn node_ids(nodes: Seq<NodeID>) -> Seq<u64> {
    nodes.map_values(|n: NodeID| n.0)
}

/// A sequence without the occurrences of `x`.
pub open spec fn without(s: Seq<u64>, x: u64) -> Seq<u64> {
    s.filter(differs_from(x))
}

/// The predicate of being other than `x`.
pub open spec fn differs_from(x: u64) -> spec_fn(u64) -> bool {
    |k: u64| k != x
}

/// Whether `order` is an order in which the nodes can be processed: each node
/// once, after all nodes that lead to it, the graph input node first and the
/// graph output node last.
pub open spec fn is_schedule_order(
    nodes: Set<u64>,
    edges: Map<u64, Edge>,
    order: Seq<u64>,
    graph_in: u64,
    graph_out: u64,
) -> bool {
    &&& order.no_duplicates()
    &&& order.to_set() == nodes
    &&& topological(edges, order)
    &&& order.first() == graph_in
    &&& order.last() == graph_out
}

/// The state of Kahn's algorithm, without what `pending` holds: `seen` holds the
/// first `visited` nodes, and then the queued ones.
spec fn kahn_core<N>(
    nodes: &IdTable<NodeEntry<N>>,
    edges: Map<u64, Edge>,
    in_degree: Seq<usize>,
    seen: Seq<u64>,
    visited: int,
    pending: Set<u64>,
) -> bool {
    &&& 0 <= visited <= seen.len()
    &&& seen.no_duplicates()
    &&& forall|k: u64| #[trigger] seen.contains(k) ==> nodes@.contains_key(k)
    &&& in_degree.len() == nodes.num_positions()
    &&& pending.finite()
    &&& forall|k: u64| #[trigger]
        nodes@.contains_key(k) ==> in_degree[nodes.position_of(k)] == into(edges, pending, k).len()
    &&& forall|k: u64| #[trigger]
        nodes@.contains_key(k) ==> (seen.contains(k) <==> into(edges, pending, k).len() == 0)
    &&& forall|e: u64, j: int|
        #![trigger edges.contains_key(e), seen[j]]
        edges.contains_key(e) && 0 <= j < seen.len() && seen[j] == edges[e].dst_node.0
            ==> seen.take(
            if j <= visited {
                j
            } else {
                visited
            },
        ).contains(edges[e].src_node.0)
}

/// The state of Kahn's algorithm: `pending` are the edges that do not leave a
/// visited node.
spec fn kahn<N>(
    nodes: &IdTable<NodeEntry<N>>,
    edges: Map<u64, Edge>,
    in_degree: Seq<usize>,
    seen: Seq<u64>,
    visited: int,
    pending: Set<u64>,
) -> bool {
    &&& kahn_core(nodes, edges, in_degree, seen, visited, pending)
    &&& forall|e: u64| #[trigger]
        pending.contains(e) <==> edges.contains_key(e) && !seen.take(visited).contains(
            edges[e].src_node.0,
        )
}

/// The next queued node becomes a visited one.
proof fn lemma_kahn_advance<N>(
    nodes: &IdTable<NodeEntry<N>>,
    edges: Map<u64, Edge>,
    in_degree: Seq<usize>,
    seen: Seq<u64>,
    visited: int,
    pending: Set<u64>,
)
    requires
        kahn_core(nodes, edges, in_degree, seen, visited, pending),
        visited < seen.len(),
    ensures
        kahn_core(nodes, edges, in_degree, seen, visited + 1, pending),
{
    assert forall|e: u64, j: int|
        #![trigger edges.contains_key(e), seen[j]]
        edges.contains_key(e) && 0 <= j < seen.len() && seen[j]
            == edges[e].dst_node.0 implies seen.take(
        if j <= visited + 1 {
            j
        } else {
            visited + 1
        },
    ).contains(edges[e].src_node.0) by {
        let n = if j <= visited {
            j
        } else {
            visited
        };
        let m = if j <= visited + 1 {
            j
        } else {
            visited + 1
        };
        let src = edges[e].src_node.0;
        assert(seen.take(n).contains(src));
        let i = seen.take(n).index_of(src);
        assert(seen.take(m)[i] == src);
    }
}

proof fn lemma_into_remove(edges: Map<u64, Edge>, pending: Set<u64>, e: u64)
    requires
        pending.finite(),
        pending.contains(e),
    ensures
        forall|k: u64|
            #![trigger into(edges, pending.remove(e), k)]
            into(edges, pending.remove(e), k).len() == into(edges, pending, k).len() - (if k
                == edges[e].dst_node.0 {
                1int
            } else {
                0
            }),
        into(edges, pending, edges[e].dst_node.0).len() >= 1,
{
    assert(into(edges, pending, edges[e].dst_node.0).contains(e));
    assert forall|k: u64|
        #![trigger into(edges, pending.remove(e), k)]
        into(edges, pending.remove(e), k).len() == into(edges, pending, k).len() - (if k
            == edges[e].dst_node.0 {
            1int
        } else {
            0
        }) by {
        if k == edges[e].dst_node.0 {
            assert(into(edges, pending.remove(e), k) =~= into(edges, pending, k).remove(e));
            assert(into(edges, pending, k).contains(e));
        } else {
            assert(into(edges, pending.remove(e), k) =~= into(edges, pending, k));
        }
    }
}

/// One edge of the node visited last is taken away.
proof fn lemma_kahn_edge<N>(
    nodes: &IdTable<NodeEntry<N>>,
    edges: Map<u64, Edge>,
    in_degree: Seq<usize>,
    seen: Seq<u64>,
    visited: int,
    pending: Set<u64>,
    e: u64,
    in_degree2: Seq<usize>,
    seen2: Seq<u64>,
    pending2: Set<u64>,
    done: Seq<u64>,
)
    requires
        nodes.wf(),
        kahn_core(nodes, edges, in_degree, seen, visited, pending),
        visited > 0,
        edges.contains_key(e),
        nodes@.contains_key(edges[e].dst_node.0),
        pending.contains(e),
        pending2 == pending.remove(e),
        in_degree2 == in_degree.update(
            nodes.position_of(edges[e].dst_node.0),
            (in_degree[nodes.position_of(edges[e].dst_node.0)] - 1) as usize,
        ),
        seen2 == (if in_degree2[nodes.position_of(edges[e].dst_node.0)] == 0 {
            seen.push(edges[e].dst_node.0)
        } else {
            seen
        }),
        forall|x: u64| #[trigger]
            pending2.contains(x) <==> edges.contains_key(x) && !seen.take(visited - 1).contains(
                edges[x].src_node.0,
            ) && !done.contains(x),
        forall|x: u64| #[trigger] done.contains(x) ==> edges[x].src_node.0 == seen[visited - 1],
    ensures
        kahn_core(nodes, edges, in_degree2, seen2, visited, pending2),
{
    nodes.lemma_ids();
    lemma_into_remove(edges, pending, e);
    let dst = edges[e].dst_node.0;
    assert(!seen.contains(dst));
    let pushed = in_degree2[nodes.position_of(dst)] == 0;
    assert forall|k: u64| #[trigger] seen2.contains(k) <==> seen.contains(k) || (pushed && k
        == dst) by {
        if seen.contains(k) {
            let i = seen.index_of(k);
            assert(seen2[i] == k);
        }
        if pushed {
            assert(seen2[seen.len() as int] == dst);
        }
    }
    assert forall|k: u64| #[trigger]
        nodes@.contains_key(k) implies in_degree2[nodes.position_of(k)] == into(
        edges,
        pending2,
        k,
    ).len() && (seen2.contains(k) <==> into(edges, pending2, k).len() == 0) by {
        assert(in_degree[nodes.position_of(k)] == into(edges, pending, k).len());
        assert(seen2.contains(k) <==> seen.contains(k) || (pushed && k == dst));
        assert(into(edges, pending2, k).len() == into(edges, pending, k).len() - (if k == dst {
            1int
        } else {
            0
        }));
    }
    assert forall|x: u64, j: int|
        #![trigger edges.contains_key(x), seen2[j]]
        edges.contains_key(x) && 0 <= j < seen2.len() && seen2[j]
            == edges[x].dst_node.0 implies seen2.take(
        if j <= visited {
            j
        } else {
            visited
        },
    ).contains(edges[x].src_node.0) by {
        let src = edges[x].src_node.0;
        let n = if j <= visited {
            j
        } else {
            visited
        };
        assert(seen2.take(n) =~= seen.take(n));
        if j < seen.len() {
            assert(seen[j] == seen2[j]);
        } else {
            assert(n == visited);
            assert(into(edges, pending2, dst).len() == 0);
            assert(!pending2.contains(x)) by {
                if pending2.contains(x) {
                    assert(into(edges, pending2, dst).contains(x));
                    vstd::set::axiom_set_remove_len(into(edges, pending2, dst), x);
                }
            }
            if seen.take(visited - 1).contains(src) {
                let i = seen.take(visited - 1).index_of(src);
                assert(seen.take(visited)[i] == src);
            } else {
                assert(done.contains(x));
                assert(seen.take(visited)[visited - 1] == src);
            }
        }
    }
}

/// Which edges leave and enter a node.
proof fn lemma_adjacency(table: &IdTable<Edge>, k: u64)
    requires
        table.wf(),
    ensures
        outgoing_edges(table@, k).no_duplicates(),
        incoming_edges(table@, k).no_duplicates(),
        forall|e: u64| #[trigger]
            outgoing_edges(table@, k).contains(e) <==> table@.contains_key(e)
                && table@[e].src_node.0 == k,
        forall|e: u64| #[trigger]
            incoming_edges(table@, k).contains(e) <==> table@.contains_key(e)
                && table@[e].dst_node.0 == k,
{
    table.lemma_ids();
    let edges = table@;
    let all = slot_order(edges.dom());
    let out = |e: u64| edges[e].src_node.0 == k;
    let inc = |e: u64| edges[e].dst_node.0 == k;
    assert(all.no_duplicates());
    lemma_filter_no_duplicates(all, out);
    lemma_filter_no_duplicates(all, inc);
    assert forall|e: u64| edges.contains_key(e) <==> all.contains(e) by {
        assert(edges.contains_key(e) <==> all.to_set().contains(e));
    }
}

proof fn lemma_filter_no_duplicates(s: Seq<u64>, p: spec_fn(u64) -> bool)
    requires
        s.no_duplicates(),
    ensures
        s.filter(p).no_duplicates(),
        forall|e: u64| #[trigger] s.filter(p).contains(e) <==> s.contains(e) && p(e),
    decreases s.len(),
{
    reveal(Seq::filter);
    if s.len() > 0 {
        let t = s.drop_last();
        lemma_filter_no_duplicates(t, p);
        t.lemma_filter_push(s.last(), p);
        assert(s =~= t.push(s.last()));
        assert(!t.contains(s.last())) by {
            if t.contains(s.last()) {
                let i = t.index_of(s.last());
                assert(s[i] == s.last());
            }
        }
        assert forall|e: u64| s.contains(e) <==> t.contains(e) || e == s.last() by {
            if s.contains(e) {
                let i = s.index_of(e);
                if i < t.len() {
                    assert(t[i] == e);
                }
            }
            if t.contains(e) {
                let i = t.index_of(e);
                assert(s[i] == e);
            }
            assert(s[s.len() - 1] == s.last());
        }
        let f = t.filter(p);
        assert(s.filter(p) == if p(s.last()) {
            f.push(s.last())
        } else {
            f
        });
        assert forall|e: u64| #[trigger] s.filter(p).contains(e) <==> s.contains(e) && p(e) by {
            assert(f.contains(e) <==> t.contains(e) && p(e));
            assert(s.contains(e) <==> t.contains(e) || e == s.last());
            if f.contains(e) {
                let i = f.index_of(e);
                assert(f.push(s.last())[i] == e);
            }
            assert(f.push(s.last())[f.len() as int] == s.last());
        }
        assert(!f.contains(s.last()));
    }
}

proof fn lemma_filter_keeps_all(s: Seq<u64>, p: spec_fn(u64) -> bool)
    requires
        forall|i: int| 0 <= i < s.len() ==> p(#[trigger] s[i]),
    ensures
        s.filter(p) == s,
    decreases s.len(),
{
    reveal(Seq::filter);
    if s.len() > 0 {
        assert forall|i: int| 0 <= i < s.drop_last().len() implies p(
            #[trigger] s.drop_last()[i],
        ) by {
            assert(s[i] == s.drop_last()[i]);
        }
        lemma_filter_keeps_all(s.drop_last(), p);
        assert(p(s[s.len() - 1]));
        assert(s =~= s.drop_last().push(s.last()));
    } else {
        assert(s.filter(p) =~= s);
    }
}

/// Where the queue ran empty before every node was seen, there is a cycle.
proof fn lemma_not_all_seen<N>(
    nodes: &IdTable<NodeEntry<N>>,
    edges: Map<u64, Edge>,
    in_degree: Seq<usize>,
    seen: Seq<u64>,
    pending: Set<u64>,
    graph_in: u64,
    graph_out: u64,
)
    requires
        nodes.wf(),
        graph_wf(nodes@, edges, graph_in, graph_out),
        kahn(nodes, edges, in_degree, seen, seen.len() as int, pending),
        seen.len() != nodes@.len(),
    ensures
        has_cycle(edges),
{
    nodes.lemma_ids();
    lemma_seen_bounded(nodes, seen);
    assert(seen.take(seen.len() as int) =~= seen);
    let rest = nodes@.dom().difference(seen.to_set());
    assert(exists|k: u64| rest.contains(k)) by {
        if forall|k: u64| !rest.contains(k) {
            assert forall|k: u64| nodes@.dom().contains(k) implies seen.to_set().contains(k) by {
                assert(!rest.contains(k));
            }
            assert(nodes@.dom().subset_of(seen.to_set()));
            seen.unique_seq_to_set();
            vstd::set_lib::lemma_len_subset(nodes@.dom(), seen.to_set());
        }
    }
    let start = choose|k: u64| rest.contains(k);
    assert(closed_backwards(edges, rest)) by {
        assert forall|k: u64| #[trigger] rest.contains(k) implies exists|e: u64| #[trigger]
            edges.contains_key(e) && edges[e].dst_node.0 == k && rest.contains(
                edges[e].src_node.0,
            ) by {
            assert(nodes@.contains_key(k) && !seen.contains(k));
            assert(into(edges, pending, k).len() != 0);
            let e = into(edges, pending, k).choose();
            assert(into(edges, pending, k).contains(e)) by {
                if forall|x: u64| !into(edges, pending, k).contains(x) {
                    assert(into(edges, pending, k) =~= Set::empty());
                }
            }
            assert(pending.contains(e));
            assert(edge_wf(nodes@, edges[e], e));
            assert(edges.contains_key(e));
        }
    }
    lemma_closed_backwards_has_cycle(edges, rest, start);
}

/// A topological order stays one when the graph output node, which no edge
/// leaves, is moved to its end.
proof fn lemma_move_to_end<N>(
    nodes: Map<u64, NodeEntry<N>>,
    edges: Map<u64, Edge>,
    seen: Seq<u64>,
    graph_in: u64,
    graph_out: u64,
)
    requires
        graph_wf(nodes, edges, graph_in, graph_out),
        seen.no_duplicates(),
        seen.to_set() == nodes.dom(),
        topological(edges, seen),
        seen.len() > 0,
        seen[0] == graph_in,
    ensures
        is_schedule_order(
            nodes.dom(),
            edges,
            without(seen, graph_out).push(graph_out),
            graph_in,
            graph_out,
        ),
{
    assert(seen.to_set().contains(graph_out));
    let g = seen.index_of(graph_out);
    let p = differs_from(graph_out);
    let head = seen.take(g);
    let tail = seen.skip(g + 1);
    assert(seen =~= head.push(graph_out) + tail);
    Seq::filter_distributes_over_add(head.push(graph_out), tail, p);
    head.lemma_filter_push(graph_out, p);
    lemma_filter_keeps_all(head, p);
    lemma_filter_keeps_all(tail, p);
    let order = without(seen, graph_out).push(graph_out);
    assert(order =~= (head + tail).push(graph_out));
    let n = seen.len() - 1;
    assert(order.len() == seen.len());
    assert forall|i: int| 0 <= i < n implies #[trigger] order[i] == (if i < g {
        seen[i]
    } else {
        seen[i + 1]
    }) by {}
    assert(order[n] == graph_out);
    assert(order.no_duplicates());
    assert forall|k: u64| order.to_set().contains(k) <==> nodes.dom().contains(k) by {
        if order.contains(k) {
            let i = order.index_of(k);
            if i == n {
            } else if i < g {
                assert(seen.contains(seen[i]));
            } else {
                assert(seen.contains(seen[i + 1]));
            }
            assert(seen.to_set().contains(k));
        }
        if nodes.dom().contains(k) {
            assert(seen.to_set().contains(k));
            let i = seen.index_of(k);
            if i < g {
                assert(order[i] == k);
            } else if i == g {
                assert(order[n] == k);
            } else {
                assert(order[i - 1] == k);
            }
        }
    }
    assert(order.to_set() =~= nodes.dom());
    assert forall|e: u64, j: int|
        #![trigger edges.contains_key(e), order[j]]
        edges.contains_key(e) && 0 <= j < order.len() && order[j]
            == edges[e].dst_node.0 implies order.take(j).contains(edges[e].src_node.0) by {
        let src = edges[e].src_node.0;
        assert(edge_wf(nodes, edges[e], e));
        assert(src != graph_out);
        if j == n {
            assert(nodes.dom().contains(src));
            assert(order.to_set().contains(src));
            let i = order.index_of(src);
            assert(order.take(j)[i] == src);
        } else {
            let j2 = if j < g {
                j
            } else {
                j + 1
            };
            assert(seen[j2] == edges[e].dst_node.0);
            assert(seen.take(j2).contains(src));
            let i = seen.take(j2).index_of(src);
            assert(seen[i] == src);
            let i2 = if i < g {
                i
            } else {
                i - 1
            };
            assert(order[i2] == src);
            assert(order.take(j)[i2] == src);
        }
    }
    assert(order[0] == graph_in);
}

proof fn lemma_seen_bounded<N>(nodes: &IdTable<NodeEntry<N>>, seen: Seq<u64>)
    requires
        nodes.wf(),
        seen.no_duplicates(),
        forall|k: u64| #[trigger] seen.contains(k) ==> nodes@.contains_key(k),
    ensures
        seen.len() <= nodes@.len(),
        seen.len() == nodes@.len() ==> seen.to_set() == nodes@.dom(),
{
    nodes.lemma_ids();
    seen.unique_seq_to_set();
    assert(seen.to_set().subset_of(nodes@.dom()));
    vstd::set_lib::lemma_len_subset(seen.to_set(), nodes@.dom());
    if seen.len() == nodes@.len() {
        vstd::set_lib::lemma_subset_equality(seen.to_set(), nodes@.dom());
    }
}

/// The state while the inputs of node `id` are assigned, before port `p`.
/// `done` are the nodes before it in the schedule, and `held` is what the
/// buffers hold when the node's turn comes.
spec fn input_state(
    edges: Map<u64, Edge>,
    done: Set<u64>,
    held: Map<int, (u64, u32)>,
    id: u64,
    p: int,
    node: ScheduledNode,
    table: Map<u64, usize>,
    to_release: Seq<usize>,
    counts: Seq<usize>,
) -> bool {
    let inputs = node.input_buffers@;
    let sums = node.sum_inputs@;
    let summed = after_sums(held, sums, sums.len() as int);
    &&& node.id.0 == id
    &&& inputs.len() == p
    &&& sums.len() == sums_before(edges, id, p)
    &&& balanced(table, to_release, counts)
    &&& forall|e: u64| #[trigger]
        table.contains_key(e) <==> edges.contains_key(e) && done.contains(edges[e].src_node.0)
            && !done.contains(edges[e].dst_node.0) && !(edges[e].dst_node.0 == id
            && edges[e].dst_port < p)
    &&& forall|e: u64| #[trigger]
        table.contains_key(e) ==> summed.contains_key(table[e] as int) && summed[table[e] as int]
            == signal_of(edges[e])
    &&& forall|q: int| 0 <= q < p ==> #[trigger] input_routed(edges, held, node, q)
    &&& forall|q: int| 0 <= q < p ==> to_release.contains((#[trigger] inputs[q]).buffer_index)
    &&& forall|q: int, e: u64|
        0 <= q < p && #[trigger] table.contains_key(e) && in_port_edges(edges, id, q as u32).len()
            != 1 ==> table[e] != (#[trigger] inputs[q]).buffer_index
    &&& forall|q: int|
        0 <= q < p ==> #[trigger] node.in_connected_mask.connected(q) == (in_port_edges(
            edges,
            id,
            q as u32,
        ).len() > 0)
}

/// Assigning one more input leaves the earlier ones as they are.
proof fn lemma_keep_routed(
    edges: Map<u64, Edge>,
    held: Map<int, (u64, u32)>,
    node: ScheduledNode,
    node2: ScheduledNode,
    q: int,
)
    requires
        0 <= q < node.input_buffers@.len(),
        input_routed(edges, held, node, q),
        node2.id == node.id,
        node2.input_buffers@.len() == node.input_buffers@.len() + 1,
        node2.input_buffers@.drop_last() == node.input_buffers@,
        in_port_edges(edges, node.id.0, q as u32).len() != 1
            ==> node2.input_buffers@.last().buffer_index != node.input_buffers@[q].buffer_index,
        node.sum_inputs@.len() == sums_before(
            edges,
            node.id.0,
            node.input_buffers@.len() as int,
        ),
        node2.sum_inputs@ == node.sum_inputs@ || (node2.sum_inputs@.len()
            == node.sum_inputs@.len() + 1 && node2.sum_inputs@.drop_last() == node.sum_inputs@
            && node2.sum_inputs@.last().output_buffer.buffer_index
            != node.input_buffers@[q].buffer_index),
    ensures
        input_routed(edges, held, node2, q),
{
    let id = node.id.0;
    let sums = node.sum_inputs@;
    let sums2 = node2.sum_inputs@;
    let b = node.input_buffers@[q].buffer_index;
    assert(node2.input_buffers@[q] == node2.input_buffers@.drop_last()[q]);
    assert forall|i: int| 0 <= i < sums.len() implies sums[i] == sums2[i] by {
        if sums2 != sums {
            assert(sums2.drop_last()[i] == sums2[i]);
        }
    }
    lemma_sums_before_monotonic(edges, id, q, node.input_buffers@.len() as int);
    lemma_sums_before_bounds(edges, id, q);
    let s = sums_before(edges, id, q);
    lemma_after_sums_prefix(held, sums, sums2, sums.len() as int);
    lemma_after_sums_prefix(held, sums, sums2, s);
    if in_port_edges(edges, id, q as u32).len() != 1 {
        assert forall|r: int|
            0 <= r < node2.input_buffers@.len() && r != q implies (
        #[trigger] node2.input_buffers@[r]).buffer_index != node2.input_buffers@[q].buffer_index by {
            if r < node.input_buffers@.len() {
                assert(node2.input_buffers@.drop_last()[r] == node2.input_buffers@[r]);
            }
        }
    }
    if in_port_edges(edges, id, q as u32).len() >= 2 {
        assert forall|t: int| s < t < sums2.len() implies (
        #[trigger] sums2[t]).output_buffer.buffer_index != b by {
            if t < sums.len() {
                assert(sums[t] == sums2[t]);
            }
        }
    }
}

/// The edges of a port, and that they lead to it.
proof fn lemma_in_port_edges(table: &IdTable<Edge>, k: u64, port: u32)
    requires
        table.wf(),
    ensures
        in_port_edges(table@, k, port).no_duplicates(),
        forall|e: u64| #[trigger]
            in_port_edges(table@, k, port).contains(e) <==> table@.contains_key(e)
                && table@[e].dst_node.0 == k && table@[e].dst_port == port,
{
    lemma_adjacency(table, k);
    lemma_filter_no_duplicates(
        incoming_edges(table@, k),
        |e: u64| table@[e].dst_port == port,
    );
}

/// The edges of a port, and that they leave it.
proof fn lemma_out_port_edges(table: &IdTable<Edge>, k: u64, port: u32)
    requires
        table.wf(),
    ensures
        out_port_edges(table@, k, port).no_duplicates(),
        forall|e: u64| #[trigger]
            out_port_edges(table@, k, port).contains(e) <==> table@.contains_key(e)
                && table@[e].src_node.0 == k && table@[e].src_port == port,
{
    lemma_adjacency(table, k);
    lemma_filter_no_duplicates(
        outgoing_edges(table@, k),
        |e: u64| table@[e].src_port == port,
    );
}

/// References after a buffer that was not in use is acquired to be released
/// later.
proof fn lemma_balanced_acquire(
    table: Map<u64, usize>,
    to_release: Seq<usize>,
    counts: Seq<usize>,
    counts2: Seq<usize>,
    b: usize,
)
    requires
        balanced(table, to_release, counts),
        b < counts.len() ==> counts[b as int] == 0 && counts2 == counts.update(b as int, 1),
        b >= counts.len() ==> b == counts.len() && counts2 == counts.push(1),
    ensures
        balanced(table, to_release.push(b), counts2),
        counts2.len() >= counts.len(),
        b < counts2.len(),
{
    lemma_not_in_use(table, to_release, counts, b);
    vstd::seq_lib::to_multiset_build(to_release, b);
    let r2 = to_release.push(b);
    assert forall|i: int| 0 <= i < r2.len() implies (#[trigger] r2[i]) < counts2.len() by {
        if i < to_release.len() {
            assert(to_release[i] < counts.len());
        }
    }
    assert forall|x: usize| x < counts2.len() implies #[trigger] counts2[x as int] == uses(table, x)
        + r2.to_multiset().count(x) by {
        if x != b {
            assert(counts[x as int] == uses(table, x) + to_release.to_multiset().count(x));
        }
    }
}

/// One more input was assigned: the first one of an empty list of edges to a
/// buffer that was not in use, a single edge to its own buffer, or several edges
/// to a sum in a buffer that was not in use.
#[verifier::spinoff_prover]
#[verifier::rlimit(60)]
proof fn lemma_input_added(
    edge_table: &IdTable<Edge>,
    done: Set<u64>,
    held: Map<int, (u64, u32)>,
    id: u64,
    p: int,
    node: ScheduledNode,
    table: Map<u64, usize>,
    to_release: Seq<usize>,
    counts: Seq<usize>,
    node2: ScheduledNode,
    table2: Map<u64, usize>,
    to_release2: Seq<usize>,
    counts2: Seq<usize>,
)
    requires
        edge_table.wf(),
        0 <= p < 64,
        !done.contains(id),
        input_state(edge_table@, done, held, id, p, node, table, to_release, counts),
        node2.id == node.id,
        node2.input_buffers@.len() == p + 1,
        node2.input_buffers@.drop_last() == node.input_buffers@,
        balanced(table2, to_release2, counts2),
        to_release2 == to_release.push(node2.input_buffers@[p].buffer_index),
        forall|e: u64| #[trigger]
            table2.contains_key(e) <==> table.contains_key(e) && !in_port_edges(
                edge_table@,
                id,
                p as u32,
            ).contains(e),
        forall|e: u64| #[trigger] table2.contains_key(e) ==> table2[e] == table[e],
        forall|j: int|
            0 <= j < 64 ==> #[trigger] node2.in_connected_mask.connected(j) == (if j == p {
                in_port_edges(edge_table@, id, p as u32).len() != 0
            } else {
                node.in_connected_mask.connected(j)
            }),
        ({
            let list = in_port_edges(edge_table@, id, p as u32);
            let input = node2.input_buffers@[p];
            let sums = node.sum_inputs@;
            let sums2 = node2.sum_inputs@;
            &&& list.len() != 1 ==> !to_release.contains(input.buffer_index) && forall|e: u64|
                #[trigger]
                table.contains_key(e) ==> table[e] != input.buffer_index
            &&& list.len() == 0 ==> input.should_clear && sums2 == sums
            &&& list.len() == 1 ==> !input.should_clear && sums2 == sums && table.contains_key(
                list[0],
            ) && input.buffer_index == table[list[0]]
            &&& list.len() >= 2 ==> {
                &&& !input.should_clear
                &&& sums2.len() == sums.len() + 1
                &&& sums2.drop_last() == sums
                &&& sums2.last().output_buffer.buffer_index == input.buffer_index
                &&& sums2.last().input_buffers@.len() == list.len()
                &&& forall|j: int|
                    0 <= j < list.len() ==> table.contains_key(#[trigger] list[j])
                        && sums2.last().input_buffers@[j] == table[list[j]] as u64
            }
        }),
    ensures
        input_state(edge_table@, done, held, id, p + 1, node2, table2, to_release2, counts2),
{
    let edges = edge_table@;
    let list = in_port_edges(edges, id, p as u32);
    let inputs = node.input_buffers@;
    let inputs2 = node2.input_buffers@;
    let sums = node.sum_inputs@;
    let sums2 = node2.sum_inputs@;
    let input = inputs2[p];
    let summed = after_sums(held, sums, sums.len() as int);
    let summed2 = after_sums(held, sums2, sums2.len() as int);
    lemma_in_port_edges(edge_table, id, p as u32);
    lemma_sums_before_bounds(edges, id, p);
    assert forall|i: int| 0 <= i < sums.len() implies sums[i] == sums2[i] by {
        if list.len() >= 2 {
            assert(sums2.drop_last()[i] == sums2[i]);
        }
    }
    lemma_after_sums_prefix(held, sums, sums2, sums.len() as int);
    assert forall|q: int| 0 <= q < p implies inputs2[q] == inputs[q] by {
        assert(inputs2.drop_last()[q] == inputs2[q]);
    }
    assert(inputs2.last() == input);
    // Earlier inputs.
    assert forall|q: int| 0 <= q < p implies #[trigger] input_routed(edges, held, node2, q) by {
        assert(input_routed(edges, held, node, q));
        assert(to_release.contains(inputs[q].buffer_index));
        if in_port_edges(edges, id, q as u32).len() != 1 {
            if list.len() == 1 {
                assert(table.contains_key(list[0]));
                assert(table[list[0]] != inputs[q].buffer_index);
            }
        }
        lemma_keep_routed(edges, held, node, node2, q);
    }
    // The new input.
    assert(input_routed(edges, held, node2, p)) by {
        if list.len() != 1 {
            assert forall|q: int| 0 <= q < inputs2.len() && q != p implies (
            #[trigger] inputs2[q]).buffer_index != inputs2[p].buffer_index by {
                assert(to_release.contains(inputs[q].buffer_index));
            }
            assert(exclusive_input(node2, p));
        }
        if list.len() >= 2 {
            assert(sums2[sums.len() as int] == sums2.last());
            assert forall|i: int| 0 <= i < list.len() implies summed.contains_key(
                (#[trigger] sums2.last().input_buffers@[i]) as int,
            ) && summed[sums2.last().input_buffers@[i] as int] == signal_of(edges[list[i]]) by {
                assert(table.contains_key(list[i]));
            }
            assert(sum_routed(edges, summed, sums2.last(), list, input.buffer_index));
        }
    }
    assert forall|q: int| 0 <= q < p + 1 implies to_release2.contains(
        (#[trigger] inputs2[q]).buffer_index,
    ) by {
        if q < p {
            assert(to_release.contains(inputs[q].buffer_index));
            let i = to_release.index_of(inputs[q].buffer_index);
            assert(to_release2[i] == inputs2[q].buffer_index);
        } else {
            assert(to_release2[to_release.len() as int] == inputs2[q].buffer_index);
        }
    }
    // The table.
    assert forall|e: u64| #[trigger] table2.contains_key(e) <==> edges.contains_key(e)
        && done.contains(edges[e].src_node.0) && !done.contains(edges[e].dst_node.0) && !(
    edges[e].dst_node.0 == id && edges[e].dst_port < p + 1) by {
        assert(table2.contains_key(e) <==> table.contains_key(e) && !list.contains(e));
        assert(list.contains(e) <==> edges.contains_key(e) && edges[e].dst_node.0 == id
            && edges[e].dst_port == p as u32);
    }
    assert forall|e: u64| #[trigger] table2.contains_key(e) implies summed2.contains_key(
        table2[e] as int,
    ) && summed2[table2[e] as int] == signal_of(edges[e]) by {
        assert(table.contains_key(e));
        if list.len() >= 2 {
            assert(summed2 == summed.remove(input.buffer_index as int)) by {
                assert(sums2[sums2.len() - 1] == sums2.last());
            }
        }
    }
    assert forall|q: int, e: u64|
        0 <= q < p + 1 && #[trigger] table2.contains_key(e) && in_port_edges(
            edges,
            id,
            q as u32,
        ).len() != 1 implies table2[e] != (#[trigger] inputs2[q]).buffer_index by {
        assert(table.contains_key(e));
        if q < p {
            assert(table[e] != inputs[q].buffer_index);
        }
    }
    assert forall|q: int| 0 <= q < p + 1 implies #[trigger] node2.in_connected_mask.connected(q)
        == (in_port_edges(edges, id, q as u32).len() > 0) by {
        if q < p {
            assert(node.in_connected_mask.connected(q) == (in_port_edges(
                edges,
                id,
                q as u32,
            ).len() > 0));
        }
    }
}

/// The state while the outputs of node `id` are assigned, before port `p`.
spec fn output_state(
    edges: Map<u64, Edge>,
    done: Set<u64>,
    held: Map<int, (u64, u32)>,
    id: u64,
    p: int,
    node: ScheduledNode,
    table: Map<u64, usize>,
    to_release: Seq<usize>,
    counts: Seq<usize>,
) -> bool {
    let inputs = node.input_buffers@;
    let outputs = node.output_buffers@;
    let summed = after_sums(held, node.sum_inputs@, node.sum_inputs@.len() as int);
    &&& node.id.0 == id
    &&& outputs.len() == p
    &&& balanced(table, to_release, counts)
    &&& forall|e: u64| #[trigger]
        table.contains_key(e) <==> edges.contains_key(e) && ((done.contains(edges[e].src_node.0)
            && !done.contains(edges[e].dst_node.0) && edges[e].dst_node.0 != id) || (
        edges[e].src_node.0 == id && edges[e].src_port < p))
    &&& forall|e: u64| #[trigger]
        table.contains_key(e) && edges[e].src_node.0 != id ==> summed.contains_key(table[e] as int)
            && summed[table[e] as int] == signal_of(edges[e])
    &&& forall|e: u64| #[trigger]
        table.contains_key(e) && edges[e].src_node.0 == id ==> table[e]
            == outputs[edges[e].src_port as int].buffer_index
    &&& forall|q: int|
        0 <= q < p ==> (#[trigger] outputs[q]).buffer_index < counts.len()
            && counts[outputs[q].buffer_index as int] > 0
    &&& forall|q: int, r: int|
        0 <= q < p && 0 <= r < p && q != r ==> (#[trigger] outputs[q]).buffer_index != (
        #[trigger] outputs[r]).buffer_index
    &&& forall|q: int, r: int|
        0 <= q < p && 0 <= r < inputs.len() ==> (#[trigger] outputs[q]).buffer_index != (
        #[trigger] inputs[r]).buffer_index
    &&& forall|q: int, e: u64|
        0 <= q < p && #[trigger] table.contains_key(e) && edges[e].src_node.0 != id ==> table[e]
            != (#[trigger] outputs[q]).buffer_index
    &&& forall|q: int, e: u64|
        0 <= q < inputs.len() && #[trigger] table.contains_key(e) && (
        #[trigger] inputs[q]).should_clear ==> table[e] != inputs[q].buffer_index
    &&& forall|q: int|
        0 <= q < inputs.len() ==> to_release.contains((#[trigger] inputs[q]).buffer_index)
    &&& forall|q: int|
        0 <= q < p ==> #[trigger] node.out_connected_mask.connected(q) == (out_port_edges(
            edges,
            id,
            q as u32,
        ).len() > 0)
}

/// One more output was assigned to a buffer that was not in use.
#[verifier::spinoff_prover]
#[verifier::rlimit(60)]
proof fn lemma_output_added(
    edge_table: &IdTable<Edge>,
    done: Set<u64>,
    held: Map<int, (u64, u32)>,
    id: u64,
    p: int,
    node: ScheduledNode,
    table: Map<u64, usize>,
    to_release: Seq<usize>,
    counts: Seq<usize>,
    node2: ScheduledNode,
    table2: Map<u64, usize>,
    to_release2: Seq<usize>,
    counts2: Seq<usize>,
)
    requires
        edge_table.wf(),
        0 <= p < 64,
        !done.contains(id),
        output_state(edge_table@, done, held, id, p, node, table, to_release, counts),
        node2.id == node.id,
        node2.input_buffers == node.input_buffers,
        node2.sum_inputs == node.sum_inputs,
        node2.output_buffers@.len() == p + 1,
        node2.output_buffers@.drop_last() == node.output_buffers@,
        balanced(table2, to_release2, counts2),
        forall|q: int|
            0 <= q < node.input_buffers@.len() ==> to_release2.contains(
                (#[trigger] node.input_buffers@[q]).buffer_index,
            ),
        counts2.len() >= counts.len(),
        forall|b: int| 0 <= b < counts.len() ==> #[trigger] counts2[b] >= counts[b],
        node2.output_buffers@[p].buffer_index < counts2.len(),
        counts2[node2.output_buffers@[p].buffer_index as int] > 0,
        node2.output_buffers@[p].buffer_index < counts.len()
            ==> counts[node2.output_buffers@[p].buffer_index as int] == 0,
        forall|e: u64| #[trigger]
            table2.contains_key(e) <==> table.contains_key(e) || out_port_edges(
                edge_table@,
                id,
                p as u32,
            ).contains(e),
        forall|e: u64| #[trigger]
            table2.contains_key(e) ==> table2[e] == (if table.contains_key(e) {
                table[e]
            } else {
                node2.output_buffers@[p].buffer_index
            }),
        forall|j: int|
            0 <= j < 64 ==> #[trigger] node2.out_connected_mask.connected(j) == (if j == p {
                out_port_edges(edge_table@, id, p as u32).len() != 0
            } else {
                node.out_connected_mask.connected(j)
            }),
    ensures
        output_state(edge_table@, done, held, id, p + 1, node2, table2, to_release2, counts2),
{
    let edges = edge_table@;
    let list = out_port_edges(edges, id, p as u32);
    let inputs = node.input_buffers@;
    let outputs = node.output_buffers@;
    let outputs2 = node2.output_buffers@;
    let new = outputs2[p].buffer_index;
    lemma_out_port_edges(edge_table, id, p as u32);
    lemma_not_in_use(table, to_release, counts, new);
    assert forall|q: int| 0 <= q < p implies outputs2[q] == outputs[q] by {
        assert(outputs2.drop_last()[q] == outputs2[q]);
    }
    assert forall|e: u64| #[trigger] table2.contains_key(e) <==> edges.contains_key(e) && ((
    done.contains(edges[e].src_node.0) && !done.contains(edges[e].dst_node.0)
        && edges[e].dst_node.0 != id) || (edges[e].src_node.0 == id && edges[e].src_port < p
        + 1)) by {
        assert(table2.contains_key(e) <==> table.contains_key(e) || list.contains(e));
        assert(list.contains(e) <==> edges.contains_key(e) && edges[e].src_node.0 == id
            && edges[e].src_port == p as u32);
    }
    assert forall|e: u64| #[trigger] table2.contains_key(e) && edges[e].src_node.0
        == id implies table2[e] == outputs2[edges[e].src_port as int].buffer_index by {
        if table.contains_key(e) {
            assert(table[e] == outputs[edges[e].src_port as int].buffer_index);
        } else {
            assert(list.contains(e));
        }
    }
    assert forall|e: u64| #[trigger] table2.contains_key(e) && edges[e].src_node.0
        != id implies table.contains_key(e) by {
        if !table.contains_key(e) {
            assert(list.contains(e));
        }
    }
    assert forall|q: int| 0 <= q < p + 1 implies (#[trigger] outputs2[q]).buffer_index
        < counts2.len() && counts2[outputs2[q].buffer_index as int] > 0 by {
        if q < p {
            assert(counts[outputs[q].buffer_index as int] > 0);
            assert(counts2[outputs[q].buffer_index as int] >= counts[outputs[q].buffer_index as int]);
        }
    }
    assert forall|q: int, r: int| 0 <= q < p + 1 && 0 <= r < p + 1 && q != r implies (
    #[trigger] outputs2[q]).buffer_index != (#[trigger] outputs2[r]).buffer_index by {
        if q < p {
            assert(counts[outputs[q].buffer_index as int] > 0);
        }
        if r < p {
            assert(counts[outputs[r].buffer_index as int] > 0);
        }
    }
    assert forall|q: int, r: int| 0 <= q < p + 1 && 0 <= r < inputs.len() implies (
    #[trigger] outputs2[q]).buffer_index != (#[trigger] inputs[r]).buffer_index by {
        assert(to_release.contains(inputs[r].buffer_index));
    }
    assert forall|q: int, e: u64|
        0 <= q < p + 1 && #[trigger] table2.contains_key(e) && edges[e].src_node.0
            != id implies table2[e] != (#[trigger] outputs2[q]).buffer_index by {
        assert(table.contains_key(e));
        if q < p {
            assert(table[e] != outputs[q].buffer_index);
        }
    }
    assert forall|q: int, e: u64|
        0 <= q < inputs.len() && #[trigger] table2.contains_key(e) && (
        #[trigger] inputs[q]).should_clear implies table2[e] != inputs[q].buffer_index by {
        if table.contains_key(e) {
            assert(table[e] != inputs[q].buffer_index);
        } else {
            assert(to_release.contains(inputs[q].buffer_index));
        }
    }
    assert forall|q: int| 0 <= q < p + 1 implies #[trigger] node2.out_connected_mask.connected(q)
        == (out_port_edges(edges, id, q as u32).len() > 0) by {
        if q < p {
            assert(node.out_connected_mask.connected(q) == (out_port_edges(
                edges,
                id,
                q as u32,
            ).len() > 0));
        }
    }
}

/// The state between two nodes: the table holds the edges that leave a node
/// that was processed and lead to one that was not, and the buffer of each holds
/// its signal.
spec fn flow_state(
    edges: Map<u64, Edge>,
    done: Set<u64>,
    held: Map<int, (u64, u32)>,
    table: Map<u64, usize>,
    counts: Seq<usize>,
) -> bool {
    &&& balanced(table, Seq::empty(), counts)
    &&& forall|e: u64| #[trigger]
        table.contains_key(e) <==> edges.contains_key(e) && done.contains(edges[e].src_node.0)
            && !done.contains(edges[e].dst_node.0)
    &&& forall|e: u64| #[trigger]
        table.contains_key(e) ==> held.contains_key(table[e] as int) && held[table[e] as int]
            == signal_of(edges[e])
}

/// Whether every node of a schedule is routed.
pub open spec fn schedule_routed<N>(
    nodes: Map<u64, NodeEntry<N>>,
    edges: Map<u64, Edge>,
    schedule: Seq<ScheduledNode>,
    num_buffers: int,
) -> bool {
    forall|i: int|
        0 <= i < schedule.len() ==> #[trigger] node_routed(
            nodes,
            edges,
            held_before(schedule, i),
            schedule[i],
            num_buffers,
        )
}

/// The debug name of a node in a schedule.
pub open spec fn scheduled_name<N>(
    nodes: Map<u64, NodeEntry<N>>,
    graph_out: u64,
    id: u64,
) -> Seq<char> {
    if id == graph_out {
        "graph_out"@
    } else {
        nodes[id].info.debug_name@
    }
}

/// Whether every node of a schedule has its debug name.
pub open spec fn schedule_named<N>(
    nodes: Map<u64, NodeEntry<N>>,
    graph_out: u64,
    schedule: Seq<ScheduledNode>,
) -> bool {
    forall|i: int|
        0 <= i < schedule.len() ==> (#[trigger] schedule[i]).debug_name@ == scheduled_name(
            nodes,
            graph_out,
            schedule[i].id.0,
        )
}

/// A node stays routed if there are more buffers.
proof fn lemma_routed_with_more<N>(
    nodes: Map<u64, NodeEntry<N>>,
    edges: Map<u64, Edge>,
    held: Map<int, (u64, u32)>,
    node: ScheduledNode,
    num_buffers: int,
    more: int,
)
    requires
        node_routed(nodes, edges, held, node, num_buffers),
        num_buffers <= more,
    ensures
        node_routed(nodes, edges, held, node, more),
{
}

/// The buffers that are in use at a node are so in a longer schedule, too.
proof fn lemma_in_use_prefix(
    edges: Map<u64, Edge>,
    before: Seq<ScheduledNode>,
    after: Seq<ScheduledNode>,
    n: int,
    b: int,
)
    requires
        0 <= n < before.len() <= after.len(),
        forall|j: int| 0 <= j < before.len() ==> #[trigger] after[j] == before[j],
        in_use(edges, before, n, b),
    ensures
        in_use(edges, after, n, b),
{
    lemma_held_before_prefix(before, after, n);
    if to_be_read(edges, before, n, b) {
        let e = choose|e: u64| #[trigger]
            edges.contains_key(e) && signal_of(edges[e]) == held_before(before, n)[b] && !(exists|
                j: int,
            |
                0 <= j < n && (#[trigger] before[j]).id == edges[e].dst_node);
        assert(edges.contains_key(e));
        if exists|j: int| 0 <= j < n && (#[trigger] after[j]).id == edges[e].dst_node {
            let j = choose|j: int| 0 <= j < n && (#[trigger] after[j]).id == edges[e].dst_node;
            assert(before[j].id == edges[e].dst_node);
        }
    }
}

/// Once one more node has its buffers, all buffers are still needed.
proof fn lemma_all_needed(
    edges: Map<u64, Edge>,
    before: Seq<ScheduledNode>,
    node: ScheduledNode,
    table: Map<u64, usize>,
    num_before: int,
    num: int,
)
    requires
        all_needed(edges, before, num_before),
        num_before <= num,
        grown_if_needed(table, node, num_before, num),
        forall|e: u64| #[trigger]
            table.contains_key(e) ==> edges.contains_key(e) && !(exists|j: int|
                0 <= j < before.len() && (#[trigger] before[j]).id == edges[e].dst_node),
        forall|e: u64| #[trigger]
            table.contains_key(e) ==> held_before(before, before.len() as int).contains_key(
                table[e] as int,
            ) && held_before(before, before.len() as int)[table[e] as int] == signal_of(edges[e]),
    ensures
        all_needed(edges, before.push(node), num),
{
    let after = before.push(node);
    let n = before.len() as int;
    if num > num_before {
        lemma_held_before_prefix(before, after, n);
        assert forall|b: int| 0 <= b < num implies #[trigger] in_use(edges, after, n, b) by {
            assert(covered(table, node, b));
            if !is_buffer_of(node, b) {
                let e = choose|e: u64| #[trigger] table.contains_key(e) && table[e] == b;
                assert(edges.contains_key(e));
                if exists|j: int| 0 <= j < n && (#[trigger] after[j]).id == edges[e].dst_node {
                    let j = choose|j: int|
                        0 <= j < n && (#[trigger] after[j]).id == edges[e].dst_node;
                    assert(before[j].id == edges[e].dst_node);
                }
                assert(to_be_read(edges, after, n, b));
            }
        }
        assert(all_in_use(edges, after, n, num));
    } else if num > 0 {
        let m = choose|m: int| #[trigger] all_in_use(edges, before, m, num_before);
        assert forall|b: int| 0 <= b < num implies #[trigger] in_use(edges, after, m, b) by {
            assert(in_use(edges, before, m, b));
            lemma_in_use_prefix(edges, before, after, m, b);
        }
        assert(all_in_use(edges, after, m, num));
    }
}

/// An input port that was added last has a buffer.
proof fn lemma_input_port_assigned(
    node0: ScheduledNode,
    table0: Map<u64, usize>,
    to_release0: Seq<usize>,
    counts0: Seq<usize>,
    node: ScheduledNode,
    table: Map<u64, usize>,
    to_release: Seq<usize>,
    counts: Seq<usize>,
)
    requires
        node.output_buffers == node0.output_buffers,
        node.input_buffers@.len() == node0.input_buffers@.len() + 1,
        node.input_buffers@.drop_last() == node0.input_buffers@,
        to_release == to_release0.push(node.input_buffers@.last().buffer_index),
        forall|e: u64| #[trigger]
            table.contains_key(e) ==> table0.contains_key(e) && table0[e] == table[e],
        counts.len() == counts0.len() || (counts.len() == counts0.len() + 1
            && node.input_buffers@.last().buffer_index == counts0.len() && forall|b: int|
            0 <= b < counts0.len() ==> #[trigger] counts0[b] > 0),
    ensures
        port_assigned(node0, table0, to_release0, counts0, node, table, to_release, counts),
{
    let last = node.input_buffers@.len() - 1;
    assert(is_buffer_of(node, node.input_buffers@[last].buffer_index as int));
    assert forall|b: int| #[trigger] is_buffer_of(node0, b) implies is_buffer_of(node, b) by {
        if is_output(node0, b) {
            assert(is_output(node, b));
        } else {
            let p = choose|p: int|
                0 <= p < node0.input_buffers@.len() && (
                #[trigger] node0.input_buffers@[p]).buffer_index == b;
            assert(node.input_buffers@.drop_last()[p] == node0.input_buffers@[p]);
            assert(node.input_buffers@[p].buffer_index == b);
        }
    }
    assert forall|i: int| 0 <= i < to_release.len() implies to_release0.contains(
        #[trigger] to_release[i],
    ) || is_buffer_of(node, to_release[i] as int) by {
        if i < to_release0.len() {
            assert(to_release0[i] == to_release[i]);
        }
    }
}

/// An output port that was added last has a buffer.
proof fn lemma_output_port_assigned(
    node0: ScheduledNode,
    table0: Map<u64, usize>,
    to_release0: Seq<usize>,
    counts0: Seq<usize>,
    node: ScheduledNode,
    table: Map<u64, usize>,
    to_release: Seq<usize>,
    counts: Seq<usize>,
)
    requires
        node.input_buffers == node0.input_buffers,
        node.output_buffers@.len() == node0.output_buffers@.len() + 1,
        node.output_buffers@.drop_last() == node0.output_buffers@,
        to_release == to_release0 || to_release == to_release0.push(
            node.output_buffers@.last().buffer_index,
        ),
        forall|e: u64| #[trigger]
            table.contains_key(e) ==> (table0.contains_key(e) && table0[e] == table[e]) || table[e]
                == node.output_buffers@.last().buffer_index,
        counts.len() == counts0.len() || (counts.len() == counts0.len() + 1
            && node.output_buffers@.last().buffer_index == counts0.len() && forall|b: int|
            0 <= b < counts0.len() ==> #[trigger] counts0[b] > 0),
    ensures
        port_assigned(node0, table0, to_release0, counts0, node, table, to_release, counts),
{
    let last = node.output_buffers@.len() - 1;
    assert(is_output(node, node.output_buffers@[last].buffer_index as int));
    assert forall|b: int| #[trigger] is_buffer_of(node0, b) implies is_buffer_of(node, b) by {
        if is_output(node0, b) {
            let p = choose|p: int|
                0 <= p < node0.output_buffers@.len() && (
                #[trigger] node0.output_buffers@[p]).buffer_index == b;
            assert(node.output_buffers@.drop_last()[p] == node0.output_buffers@[p]);
            assert(node.output_buffers@[p].buffer_index == b);
        }
    }
    assert forall|i: int| 0 <= i < to_release.len() implies to_release0.contains(
        #[trigger] to_release[i],
    ) || is_buffer_of(node, to_release[i] as int) by {
        if i < to_release0.len() {
            assert(to_release0[i] == to_release[i]);
        }
    }
}

/// The assignments of a node are complete.
proof fn lemma_node_routed<N>(
    nodes: Map<u64, NodeEntry<N>>,
    edges: Map<u64, Edge>,
    done: Set<u64>,
    held: Map<int, (u64, u32)>,
    id: u64,
    node1: ScheduledNode,
    node: ScheduledNode,
    table: Map<u64, usize>,
    to_release: Seq<usize>,
    counts: Seq<usize>,
)
    requires
        nodes.contains_key(id),
        !done.contains(id),
        forall|e: u64| #[trigger] edges.contains_key(e) ==> edge_wf(nodes, edges[e], e),
        forall|e: u64| #[trigger]
            edges.contains_key(e) && edges[e].src_node.0 == id ==> edges[e].dst_node.0 != id
                && !done.contains(edges[e].dst_node.0),
        output_state(
            edges,
            done,
            held,
            id,
            nodes[id].info.channel_config.outputs() as int,
            node,
            table,
            to_release,
            counts,
        ),
        node1.id == node.id,
        node1.input_buffers@ == node.input_buffers@,
        node1.sum_inputs@ == node.sum_inputs@,
        node1.in_connected_mask == node.in_connected_mask,
        node.input_buffers@.len() == nodes[id].info.channel_config.inputs(),
        node.sum_inputs@.len() == sums_before(edges, id, node.input_buffers@.len() as int),
        forall|q: int|
            0 <= q < node.input_buffers@.len() ==> #[trigger] input_routed(edges, held, node1, q),
        forall|q: int|
            0 <= q < node.input_buffers@.len() ==> #[trigger] node1.in_connected_mask.connected(q)
                == (in_port_edges(edges, id, q as u32).len() > 0),
    ensures
        node_routed(nodes, edges, held, node, counts.len() as int),
        forall|e: u64| #[trigger]
            table.contains_key(e) <==> edges.contains_key(e) && done.insert(id).contains(
                edges[e].src_node.0,
            ) && !done.insert(id).contains(edges[e].dst_node.0),
        forall|e: u64| #[trigger]
            table.contains_key(e) ==> after_node(held, node).contains_key(table[e] as int)
                && after_node(held, node)[table[e] as int] == signal_of(edges[e]),
{
    let inputs = node.input_buffers@;
    let outputs = node.output_buffers@;
    assert forall|q: int| 0 <= q < inputs.len() implies input_routed(edges, held, node, q) && (
    #[trigger] inputs[q]).buffer_index < counts.len() && node.in_connected_mask.connected(q) == (
    in_port_edges(edges, id, q as u32).len() > 0) by {
        assert(input_routed(edges, held, node1, q));
        if in_port_edges(edges, id, q as u32).len() != 1 {
            assert(exclusive_input(node1, q));
            assert(exclusive_input(node, q)) by {
                assert forall|r: int|
                    0 <= r < node.input_buffers@.len() && r != q implies (
                #[trigger] node.input_buffers@[r]).buffer_index
                    != node.input_buffers@[q].buffer_index by {
                    assert(node1.input_buffers@[r].buffer_index
                        != node1.input_buffers@[q].buffer_index);
                }
            }
        }
        assert(input_routed(edges, held, node, q));
        assert(to_release.contains(inputs[q].buffer_index));
        let i = to_release.index_of(inputs[q].buffer_index);
        assert(to_release[i] < counts.len());
        assert(node1.in_connected_mask.connected(q) == (in_port_edges(edges, id, q as u32).len()
            > 0));
    }
    assert forall|q: int| 0 <= q < outputs.len() implies (#[trigger] outputs[q]).buffer_index
        < counts.len() && node.out_connected_mask.connected(q) == (out_port_edges(
        edges,
        id,
        q as u32,
    ).len() > 0) by {}
    assert forall|e: u64| #[trigger] table.contains_key(e) implies after_node(
        held,
        node,
    ).contains_key(table[e] as int) && after_node(held, node)[table[e] as int] == signal_of(
        edges[e],
    ) by {
        let b = table[e] as int;
        if edges[e].src_node.0 == id {
            let p = edges[e].src_port as int;
            assert(edge_wf(nodes, edges[e], e));
            assert(outputs[p].buffer_index == b);
            assert(is_output(node, b));
            let r = choose|r: int|
                0 <= r < outputs.len() && (#[trigger] outputs[r]).buffer_index == b;
            assert(r == p);
            assert(output_port(node, b) == p as u32);
        } else {
            assert(!is_output(node, b)) by {
                if is_output(node, b) {
                    let r = choose|r: int|
                        0 <= r < outputs.len() && (#[trigger] outputs[r]).buffer_index == b;
                    assert(table[e] != outputs[r].buffer_index);
                }
            }
            assert(!is_cleared(node, b)) by {
                if is_cleared(node, b) {
                    let r = choose|r: int|
                        0 <= r < inputs.len() && (#[trigger] inputs[r]).buffer_index == b
                            && inputs[r].should_clear;
                    assert(table[e] != inputs[r].buffer_index);
                }
            }
        }
    }
    assert forall|e: u64| #[trigger] table.contains_key(e) <==> edges.contains_key(e)
        && done.insert(id).contains(edges[e].src_node.0) && !done.insert(id).contains(
        edges[e].dst_node.0,
    ) by {
        if edges.contains_key(e) {
            assert(edge_wf(nodes, edges[e], e));
        }
    }
}

/// In a schedule order, the nodes that lead to a node come before it, and those
/// that it leads to come after it.
proof fn lemma_next_in_order(
    nodes: Set<u64>,
    edges: Map<u64, Edge>,
    order: Seq<u64>,
    graph_in: u64,
    graph_out: u64,
    i: int,
)
    requires
        is_schedule_order(nodes, edges, order, graph_in, graph_out),
        0 <= i < order.len(),
        forall|e: u64| #[trigger]
            edges.contains_key(e) ==> nodes.contains(edges[e].src_node.0) && nodes.contains(
                edges[e].dst_node.0,
            ),
    ensures
        nodes.contains(order[i]),
        !order.take(i).to_set().contains(order[i]),
        forall|e: u64| #[trigger]
            edges.contains_key(e) && edges[e].dst_node.0 == order[i] ==> order.take(
                i,
            ).to_set().contains(edges[e].src_node.0),
        forall|e: u64| #[trigger]
            edges.contains_key(e) && edges[e].src_node.0 == order[i] ==> edges[e].dst_node.0
                != order[i] && !order.take(i).to_set().contains(edges[e].dst_node.0),
{
    let id = order[i];
    assert(order.to_set().contains(id));
    if order.take(i).contains(id) {
        let j = order.take(i).index_of(id);
        assert(order[j] == id);
    }
    assert forall|e: u64| #[trigger]
        edges.contains_key(e) && edges[e].src_node.0 == id implies edges[e].dst_node.0 != id
        && !order.take(i).to_set().contains(edges[e].dst_node.0) by {
        let dst = edges[e].dst_node.0;
        if dst == id {
            assert(order.take(i).contains(id));
        }
        if order.take(i).contains(dst) {
            let j = order.take(i).index_of(dst);
            assert(order[j] == dst);
            assert(order.take(j).contains(id));
            let k = order.take(j).index_of(id);
            assert(order[k] == id);
        }
    }
}

/// The schedule of a graph.
pub struct CompiledSchedule {
    /// The nodes, in the order in which they are processed.
    pub schedule: Vec<ScheduledNode>,
    /// The number of buffers that the schedule uses.
    pub num_buffers: usize,
    /// The largest number of frames in a block.
    pub max_block_frames: usize,
    /// The ID of the graph input node.
    pub graph_in_node_id: NodeID,
}

impl CompiledSchedule {
    /// The identifiers of the nodes, in order.
    pub open spec fn order(&self) -> Seq<u64> {
        self.schedule@.map_values(|n: ScheduledNode| n.id.0)
    }

    /// Whether a node is processed.
    pub fn has_node(&self, id: NodeID) -> (found: bool)
        ensures
            found == self.order().contains(id.0),
    {
        let len: usize = self.schedule.len();
        for i in 0..len
            invariant
                len == self.schedule@.len(),
                forall|j: int| 0 <= j < i ==> #[trigger] self.order()[j] != id.0,
        {
            assert(self.order()[i as int] == self.schedule@[i as int].id.0);
            if self.schedule[i].id == id {
                return true;
            }
        }
        false
    }

    /// Whether this is a correct schedule of a graph: it processes every node
    /// once, in a topological order, every input of every node receives what the
    /// edges of the graph say, and there is a node at which all buffers are in use.
    pub open spec fn schedules<N>(
        &self,
        nodes: Map<u64, NodeEntry<N>>,
        edges: Map<u64, Edge>,
        graph_in: u64,
        graph_out: u64,
    ) -> bool {
        &&& is_schedule_order(nodes.dom(), edges, self.order(), graph_in, graph_out)
        &&& schedule_routed(nodes, edges, self.schedule@, self.num_buffers as int)
        &&& all_needed(edges, self.schedule@, self.num_buffers as int)
        &&& schedule_named(nodes, graph_out, self.schedule@)
        &&& self.graph_in_node_id.0 == graph_in
    }
}

/// Main compilation algorithm
pub fn compile<N>(
    nodes: &IdTable<NodeEntry<N>>,
    edges: &IdTable<Edge>,
    graph_in_id: NodeID,
    graph_out_id: NodeID,
    max_block_frames: usize,
) -> (result: Result<CompiledSchedule, CompileGraphError>)
    requires
        nodes.wf(),
        edges.wf(),
        graph_wf(nodes@, edges@, graph_in_id.0, graph_out_id.0),
    ensures
        match result {
            Ok(compiled) => !has_cycle(edges@) && compiled.schedules(
                nodes@,
                edges@,
                graph_in_id.0,
                graph_out_id.0,
            ) && compiled.max_block_frames == max_block_frames,
            Err(error) => has_cycle(edges@) && error == CompileGraphError::CycleDetected,
        },
{
    let ir = GraphIR::preprocess(nodes, edges, graph_in_id, graph_out_id);
    let order = match ir.sort_topologically(true) {
        Ok(order) => order,
        Err(error) => {
            return Err(error);
        },
    };
    let (schedule, num_buffers) = ir.solve_buffer_requirements(&order);
    let compiled = CompiledSchedule {
        schedule,
        num_buffers,
        max_block_frames,
        graph_in_node_id: graph_in_id,
    };
    assert(compiled.order() =~= node_ids(order@));
    Ok(compiled)
}

/// Whether the edges of a graph form a cycle.
pub fn cycle_detected<N>(
    nodes: &IdTable<NodeEntry<N>>,
    edges: &IdTable<Edge>,
    graph_in_id: NodeID,
    graph_out_id: NodeID,
) -> (detected: bool)
    requires
        nodes.wf(),
        edges.wf(),
        graph_wf(nodes@, edges@, graph_in_id.0, graph_out_id.0),
    ensures
        detected == has_cycle(edges@),
{
    let ir = GraphIR::preprocess(nodes, edges, graph_in_id, graph_out_id);
    ir.sort_topologically(false).is_err()
}

} // verus!
