//! The buffers that carry audio from node to node, and what they hold while a
//! schedule is processed.

use crate::graph::compiler::{incoming_edges, outgoing_edges, NodeEntry};
use crate::graph::topology::Edge;
use crate::mask::ConnectedMask;
use crate::node::NodeID;
use crate::small_list::SmallList;
use vstd::prelude::*;

verus! {

/// The buffer of an input port.
#[derive(Debug, Clone, Copy, PartialEq, Eq, Structural)]
pub struct InBufferAssignment {
    /// The index of the buffer assigned.
    pub buffer_index: usize,
    /// Whether the engine should clear the buffer before
    /// passing it to a process.
    pub should_clear: bool,
}

/// The buffer of an output port.
#[derive(Debug, Clone, Copy, PartialEq, Eq, Structural)]
pub struct OutBufferAssignment {
    /// The index of the buffer assigned.
    pub buffer_index: usize,
}

/// A summing point in front of an input port with several edges.
pub struct InsertedSum {
    /// The indices of the buffers that are added up.
    pub input_buffers: SmallList,
    /// The buffer that receives the sum.
    pub output_buffer: OutBufferAssignment,
}

/// A node in a schedule, with the buffers of its ports. To process the node,
/// its sums are computed in order, the buffers of its inputs that should be
/// cleared are cleared, and then its outputs are written.
pub struct ScheduledNode {
    /// The unique ID of the node.
    pub id: NodeID,
    /// A name for debugging.
    pub debug_name: &'static str,
    /// The buffer of each input port.
    pub input_buffers: Vec<InBufferAssignment>,
    /// The buffer of each output port.
    pub output_buffers: Vec<OutBufferAssignment>,
    /// Which input ports have an edge.
    pub in_connected_mask: ConnectedMask,
    /// Which output ports have an edge.
    pub out_connected_mask: ConnectedMask,
    /// The summing points in front of the input ports.
    pub sum_inputs: Vec<InsertedSum>,
}

impl ScheduledNode {
    /// A node to which no buffers are assigned yet.
    pub fn new(id: NodeID, debug_name: &'static str) -> (node: Self)
        ensures
            node.id == id,
            node.debug_name == debug_name,
            node.input_buffers@.len() == 0,
            node.output_buffers@.len() == 0,
            node.sum_inputs@.len() == 0,
            forall|i: int| 0 <= i < 64 ==> !#[trigger] node.in_connected_mask.connected(i),
            forall|i: int| 0 <= i < 64 ==> !#[trigger] node.out_connected_mask.connected(i),
    {
        ScheduledNode {
            id,
            debug_name,
            input_buffers: Vec::new(),
            output_buffers: Vec::new(),
            in_connected_mask: ConnectedMask::none(),
            out_connected_mask: ConnectedMask::none(),
            sum_inputs: Vec::new(),
        }
    }
}

/// The edges that lead to input port `port` of node `k`, in slot order.
pub open spec fn in_port_edges(edges: Map<u64, Edge>, k: u64, port: u32) -> Seq<u64> {
    incoming_edges(edges, k).filter(|e: u64| edges[e].dst_port == port)
}

/// The edges that leave output port `port` of node `k`, in slot order.
pub open spec fn out_port_edges(edges: Map<u64, Edge>, k: u64, port: u32) -> Seq<u64> {
    outgoing_edges(edges, k).filter(|e: u64| edges[e].src_port == port)
}

/// The signal that an edge carries: the output port from which it comes.
pub open spec fn signal_of(edge: Edge) -> (u64, u32) {
    (edge.src_node.0, edge.src_port)
}

/// What buffers hold after the first `n` sums were computed. A buffer that
/// holds a sum holds no output signal.
pub open spec fn after_sums(
    held: Map<int, (u64, u32)>,
    sums: Seq<InsertedSum>,
    n: int,
) -> Map<int, (u64, u32)>
    decreases n,
{
    if n <= 0 {
        held
    } else {
        after_sums(held, sums, n - 1).remove(sums[n - 1].output_buffer.buffer_index as int)
    }
}

/// Whether a buffer is assigned to an output port.
pub open spec fn is_output(node: ScheduledNode, b: int) -> bool {
    exists|p: int|
        0 <= p < node.output_buffers@.len() && (#[trigger] node.output_buffers@[p]).buffer_index
            == b
}

/// The output port to which a buffer is assigned.
pub open spec fn output_port(node: ScheduledNode, b: int) -> u32 {
    (choose|p: int|
        0 <= p < node.output_buffers@.len() && (#[trigger] node.output_buffers@[p]).buffer_index
            == b) as u32
}

/// Whether a buffer is cleared before the node is processed.
pub open spec fn is_cleared(node: ScheduledNode, b: int) -> bool {
    exists|p: int|
        0 <= p < node.input_buffers@.len() && (#[trigger] node.input_buffers@[p]).buffer_index == b
            && node.input_buffers@[p].should_clear
}

/// What buffers hold after a node was processed.
pub open spec fn after_node(held: Map<int, (u64, u32)>, node: ScheduledNode) -> Map<
    int,
    (u64, u32),
> {
    let summed = after_sums(held, node.sum_inputs@, node.sum_inputs@.len() as int);
    Map::new(
        |b: int| is_output(node, b) || (summed.contains_key(b) && !is_cleared(node, b)),
        |b: int|
            if is_output(node, b) {
                (node.id.0, output_port(node, b))
            } else {
                summed[b]
            },
    )
}

/// What buffers hold after the first `n` nodes of a schedule were processed.
pub open spec fn held_before(schedule: Seq<ScheduledNode>, n: int) -> Map<int, (u64, u32)>
    decreases n,
{
    if n <= 0 {
        Map::empty()
    } else {
        after_node(held_before(schedule, n - 1), schedule[n - 1])
    }
}

/// The number of input ports before `port` that several edges lead to.
pub open spec fn sums_before(edges: Map<u64, Edge>, k: u64, port: int) -> int
    decreases port,
{
    if port <= 0 {
        0
    } else {
        sums_before(edges, k, port - 1) + if in_port_edges(edges, k, (port - 1) as u32).len() >= 2 {
            1int
        } else {
            0
        }
    }
}

/// Whether no other input port of the node has the buffer of port `p`.
pub open spec fn exclusive_input(node: ScheduledNode, p: int) -> bool {
    forall|q: int|
        0 <= q < node.input_buffers@.len() && q != p
            ==> (#[trigger] node.input_buffers@[q]).buffer_index
            != node.input_buffers@[p].buffer_index
}

/// Whether input port `p` of a node receives what the graph says. With no edge,
/// it receives a cleared buffer; with one edge, the buffer that holds the signal
/// of the edge; with several edges, the sum of the buffers that hold their
/// signals.
pub open spec fn input_routed(
    edges: Map<u64, Edge>,
    held: Map<int, (u64, u32)>,
    node: ScheduledNode,
    p: int,
) -> bool {
    let to_port = in_port_edges(edges, node.id.0, p as u32);
    let input = node.input_buffers@[p];
    let sums = node.sum_inputs@;
    if to_port.len() == 0 {
        input.should_clear && exclusive_input(node, p)
    } else if to_port.len() == 1 {
        let summed = after_sums(held, sums, sums.len() as int);
        !input.should_clear && summed.contains_key(input.buffer_index as int)
            && summed[input.buffer_index as int] == signal_of(edges[to_port[0]])
    } else {
        let s = sums_before(edges, node.id.0, p);
        !input.should_clear && exclusive_input(node, p) && sum_routed(
            edges,
            after_sums(held, sums, s),
            sums[s],
            to_port,
            input.buffer_index,
        ) && forall|t: int|
            s < t < sums.len() ==> (#[trigger] sums[t]).output_buffer.buffer_index
                != input.buffer_index
    }
}

/// Whether a sum adds up the signals of the given edges into a buffer.
pub open spec fn sum_routed(
    edges: Map<u64, Edge>,
    held: Map<int, (u64, u32)>,
    sum: InsertedSum,
    to_port: Seq<u64>,
    buffer_index: usize,
) -> bool {
    &&& sum.output_buffer.buffer_index == buffer_index
    &&& sum.input_buffers@.len() == to_port.len()
    &&& forall|i: int|
        0 <= i < to_port.len() ==> held.contains_key((#[trigger] sum.input_buffers@[i]) as int)
            && held[sum.input_buffers@[i] as int] == signal_of(edges[to_port[i]])
}

/// Whether the buffers of a node are assigned as the graph says: every input
/// receives its signals, every output has a buffer of its own, and no output
/// overwrites an input.
pub open spec fn node_routed<N>(
    nodes: Map<u64, NodeEntry<N>>,
    edges: Map<u64, Edge>,
    held: Map<int, (u64, u32)>,
    node: ScheduledNode,
    num_buffers: int,
) -> bool {
    let id = node.id.0;
    let inputs = node.input_buffers@;
    let outputs = node.output_buffers@;
    &&& inputs.len() == nodes[id].info.channel_config.inputs()
    &&& outputs.len() == nodes[id].info.channel_config.outputs()
    &&& node.sum_inputs@.len() == sums_before(edges, id, inputs.len() as int)
    &&& forall|p: int|
        0 <= p < inputs.len() ==> input_routed(edges, held, node, p) && (
        #[trigger] inputs[p]).buffer_index < num_buffers && node.in_connected_mask.connected(p) == (
        in_port_edges(edges, id, p as u32).len() > 0)
    &&& forall|p: int|
        0 <= p < outputs.len() ==> (#[trigger] outputs[p]).buffer_index < num_buffers
            && node.out_connected_mask.connected(p) == (out_port_edges(edges, id, p as u32).len()
            > 0)
    &&& forall|p: int, q: int|
        0 <= p < outputs.len() && 0 <= q < outputs.len() && p != q ==> (
        #[trigger] outputs[p]).buffer_index != (#[trigger] outputs[q]).buffer_index
    &&& forall|p: int, q: int|
        0 <= p < outputs.len() && 0 <= q < inputs.len() ==> (#[trigger] outputs[p]).buffer_index
            != (#[trigger] inputs[q]).buffer_index
}

/// Whether a buffer is assigned to a port of a node.
pub open spec fn is_buffer_of(node: ScheduledNode, b: int) -> bool {
    is_output(node, b) || exists|p: int|
        0 <= p < node.input_buffers@.len() && (#[trigger] node.input_buffers@[p]).buffer_index == b
}

/// Whether a buffer holds a signal that is still to be read before node `n` of a schedule
/// is processed: that of an edge from a node before to one that is not.
pub open spec fn to_be_read(
    edges: Map<u64, Edge>,
    schedule: Seq<ScheduledNode>,
    n: int,
    b: int,
) -> bool {
    &&& held_before(schedule, n).contains_key(b)
    &&& exists|e: u64| #[trigger]
        edges.contains_key(e) && signal_of(edges[e]) == held_before(schedule, n)[b]
            && !(exists|j: int|
            0 <= j < n && (#[trigger] schedule[j]).id == edges[e].dst_node)
}

/// Whether a buffer is in use when node `n` of a schedule is processed: it holds a signal
/// that is still to be read, or it is assigned to a port of the node.
pub open spec fn in_use(
    edges: Map<u64, Edge>,
    schedule: Seq<ScheduledNode>,
    n: int,
    b: int,
) -> bool {
    to_be_read(edges, schedule, n, b) || is_buffer_of(schedule[n], b)
}

/// Whether so many buffers are needed: there is a node at which all of them are in use.
pub open spec fn all_needed(
    edges: Map<u64, Edge>,
    schedule: Seq<ScheduledNode>,
    num_buffers: int,
) -> bool {
    num_buffers > 0 ==> exists|n: int| #[trigger] all_in_use(edges, schedule, n, num_buffers)
}

/// Whether so many buffers are in use when node `n` of a schedule is processed.
pub open spec fn all_in_use(
    edges: Map<u64, Edge>,
    schedule: Seq<ScheduledNode>,
    n: int,
    num_buffers: int,
) -> bool {
    &&& 0 <= n < schedule.len()
    &&& forall|b: int| 0 <= b < num_buffers ==> #[trigger] in_use(edges, schedule, n, b)
}

/// Whether a buffer is assigned to an edge of a table or to a port of a node.
pub open spec fn covered(table: Map<u64, usize>, node: ScheduledNode, b: int) -> bool {
    is_buffer_of(node, b) || exists|e: u64| #[trigger] table.contains_key(e) && table[e] == b
}

/// Whether the buffers of a table, and those to be released, are those of the table with
/// which the assignments to a node began, or of the node itself.
pub open spec fn accounted(
    start: Map<u64, usize>,
    node: ScheduledNode,
    table: Map<u64, usize>,
    to_release: Seq<usize>,
) -> bool {
    &&& forall|e: u64| #[trigger] table.contains_key(e) ==> covered(start, node, table[e] as int)
    &&& forall|i: int|
        0 <= i < to_release.len() ==> covered(start, node, (#[trigger] to_release[i]) as int)
}

/// Whether all of `num_buffers` buffers are in use, if there are more than `num_before`.
pub open spec fn grown_if_needed(
    start: Map<u64, usize>,
    node: ScheduledNode,
    num_before: int,
    num_buffers: int,
) -> bool {
    num_buffers > num_before ==> forall|b: int|
        0 <= b < num_buffers ==> #[trigger] covered(start, node, b)
}

/// Whether one more port of a node has a buffer, a new one only if all were in use.
pub open spec fn port_assigned(
    node0: ScheduledNode,
    table0: Map<u64, usize>,
    to_release0: Seq<usize>,
    counts0: Seq<usize>,
    node: ScheduledNode,
    table: Map<u64, usize>,
    to_release: Seq<usize>,
    counts: Seq<usize>,
) -> bool {
    &&& forall|b: int| #[trigger] is_buffer_of(node0, b) ==> is_buffer_of(node, b)
    &&& forall|e: u64| #[trigger]
        table.contains_key(e) ==> (table0.contains_key(e) && table0[e] == table[e])
            || is_buffer_of(node, table[e] as int)
    &&& forall|i: int|
        0 <= i < to_release.len() ==> to_release0.contains(#[trigger] to_release[i])
            || is_buffer_of(node, to_release[i] as int)
    &&& counts.len() == counts0.len() || (counts.len() == counts0.len() + 1 && is_buffer_of(
        node,
        counts0.len() as int,
    ) && forall|b: int| 0 <= b < counts0.len() ==> #[trigger] counts0[b] > 0)
}

/// New buffers are only taken when all are in use, from one port of a node to the next.
pub proof fn lemma_port_assigned(
    start: Map<u64, usize>,
    num_before: int,
    node0: ScheduledNode,
    table0: Map<u64, usize>,
    to_release0: Seq<usize>,
    counts0: Seq<usize>,
    node: ScheduledNode,
    table: Map<u64, usize>,
    to_release: Seq<usize>,
    counts: Seq<usize>,
)
    requires
        balanced(table0, to_release0, counts0),
        accounted(start, node0, table0, to_release0),
        grown_if_needed(start, node0, num_before, counts0.len() as int),
        port_assigned(node0, table0, to_release0, counts0, node, table, to_release, counts),
        counts0.len() <= usize::MAX,
    ensures
        accounted(start, node, table, to_release),
        grown_if_needed(start, node, num_before, counts.len() as int),
{
    assert forall|b: int| #[trigger] covered(start, node0, b) implies covered(start, node, b) by {
        if is_buffer_of(node0, b) {
            assert(is_buffer_of(node, b));
        }
    }
    assert forall|e: u64| #[trigger] table.contains_key(e) implies covered(
        start,
        node,
        table[e] as int,
    ) by {
        if !is_buffer_of(node, table[e] as int) {
            assert(table0.contains_key(e));
            assert(covered(start, node0, table0[e] as int));
        }
    }
    assert forall|i: int| 0 <= i < to_release.len() implies covered(
        start,
        node,
        (#[trigger] to_release[i]) as int,
    ) by {
        if !is_buffer_of(node, to_release[i] as int) {
            let j = to_release0.index_of(to_release[i]);
            assert(covered(start, node0, to_release0[j] as int));
        }
    }
    if counts.len() > num_before {
        assert forall|b: int| 0 <= b < counts.len() implies #[trigger] covered(start, node, b) by {
            if counts.len() == counts0.len() {
                assert(covered(start, node0, b));
            } else if b < counts0.len() {
                let x = b as usize;
                assert(counts0[b] > 0);
                assert(counts0[x as int] == uses(table0, x) + to_release0.to_multiset().count(x));
                if to_release0.to_multiset().count(x) > 0 {
                    to_release0.to_multiset_ensures();
                    assert(to_release0.contains(x));
                    let j = to_release0.index_of(x);
                    assert(covered(start, node0, to_release0[j] as int));
                } else {
                    assert(users(table0, x).len() > 0);
                    let e = users(table0, x).choose();
                    assert(users(table0, x).contains(e)) by {
                        if users(table0, x) == Set::<u64>::empty() {
                            assert(users(table0, x).len() == 0);
                        }
                        vstd::set::axiom_set_choose_len(users(table0, x));
                    }
                    assert(table0.contains_key(e));
                    assert(covered(start, node0, table0[e] as int));
                }
            }
        }
    }
}

/// The edges to which a buffer is assigned.
pub open spec fn users(table: Map<u64, usize>, b: usize) -> Set<u64> {
    table.dom().filter(|e: u64| table[e] == b)
}

/// The number of edges to which a buffer is assigned.
pub open spec fn uses(table: Map<u64, usize>, b: usize) -> nat {
    users(table, b).len()
}

/// An allocator for managing and reusing buffers. A buffer that is in use has a
/// number of references; it becomes free when the last one is released.
pub struct BufferAllocator {
    /// A list of free buffers that may be reallocated
    free_list: Vec<usize>,
    /// The number of references to each buffer that was ever used
    refs: Vec<usize>,
}

impl BufferAllocator {
    /// The number of references to each buffer.
    pub closed spec fn counts(&self) -> Seq<usize> {
        self.refs@
    }

    /// Well-formedness: the buffers without a reference are listed as free, each
    /// once.
    pub closed spec fn wf(&self) -> bool {
        &&& self.free_list@.no_duplicates()
        &&& forall|i: int|
            0 <= i < self.free_list@.len() ==> (#[trigger] self.free_list@[i]) < self.refs@.len()
                && self.refs@[self.free_list@[i] as int] == 0
        &&& forall|b: usize|
            b < self.refs@.len() && #[trigger] self.refs@[b as int] == 0
                ==> self.free_list@.contains(b)
    }

    /// Buffers can be counted.
    pub proof fn lemma_num_buffers(&self)
        ensures
            self.counts().len() <= usize::MAX,
    {
        assert(self.refs@.len() == self.refs.len());
    }

    /// Create a new allocator that has given out no buffer.
    pub fn new(initial_capacity: usize) -> (allocator: Self)
        ensures
            allocator.wf(),
            allocator.counts().len() == 0,
    {
        BufferAllocator { free_list: Vec::with_capacity(initial_capacity), refs: Vec::new() }
    }

    /// Acquire a buffer that is not in use, with the given number of references:
    /// the one that was released last, or a new one.
    pub fn acquire(&mut self, references: usize) -> (idx: usize)
        requires
            old(self).wf(),
            references > 0,
        ensures
            final(self).wf(),
            idx < old(self).counts().len() ==> old(self).counts()[idx as int] == 0
                && final(self).counts() == old(self).counts().update(idx as int, references),
            idx >= old(self).counts().len() ==> idx == old(self).counts().len()
                && final(self).counts() == old(self).counts().push(references) && forall|b: int|
                0 <= b < old(self).counts().len() ==> #[trigger] old(self).counts()[b] > 0,
    {
        match self.free_list.pop() {
            Some(idx) => {
                self.refs[idx] = references;
                proof {
                    let free0 = old(self).free_list@;
                    assert forall|b: usize|
                        b < self.refs@.len()
                            && #[trigger] self.refs@[b as int] == 0 implies self.free_list@.contains(
                        b,
                    ) by {
                        assert(old(self).refs@[b as int] == 0);
                        let i = free0.index_of(b);
                        assert(self.free_list@[i] == b);
                    }
                }
                idx
            },
            None => {
                let idx: usize = self.refs.len();
                self.refs.push(references);
                proof {
                    assert forall|b: int| 0 <= b < old(self).refs@.len() implies #[trigger] old(
                        self,
                    ).refs@[b] > 0 by {
                        if old(self).refs@[b] == 0 {
                            assert(old(self).refs@[(b as usize) as int] == 0);
                        }
                    }
                    assert forall|b: usize| b < self.refs@.len() implies #[trigger] self.refs@[b as int]
                        > 0 by {
                        if b < old(self).refs@.len() {
                            assert(old(self).refs@[b as int] > 0);
                        }
                    }
                }
                idx
            },
        }
    }

    /// Release one reference to a buffer.
    pub fn release(&mut self, idx: usize)
        requires
            old(self).wf(),
            idx < old(self).counts().len(),
            old(self).counts()[idx as int] > 0,
        ensures
            final(self).wf(),
            final(self).counts() == old(self).counts().update(
                idx as int,
                (old(self).counts()[idx as int] - 1) as usize,
            ),
    {
        self.refs[idx] = self.refs[idx] - 1;
        if self.refs[idx] == 0 {
            assert(!self.free_list@.contains(idx)) by {
                if self.free_list@.contains(idx) {
                    let i = self.free_list@.index_of(idx);
                    assert(old(self).free_list@[i] == idx);
                }
            }
            let ghost free1 = self.free_list@;
            self.free_list.push(idx);
            proof {
                assert forall|b: usize|
                    b < self.refs@.len()
                        && #[trigger] self.refs@[b as int] == 0 implies self.free_list@.contains(
                    b,
                ) by {
                    if b == idx {
                        assert(self.free_list@[free1.len() as int] == idx);
                    } else {
                        assert(old(self).refs@[b as int] == 0);
                        let i = free1.index_of(b);
                        assert(self.free_list@[i] == b);
                    }
                }
            }
        } else {
            assert forall|b: usize|
                b < self.refs@.len()
                    && #[trigger] self.refs@[b as int] == 0 implies self.free_list@.contains(
                b,
            ) by {
                assert(old(self).refs@[b as int] == 0);
            }
        }
    }

    /// The number of buffers that were ever in use.
    pub fn num_buffers(&self) -> (num: usize)
        ensures
            num == self.counts().len(),
    {
        self.refs.len()
    }
}

/// The references to buffers are those of the table and those to be released.
pub open spec fn balanced(
    table: Map<u64, usize>,
    to_release: Seq<usize>,
    counts: Seq<usize>,
) -> bool {
    &&& table.dom().finite()
    &&& forall|e: u64| #[trigger] table.contains_key(e) ==> table[e] < counts.len()
    &&& forall|i: int| 0 <= i < to_release.len() ==> (#[trigger] to_release[i]) < counts.len()
    &&& forall|b: usize|
        b < counts.len() ==> #[trigger] counts[b as int] == uses(table, b)
            + to_release.to_multiset().count(b)
}

pub proof fn lemma_uses_remove(table: Map<u64, usize>, e: u64)
    requires
        table.dom().finite(),
        table.contains_key(e),
    ensures
        uses(table, table[e]) >= 1,
        forall|b: usize|
            #![trigger uses(table.remove(e), b)]
            uses(table.remove(e), b) == uses(table, b) - (if b == table[e] {
                1int
            } else {
                0
            }),
{
    assert(users(table, table[e]).contains(e));
    assert forall|b: usize|
        #![trigger uses(table.remove(e), b)]
        uses(table.remove(e), b) == uses(table, b) - (if b == table[e] {
            1int
        } else {
            0
        }) by {
        let before = users(table, b);
        let after = users(table.remove(e), b);
        if b == table[e] {
            assert(after =~= before.remove(e));
            assert(before.contains(e));
        } else {
            assert(after =~= before);
        }
    }
}

pub proof fn lemma_uses_insert(table: Map<u64, usize>, e: u64, v: usize)
    requires
        table.dom().finite(),
        !table.contains_key(e),
    ensures
        forall|b: usize|
            #![trigger uses(table.insert(e, v), b)]
            uses(table.insert(e, v), b) == uses(table, b) + (if b == v {
                1int
            } else {
                0
            }),
{
    assert forall|b: usize|
        #![trigger uses(table.insert(e, v), b)]
        uses(table.insert(e, v), b) == uses(table, b) + (if b == v {
            1int
        } else {
            0
        }) by {
        let before = users(table, b);
        let after = users(table.insert(e, v), b);
        if b == v {
            assert(after =~= before.insert(e));
        } else {
            assert(after =~= before);
        }
    }
}

/// A buffer without references is neither assigned to an edge nor to be
/// released.
pub proof fn lemma_not_in_use(
    table: Map<u64, usize>,
    to_release: Seq<usize>,
    counts: Seq<usize>,
    b: usize,
)
    requires
        balanced(table, to_release, counts),
        b < counts.len() ==> counts[b as int] == 0,
    ensures
        forall|e: u64| #[trigger] table.contains_key(e) ==> table[e] != b,
        !to_release.contains(b),
        uses(table, b) == 0,
        to_release.to_multiset().count(b) == 0,
{
    assert forall|e: u64| #[trigger] table.contains_key(e) implies table[e] != b by {
        if table[e] == b {
            lemma_uses_remove(table, e);
        }
    }
    assert(users(table, b) =~= Set::empty());
    if to_release.contains(b) {
        let i = to_release.index_of(b);
        assert(to_release[i] == b);
        vstd::seq_lib::to_multiset_contains(to_release, b);
    }
    vstd::seq_lib::to_multiset_contains(to_release, b);
}

/// What earlier sums do is not changed by later ones.
pub proof fn lemma_after_sums_prefix(
    held: Map<int, (u64, u32)>,
    sums: Seq<InsertedSum>,
    more: Seq<InsertedSum>,
    n: int,
)
    requires
        n <= sums.len() <= more.len(),
        forall|i: int| 0 <= i < sums.len() ==> sums[i] == more[i],
    ensures
        after_sums(held, sums, n) == after_sums(held, more, n),
    decreases n,
{
    if n > 0 {
        lemma_after_sums_prefix(held, sums, more, n - 1);
    }
}

/// What the first nodes of a schedule do is not changed by later ones.
pub proof fn lemma_held_before_prefix(
    schedule: Seq<ScheduledNode>,
    more: Seq<ScheduledNode>,
    n: int,
)
    requires
        n <= schedule.len() <= more.len(),
        forall|i: int| 0 <= i < schedule.len() ==> schedule[i] == more[i],
    ensures
        held_before(schedule, n) == held_before(more, n),
    decreases n,
{
    if n > 0 {
        lemma_held_before_prefix(schedule, more, n - 1);
    }
}

pub proof fn lemma_sums_before_bounds(edges: Map<u64, Edge>, k: u64, p: int)
    requires
        p >= 0,
    ensures
        0 <= sums_before(edges, k, p) <= p,
    decreases p,
{
    if p > 0 {
        lemma_sums_before_bounds(edges, k, p - 1);
    }
}

pub proof fn lemma_sums_before_monotonic(edges: Map<u64, Edge>, k: u64, p: int, q: int)
    requires
        0 <= p < q,
    ensures
        sums_before(edges, k, p) <= sums_before(edges, k, q),
        in_port_edges(edges, k, p as u32).len() >= 2 ==> sums_before(edges, k, p) < sums_before(
            edges,
            k,
            q,
        ),
    decreases q,
{
    if p < q - 1 {
        lemma_sums_before_monotonic(edges, k, p, q - 1);
    }
}

} // verus!
