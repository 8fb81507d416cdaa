//! Directed edges between nodes, cycles, and topological orders.

use crate::node::NodeID;
use vstd::prelude::*;

verus! {

/// The index of an input/output port on a particular node.
pub type PortIdx = u32;

/// A globally unique identifier for an [Edge]: an arena index in bit form.
#[derive(Debug, Clone, Copy, PartialEq, Eq, Hash, Structural)]
pub struct EdgeID(pub u64);

/// An [Edge] is a connection from source node and port to a
/// destination node and port.
#[derive(Debug, Clone, Copy, PartialEq, Eq, Hash, Structural)]
pub struct Edge {
    pub id: EdgeID,
    /// The ID of the source node used by this edge.
    pub src_node: NodeID,
    /// The ID of the source port used by this edge.
    pub src_port: PortIdx,
    /// The ID of the destination node used by this edge.
    pub dst_node: NodeID,
    /// The ID of the destination port used by this edge.
    pub dst_port: PortIdx,
}

/// Whether some edge leads from node `a` to node `b`.
pub open spec fn linked(edges: Map<u64, Edge>, a: u64, b: u64) -> bool {
    exists|e: u64| #[trigger]
        edges.contains_key(e) && edges[e].src_node.0 == a && edges[e].dst_node.0 == b
}

/// Whether each node of `walk` is linked to the one after it.
pub open spec fn is_walk(edges: Map<u64, Edge>, walk: Seq<u64>) -> bool {
    forall|i: int, j: int|
        0 <= i && j == i + 1 && j < walk.len() ==> linked(
            edges,
            #[trigger] walk[i],
            #[trigger] walk[j],
        )
}

/// Whether some walk of at least one step ends where it began.
pub open spec fn has_cycle(edges: Map<u64, Edge>) -> bool {
    exists|walk: Seq<u64>|
        walk.len() >= 2 && walk[0] == walk.last() && #[trigger] is_walk(edges, walk)
}

/// Whether every edge leads from a node to a node that comes later in `order`.
pub open spec fn topological(edges: Map<u64, Edge>, order: Seq<u64>) -> bool {
    forall|e: u64, j: int|
        #![trigger edges.contains_key(e), order[j]]
        edges.contains_key(e) && 0 <= j < order.len() && order[j] == edges[e].dst_node.0
            ==> order.take(j).contains(edges[e].src_node.0)
}

/// The edges of a set that lead to node `k`.
pub open spec fn into(edges: Map<u64, Edge>, set: Set<u64>, k: u64) -> Set<u64> {
    set.filter(|e: u64| edges[e].dst_node.0 == k)
}

/// A node of `rest` from which an edge leads to `k`.
spec fn predecessor(edges: Map<u64, Edge>, rest: Set<u64>, k: u64) -> u64 {
    edges[choose|e: u64| #[trigger]
        edges.contains_key(e) && edges[e].dst_node.0 == k && rest.contains(
            edges[e].src_node.0,
        )].src_node.0
}

/// The node that is reached from `k` by going back `n` edges.
spec fn back(edges: Map<u64, Edge>, rest: Set<u64>, k: u64, n: nat) -> u64
    decreases n,
{
    if n == 0 {
        k
    } else {
        predecessor(edges, rest, back(edges, rest, k, (n - 1) as nat))
    }
}

/// Whether each node of `rest` has a predecessor in `rest`.
pub open spec fn closed_backwards(edges: Map<u64, Edge>, rest: Set<u64>) -> bool {
    forall|k: u64| #[trigger]
        rest.contains(k) ==> exists|e: u64| #[trigger]
            edges.contains_key(e) && edges[e].dst_node.0 == k && rest.contains(
                edges[e].src_node.0,
            )
}

proof fn lemma_back(edges: Map<u64, Edge>, rest: Set<u64>, k: u64, n: nat)
    requires
        closed_backwards(edges, rest),
        rest.contains(k),
    ensures
        rest.contains(back(edges, rest, k, n)),
        linked(edges, back(edges, rest, k, n + 1), back(edges, rest, k, n)),
    decreases n,
{
    if n > 0 {
        lemma_back(edges, rest, k, (n - 1) as nat);
    }
    let here = back(edges, rest, k, n);
    if n > 0 {
        let before = back(edges, rest, k, (n - 1) as nat);
        assert(rest.contains(before));
        let e = choose|e: u64| #[trigger]
            edges.contains_key(e) && edges[e].dst_node.0 == before && rest.contains(
                edges[e].src_node.0,
            );
        assert(here == edges[e].src_node.0);
    }
    let e = choose|e: u64| #[trigger]
        edges.contains_key(e) && edges[e].dst_node.0 == here && rest.contains(edges[e].src_node.0);
    assert(edges.contains_key(e));
    assert(back(edges, rest, k, n + 1) == predecessor(edges, rest, here));
}

/// A finite set of nodes, each of which has a predecessor in the set, holds a
/// cycle.
pub proof fn lemma_closed_backwards_has_cycle(edges: Map<u64, Edge>, rest: Set<u64>, start: u64)
    requires
        rest.finite(),
        rest.contains(start),
        closed_backwards(edges, rest),
    ensures
        has_cycle(edges),
{
    let n = rest.len() + 1;
    let trail = Seq::new(n, |i: int| back(edges, rest, start, i as nat));
    assert forall|i: int| 0 <= i < n implies rest.contains(#[trigger] trail[i]) by {
        lemma_back(edges, rest, start, i as nat);
    }
    if trail.no_duplicates() {
        trail.unique_seq_to_set();
        assert(trail.to_set().subset_of(rest)) by {
            assert forall|k: u64| trail.to_set().contains(k) implies rest.contains(k) by {
                let i = trail.index_of(k);
                assert(trail[i] == k);
            }
        }
        vstd::set_lib::lemma_len_subset(trail.to_set(), rest);
        assert(false);
    }
    let (i, j) = choose|i: int, j: int|
        0 <= i < trail.len() && 0 <= j < trail.len() && i < j && #[trigger] trail[i]
            == #[trigger] trail[j];
    assert(0 <= i < j < n && trail[i] == trail[j]) by {
        let (a, b) = choose|a: int, b: int|
            0 <= a < trail.len() && 0 <= b < trail.len() && a != b && #[trigger] trail[a]
                == #[trigger] trail[b];
        if a < b {
            assert(trail[a] == trail[b]);
        } else {
            assert(trail[b] == trail[a]);
        }
    }
    let walk = Seq::new((j - i + 1) as nat, |t: int| back(edges, rest, start, (j - t) as nat));
    assert forall|a: int, b: int| 0 <= a && b == a + 1 && b < walk.len() implies linked(
        edges,
        #[trigger] walk[a],
        #[trigger] walk[b],
    ) by {
        lemma_back(edges, rest, start, (j - b) as nat);
        assert((j - b) as nat + 1 == (j - a) as nat);
    }
    assert(walk[0] == trail[j]);
    assert(walk.last() == trail[i]);
    assert(is_walk(edges, walk));
}

proof fn lemma_walk_goes_forward(edges: Map<u64, Edge>, order: Seq<u64>, walk: Seq<u64>, n: int)
    requires
        order.no_duplicates(),
        topological(edges, order),
        is_walk(edges, walk),
        0 <= n < walk.len(),
        forall|e: u64| #[trigger]
            edges.contains_key(e) ==> order.contains(edges[e].dst_node.0),
        order.contains(walk[0]),
    ensures
        order.contains(walk[n]),
        order.index_of(walk[0]) + n <= order.index_of(walk[n]),
    decreases n,
{
    if n > 0 {
        lemma_walk_goes_forward(edges, order, walk, n - 1);
        let a = walk[n - 1];
        let b = walk[n];
        assert(linked(edges, a, b));
        let e = choose|e: u64| #[trigger]
            edges.contains_key(e) && edges[e].src_node.0 == a && edges[e].dst_node.0 == b;
        let j = order.index_of(b);
        assert(order[j] == b);
        assert(order.take(j).contains(a));
        let i = order.take(j).index_of(a);
        assert(order.take(j)[i] == a && order[i] == a);
        assert(order.index_of(a) == i);
    }
}

/// Edges that have a topological order form no cycle.
pub proof fn lemma_topological_has_no_cycle(edges: Map<u64, Edge>, order: Seq<u64>)
    requires
        order.no_duplicates(),
        topological(edges, order),
        forall|e: u64| #[trigger]
            edges.contains_key(e) ==> order.contains(edges[e].dst_node.0) && order.contains(
                edges[e].src_node.0,
            ),
    ensures
        !has_cycle(edges),
{
    if has_cycle(edges) {
        let walk = choose|walk: Seq<u64>|
            walk.len() >= 2 && walk[0] == walk.last() && #[trigger] is_walk(edges, walk);
        assert(linked(edges, walk[0], walk[1]));
        lemma_walk_goes_forward(edges, order, walk, walk.len() - 1);
    }
}

/// Whether each node of `walk` is linked to the one after it, or is `src` and is
/// followed by `dst`.
pub open spec fn is_walk_with(edges: Map<u64, Edge>, src: u64, dst: u64, walk: Seq<u64>) -> bool {
    forall|i: int, j: int|
        0 <= i && j == i + 1 && j < walk.len() ==> linked(
            edges,
            #[trigger] walk[i],
            #[trigger] walk[j],
        ) || (walk[i] == src && walk[j] == dst)
}

/// Whether there is a cycle once an edge from `src` to `dst` is added.
pub open spec fn has_cycle_with(edges: Map<u64, Edge>, src: u64, dst: u64) -> bool {
    exists|walk: Seq<u64>|
        walk.len() >= 2 && walk[0] == walk.last() && #[trigger] is_walk_with(edges, src, dst, walk)
}

/// Edges that link what others link, and `src` to `dst` besides.
pub proof fn lemma_has_cycle_with(
    edges: Map<u64, Edge>,
    more: Map<u64, Edge>,
    src: u64,
    dst: u64,
)
    requires
        forall|a: u64, b: u64| #[trigger]
            linked(more, a, b) <==> linked(edges, a, b) || (a == src && b == dst),
    ensures
        has_cycle(more) == has_cycle_with(edges, src, dst),
{
    if has_cycle(more) {
        let walk = choose|walk: Seq<u64>|
            walk.len() >= 2 && walk[0] == walk.last() && #[trigger] is_walk(more, walk);
        assert(is_walk_with(edges, src, dst, walk)) by {
            assert forall|i: int, j: int| 0 <= i && j == i + 1 && j < walk.len() implies linked(
                edges,
                #[trigger] walk[i],
                #[trigger] walk[j],
            ) || (walk[i] == src && walk[j] == dst) by {
                assert(linked(more, walk[i], walk[j]));
            }
        }
    }
    if has_cycle_with(edges, src, dst) {
        let walk = choose|walk: Seq<u64>|
            walk.len() >= 2 && walk[0] == walk.last() && #[trigger] is_walk_with(
                edges,
                src,
                dst,
                walk,
            );
        assert(is_walk(more, walk)) by {
            assert forall|i: int, j: int| 0 <= i && j == i + 1 && j < walk.len() implies linked(
                more,
                #[trigger] walk[i],
                #[trigger] walk[j],
            ) by {
                assert(linked(edges, walk[i], walk[j]) || (walk[i] == src && walk[j] == dst));
            }
        }
    }
}

} // verus!
