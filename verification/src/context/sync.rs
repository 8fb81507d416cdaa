//! How the graph on the main thread and the processors on the audio thread stay
//! in step.

use crate::graph::compiler::NodeEntry;
use crate::graph::{AudioGraph, GraphView, RemoveNodeError, ScheduleHeapData};
use crate::id_table::{are_table_ids, lemma_slot_order, slot_order};
use crate::node::NodeID;
use crate::processor::inner::{
    ids_of, left_by, schedule_fits, update_fits, updated, with_nodes, NodeHeapData, ProcSchedule,
    ProcessorView,
};
use crate::processor::event_scheduler::is_for;
use crate::small_list::SmallList;
use vstd::prelude::*;

verus! {

/// Whether the nodes that have a processor on the audio thread are those of the
/// graph for which one was constructed, and those that are to be removed with the
/// next schedule.
pub open spec fn in_step<N>(graph: GraphView<N>, ids: Set<u64>) -> bool {
    &&& forall|k: u64| #[trigger]
        graph.nodes.contains_key(k) && graph.nodes[k].processor_constructed ==> ids.contains(k)
    &&& forall|k: u64| #[trigger]
        ids.contains(k) ==> if graph.nodes.contains_key(k) {
            graph.nodes[k].processor_constructed && !graph.nodes_to_remove.contains(NodeID(k))
        } else {
            graph.nodes_to_remove.contains(NodeID(k))
        }
}

/// A node that is added does not get out of step, whatever its number is, as long
/// as it is not that of a node which is still on the audio thread.
pub proof fn law_added_node_keeps_step<N>(
    before: GraphView<N>,
    id: NodeID,
    entry: NodeEntry<N>,
    nodes_to_update: Seq<NodeID>,
    ids: Set<u64>,
)
    requires
        in_step(before, ids),
        !entry.processor_constructed,
        !ids.contains(id.0),
    ensures
        in_step(
            GraphView {
                nodes: before.nodes.insert(id.0, entry),
                nodes_to_update,
                needs_compile: true,
                ..before
            },
            ids,
        ),
{
}

/// A node that is removed from the graph keeps its processor until the next
/// schedule.
pub proof fn law_removed_node_keeps_step<N>(
    before: GraphView<N>,
    node_id: NodeID,
    after: GraphView<N>,
    result: Result<SmallList, RemoveNodeError>,
    ids: Set<u64>,
)
    requires
        in_step(before, ids),
        AudioGraph::<N>::node_removed(before, node_id, after, result),
    ensures
        in_step(after, ids),
{
    assert forall|k: u64| #[trigger] ids.contains(k) implies if after.nodes.contains_key(k) {
        after.nodes[k].processor_constructed && !after.nodes_to_remove.contains(NodeID(k))
    } else {
        after.nodes_to_remove.contains(NodeID(k))
    } by {
        if result is Ok && before.nodes.contains_key(node_id.0) {
            lemma_push_contains(before.nodes_to_remove, node_id, NodeID(k));
        }
    }
}

proof fn lemma_push_contains(s: Seq<NodeID>, x: NodeID, y: NodeID)
    ensures
        s.push(x).contains(y) <==> s.contains(y) || x == y,
{
    if s.contains(y) {
        let i = s.index_of(y);
        assert(s.push(x)[i] == y);
    }
    assert(s.push(x)[s.len() as int] == x);
    if s.push(x).contains(y) {
        let i = s.push(x).index_of(y);
        assert(s.push(x)[i] == y);
        if i < s.len() {
            assert(s[i] == y);
        }
    }
}

/// Whether an update for the audio thread is what a graph was compiled to, with
/// the processors that were constructed for its new nodes.
pub open spec fn update_of<P>(data: ScheduleHeapData, update: ProcSchedule<P>) -> bool {
    &&& update.schedule == data.schedule
    &&& update.nodes_to_remove@ == data.nodes_to_remove@
    &&& ids_of(update.new_node_processors@) == data.new_node_processors@.map_values(
        |n: NodeID| n.0,
    )
    &&& update.new_node_arena matches Some(arena) ==> arena.fresh()
}

/// Whether every node of the graph for which a processor was constructed has one
/// on the audio thread, and no other node of the graph has. There may be others
/// on the audio thread that are not in the graph.
pub open spec fn covers<N>(graph: GraphView<N>, ids: Set<u64>) -> bool {
    &&& forall|k: u64| #[trigger]
        graph.nodes.contains_key(k) && graph.nodes[k].processor_constructed ==> ids.contains(k)
    &&& forall|k: u64| #[trigger]
        ids.contains(k) && graph.nodes.contains_key(k) ==> graph.nodes[k].processor_constructed
            && !graph.nodes_to_remove.contains(NodeID(k))
}

/// A schedule that the audio thread did not receive can be compiled again: its
/// new nodes are new again, and the others still have their processors.
pub proof fn law_refused_schedule_loses_no_node<N>(
    before: GraphView<N>,
    max_block_frames: usize,
    between: GraphView<N>,
    data: ScheduleHeapData,
    after: GraphView<N>,
    ids: Set<u64>,
)
    requires
        are_table_ids(before.nodes.dom()),
        covers(before, ids),
        AudioGraph::<N>::compiled(before, max_block_frames, between, data),
        AudioGraph::<N>::undelivered(between, data, after),
    ensures
        covers(after, ids),
        after.nodes == before.nodes,
        after.needs_compile,
        in_step(before, ids) && data.nodes_to_remove@.len() == 0 ==> in_step(after, ids),
{
    let added = data.new_node_processors@.map_values(|n: NodeID| n.0);
    lemma_added(before, added);
    assert forall|k: u64| #[trigger] before.nodes.contains_key(k) implies after.nodes[k]
        == before.nodes[k] by {
        assert(between.nodes.contains_key(k));
        assert(data.new_node_processors@.contains(NodeID(k)) <==> added.contains(k)) by {
            let list = data.new_node_processors@;
            if list.contains(NodeID(k)) {
                let i = list.index_of(NodeID(k));
                assert(added[i] == k);
            }
            if added.contains(k) {
                let i = added.index_of(k);
                assert(added[i] == k);
                assert(list[i] == NodeID(k));
            }
        }
        assert(added.contains(k) <==> !before.nodes[k].processor_constructed);
    }
    assert(after.nodes =~= before.nodes);
    assert(after.nodes_to_remove.len() == 0);
}

/// The nodes that are new are those of the graph without a processor, each once.
proof fn lemma_added<N>(graph: GraphView<N>, added: Seq<u64>)
    requires
        are_table_ids(graph.nodes.dom()),
        added == slot_order(graph.nodes.dom()).filter(
            |k: u64| !graph.nodes[k].processor_constructed,
        ),
    ensures
        added.no_duplicates(),
        forall|k: u64| #[trigger]
            added.contains(k) <==> graph.nodes.contains_key(k)
                && !graph.nodes[k].processor_constructed,
{
    let all = slot_order(graph.nodes.dom());
    let is_new = |k: u64| !graph.nodes[k].processor_constructed;
    lemma_slot_order(graph.nodes.dom());
    assert(added == all.filter(is_new));
    lemma_filter_unique(all, is_new);
    assert forall|k: u64| #[trigger] added.contains(k) <==> graph.nodes.contains_key(k)
        && !graph.nodes[k].processor_constructed by {
        assert(all.to_set().contains(k) <==> graph.nodes.dom().contains(k));
        if added.contains(k) {
            let i = added.index_of(k);
            assert(added[i] == k);
            all.lemma_filter_contains_rev(is_new, k);
            all.lemma_filter_pred(is_new, i);
        }
        if graph.nodes.contains_key(k) && !graph.nodes[k].processor_constructed {
            assert(all.contains(k));
            let i = all.index_of(k);
            assert(all[i] == k);
            all.lemma_filter_contains(is_new, i);
        }
    }
}

/// What a graph is compiled to fits the audio thread: the nodes it removes and
/// the ones it adds lead to exactly the nodes of its schedule, and once it is in
/// use, both are in step again.
pub proof fn law_compiled_graph_fits<N, P, E>(
    before: GraphView<N>,
    max_block_frames: usize,
    after: GraphView<N>,
    data: ScheduleHeapData,
    view: ProcessorView<P, E>,
    update: ProcSchedule<P>,
    schedule: Option<ProcSchedule<P>>,
)
    requires
        are_table_ids(before.nodes.dom()),
        schedule_fits(view.schedule, view.processors.dom()),
        in_step(before, view.processors.dom()),
        AudioGraph::<N>::compiled(before, max_block_frames, after, data),
        max_block_frames == view.max_block_frames,
        update_of(data, update),
        forall|j: int, k: u64|
            0 <= j < view.events.immediate.len() && #[trigger] is_for(
                view.events.immediate,
                j,
                k,
            ) && before.nodes.contains_key(k) ==> before.nodes[k].processor_constructed,
    ensures
        update_fits(view, update),
        update.schedule.order().to_set() == updated(view, update, schedule).processors.dom(),
        in_step(after, updated(view, update, schedule).processors.dom()),
{
    let left = left_by(view, update).dom();
    assert(left.union(before.nodes.dom()) =~= before.nodes.dom()) by {
        assert forall|k: u64| left.contains(k) implies before.nodes.dom().contains(k) by {
            assert(view.processors.dom().contains(k));
        }
    }
    lemma_update_fits(before, max_block_frames, after, data, view, update, schedule);
}

/// The same where nodes are left on the audio thread that a schedule was to remove
/// which it did not receive: they keep their processors, and the next schedule comes
/// into use beside them, as long as none of the graph's nodes has the slot of one.
pub proof fn law_leftover_nodes_stay<N, P, E>(
    before: GraphView<N>,
    max_block_frames: usize,
    after: GraphView<N>,
    data: ScheduleHeapData,
    view: ProcessorView<P, E>,
    update: ProcSchedule<P>,
    schedule: Option<ProcSchedule<P>>,
)
    requires
        are_table_ids(before.nodes.dom()),
        covers(before, view.processors.dom()),
        are_table_ids(left_by(view, update).dom().union(before.nodes.dom())),
        AudioGraph::<N>::compiled(before, max_block_frames, after, data),
        max_block_frames == view.max_block_frames,
        update_of(data, update),
        forall|j: int, k: u64|
            0 <= j < view.events.immediate.len() && #[trigger] is_for(
                view.events.immediate,
                j,
                k,
            ) && before.nodes.contains_key(k) ==> before.nodes[k].processor_constructed,
    ensures
        update_fits(view, update),
        covers(after, updated(view, update, schedule).processors.dom()),
        forall|k: u64| #[trigger]
            view.processors.contains_key(k) && !before.nodes.contains_key(k)
                && !update.nodes_to_remove@.contains(NodeID(k)) ==> updated(
                view,
                update,
                schedule,
            ).processors.contains_key(k),
{
    lemma_update_fits(before, max_block_frames, after, data, view, update, schedule);
    let processors = updated(view, update, schedule).processors;
    assert forall|k: u64| #[trigger]
        view.processors.contains_key(k) && !before.nodes.contains_key(k)
            && !update.nodes_to_remove@.contains(NodeID(k)) implies processors.contains_key(k) by {
        assert(left_by(view, update).contains_key(k));
        assert(left_by(view, update).dom().union(before.nodes.dom()).contains(k));
    }
}

/// What both laws on compiled graphs share: an update leads to the nodes that are left
/// and those of the graph.
proof fn lemma_update_fits<N, P, E>(
    before: GraphView<N>,
    max_block_frames: usize,
    after: GraphView<N>,
    data: ScheduleHeapData,
    view: ProcessorView<P, E>,
    update: ProcSchedule<P>,
    schedule: Option<ProcSchedule<P>>,
)
    requires
        are_table_ids(before.nodes.dom()),
        covers(before, view.processors.dom()),
        are_table_ids(left_by(view, update).dom().union(before.nodes.dom())),
        AudioGraph::<N>::compiled(before, max_block_frames, after, data),
        max_block_frames == view.max_block_frames,
        update_of(data, update),
        forall|j: int, k: u64|
            0 <= j < view.events.immediate.len() && #[trigger] is_for(
                view.events.immediate,
                j,
                k,
            ) && before.nodes.contains_key(k) ==> before.nodes[k].processor_constructed,
    ensures
        update_fits(view, update),
        update.schedule.order().to_set() == before.nodes.dom(),
        updated(view, update, schedule).processors.dom() == left_by(view, update).dom().union(
            before.nodes.dom(),
        ),
        covers(after, updated(view, update, schedule).processors.dom()),
        forall|k: u64| #[trigger]
            after.nodes.contains_key(k) ==> after.nodes[k].processor_constructed
                && !after.nodes_to_remove.contains(NodeID(k)),
        after.nodes.dom() == before.nodes.dom(),
{
    let order = update.schedule.order();
    let added = ids_of(update.new_node_processors@);
    let left = left_by(view, update);
    let all = left.dom().union(before.nodes.dom());
    lemma_added(before, added);
    assert(order.to_set() == before.nodes.dom());
    assert(left.dom().union(added.to_set()) =~= all) by {
        assert forall|k: u64| all.contains(k) <==> left.dom().union(added.to_set()).contains(k) by {
            assert(added.to_set().contains(k) <==> added.contains(k));
            assert(before.nodes.dom().contains(k) <==> before.nodes.contains_key(k));
            assert(view.processors.dom().contains(k) <==> view.processors.contains_key(k));
        }
    }
    assert forall|i: int| 0 <= i < added.len() implies !view.processors.contains_key(
        #[trigger] added[i],
    ) by {
        assert(added.contains(added[i]));
        assert(view.processors.dom().contains(added[i]) <==> view.processors.contains_key(
            added[i],
        ));
    }
    lemma_with_nodes_dom(left, update.new_node_processors@);
    assert forall|k: u64| #[trigger] after.nodes.contains_key(k) implies
        after.nodes[k].processor_constructed && !after.nodes_to_remove.contains(NodeID(k)) by {
        assert(before.nodes.dom().contains(k));
    }
    assert(after.nodes.dom() =~= before.nodes.dom());
}

proof fn lemma_filter_unique(s: Seq<u64>, p: spec_fn(u64) -> bool)
    requires
        s.no_duplicates(),
    ensures
        s.filter(p).no_duplicates(),
    decreases s.len(),
{
    reveal(Seq::filter);
    if s.len() > 0 {
        let head = s.drop_last();
        lemma_filter_unique(head, p);
        if p(s.last()) {
            let f = head.filter(p);
            assert forall|i: int| 0 <= i < f.len() implies f[i] != s.last() by {
                assert(f.contains(f[i]));
                head.lemma_filter_contains_rev(p, f[i]);
                let j = head.index_of(f[i]);
                assert(s[j] == f[i]);
            }
        }
    }
}

proof fn lemma_with_nodes_dom<P>(processors: Map<u64, P>, added: Seq<NodeHeapData<P>>)
    ensures
        with_nodes(processors, added).dom() == processors.dom().union(ids_of(added).to_set()),
    decreases added.len(),
{
    if added.len() == 0 {
        assert(processors.dom().union(ids_of(added).to_set()) =~= processors.dom());
    } else {
        let last = added.last();
        let rest = added.drop_last();
        lemma_with_nodes_dom(processors.insert(last.id.0, last.processor), rest);
        assert(ids_of(added) =~= ids_of(rest).push(last.id.0));
        ids_of(rest).lemma_push_to_set_commute(last.id.0);
        assert(processors.insert(last.id.0, last.processor).dom().union(ids_of(rest).to_set())
            =~= processors.dom().union(ids_of(added).to_set()));
    }
}

} // verus!
