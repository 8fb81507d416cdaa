//! What a message does to the nodes of the audio thread, and what a node says of its outputs.

use crate::clock::{EventInstant, InstantSamples};
use crate::event::NodeEvent;
use crate::mask::SilenceMask;
use crate::node::{NodeID, ProcessStatus};
use crate::processor::event_scheduler::{EventBufferFull, EventFilter};
use crate::processor::inner::{
    ids_of, left_by, msg_handled, removed_from, update_fits, with_nodes, ContextToProcessorMsg,
    NodeHeapData, ProcSchedule, ProcessorToContextMsg, ProcessorView,
};
use crate::processor::poll::{polled, some_of, step, step_fails, PollError, PollTrace};
use crate::processor::process::{action_of, all_same, meant, says_silent, BlockStatus};
use crate::processor::sub_chunks::{are_ends, delivered, in_chunk, input_of, SubChunkRun};
use vstd::prelude::*;

verus! {

/// Whether a node is among some new ones.
pub open spec fn is_new<P>(added: Seq<NodeHeapData<P>>, k: u64) -> bool {
    exists|i: int| 0 <= i < added.len() && (#[trigger] added[i]).id.0 == k
}

/// After a new schedule the audio thread has the processors of the nodes that it had, but for
/// those that were removed, and those of the new nodes, each as it was sent. What is pending
/// for a node that there is no longer is dropped, and nothing else changes.
pub proof fn law_new_schedule_replaces_nodes<
    P,
    E,
    T,
    Q,
    G: Fn(Q, T, InstantSamples) -> (Q, T),
    F: Fn(&Q, EventInstant) -> Option<InstantSamples>,
>(
    set: G,
    convert: F,
    before: (ProcessorView<P, E>, Q),
    update: ProcSchedule<P>,
    after: (ProcessorView<P, E>, Q),
    result: Result<Option<ProcessorToContextMsg<P, E, T>>, EventBufferFull>,
    k: u64,
    i: int,
)
    requires
        before.0.schedule is Some,
        update_fits(before.0, update),
        msg_handled(
            set,
            convert,
            before,
            ContextToProcessorMsg::NewSchedule(update),
            after,
            result,
        ),
    ensures
        after.0.processors.contains_key(k) <==> (before.0.processors.contains_key(k)
            && !update.nodes_to_remove@.contains(NodeID(k))) || is_new(
            update.new_node_processors@,
            k,
        ),
        before.0.processors.contains_key(k) && !update.nodes_to_remove@.contains(NodeID(k))
            ==> after.0.processors[k] == before.0.processors[k],
        0 <= i < update.new_node_processors@.len()
            ==> after.0.processors[update.new_node_processors@[i].id.0]
            == update.new_node_processors@[i].processor,
        after.0.schedule is Some,
        after.0.schedule->0.schedule == update.schedule,
        after.0.schedule->0.nodes_to_remove == update.nodes_to_remove,
        after.0.schedule->0.removed_nodes == before.0.schedule->0.removed_nodes,
        after.0.schedule->0.new_node_processors@.len() == 0,
        after.0.events.pending == before.0.events.pending.filter(
            |x: (i64, NodeEvent<E>)| after.0.processors.contains_key(x.1.node_id.0),
        ),
        after.0 == (ProcessorView {
            processors: after.0.processors,
            schedule: after.0.schedule,
            events: after.0.events,
            ..before.0
        }),
        after.0.events.immediate == before.0.events.immediate,
        after.0.events.mode == before.0.events.mode,
        after.0.events.immediate_capacity == before.0.events.immediate_capacity,
        after.0.events.scheduled_capacity == before.0.events.scheduled_capacity,
        after.1 == before.1,
{
    let added = update.new_node_processors@;
    lemma_with_nodes(left_by(before.0, update), added, k);
    lemma_kept_by_filter(before.0.events.pending, after.0.processors.dom());
    assert(update_fits(before.0, update));
    lemma_ids(added);
    if is_new(added, k) {
        let j = choose|j: int| 0 <= j < added.len() && (#[trigger] added[j]).id.0 == k;
        assert(ids_of(added)[j] == k);
        assert(!before.0.processors.contains_key(ids_of(added)[j]));
    }
    if 0 <= i < added.len() {
        lemma_with_nodes(left_by(before.0, update), added, added[i].id.0);
        lemma_with_this(left_by(before.0, update), added, i);
    }
}

/// The audio thread gives back the schedule that was in use, and the processor of each node
/// that it had and that was removed. It gives back no other.
pub proof fn law_removed_processors_are_given_back<
    P,
    E,
    T,
    Q,
    G: Fn(Q, T, InstantSamples) -> (Q, T),
    F: Fn(&Q, EventInstant) -> Option<InstantSamples>,
>(
    set: G,
    convert: F,
    before: (ProcessorView<P, E>, Q),
    update: ProcSchedule<P>,
    after: (ProcessorView<P, E>, Q),
    result: Result<Option<ProcessorToContextMsg<P, E, T>>, EventBufferFull>,
    id: NodeID,
)
    requires
        before.0.schedule is Some,
        update.removed_nodes@.len() == 0,
        msg_handled(
            set,
            convert,
            before,
            ContextToProcessorMsg::NewSchedule(update),
            after,
            result,
        ),
    ensures
        result matches Ok(Some(ProcessorToContextMsg::ReturnSchedule(reply))) && {
            let given = reply.removed_nodes@;
            &&& reply.schedule == before.0.schedule->0.schedule
            &&& reply.nodes_to_remove == before.0.schedule->0.nodes_to_remove
            &&& reply.new_node_processors == before.0.schedule->0.new_node_processors
            &&& reply.new_node_arena == before.0.schedule->0.new_node_arena
            &&& update.nodes_to_remove@.contains(id) && before.0.processors.contains_key(id.0)
                ==> given.contains(NodeHeapData { id, processor: before.0.processors[id.0] })
            &&& forall|i: int|
                0 <= i < given.len() ==> update.nodes_to_remove@.contains((#[trigger] given[i]).id)
                    && before.0.processors.contains_key(given[i].id.0) && given[i].processor
                    == before.0.processors[given[i].id.0]
            &&& forall|i: int, j: int|
                0 <= i < j < given.len() ==> (#[trigger] given[i]).id != (#[trigger] given[j]).id
        },
{
    lemma_removed(before.0.processors, update.nodes_to_remove@, id);
    let reply = result->Ok_0->0->ReturnSchedule_0;
    assert(reply.removed_nodes@ =~= removed_from(before.0.processors, update.nodes_to_remove@));
}

/// The first schedule adds its nodes to those that there are. There is nothing to give back.
pub proof fn law_first_schedule_adds_nodes<
    P,
    E,
    T,
    Q,
    G: Fn(Q, T, InstantSamples) -> (Q, T),
    F: Fn(&Q, EventInstant) -> Option<InstantSamples>,
>(
    set: G,
    convert: F,
    before: (ProcessorView<P, E>, Q),
    update: ProcSchedule<P>,
    after: (ProcessorView<P, E>, Q),
    result: Result<Option<ProcessorToContextMsg<P, E, T>>, EventBufferFull>,
    k: u64,
)
    requires
        before.0.schedule is None,
        update_fits(before.0, update),
        msg_handled(
            set,
            convert,
            before,
            ContextToProcessorMsg::NewSchedule(update),
            after,
            result,
        ),
    ensures
        result == Ok::<_, EventBufferFull>(None::<ProcessorToContextMsg<P, E, T>>),
        after.0.processors.contains_key(k) <==> before.0.processors.contains_key(k) || is_new(
            update.new_node_processors@,
            k,
        ),
        after.0.schedule is Some,
        after.0.schedule->0.schedule == update.schedule,
{
    let added = update.new_node_processors@;
    lemma_with_nodes(left_by(before.0, update), added, k);
}

/// A schedule is accepted only if it is for blocks of the right size, schedules no node twice
/// and none without a processor, and adds none that there is already, nor one twice.
pub proof fn law_accepted_schedule_fits<P, E>(
    view: ProcessorView<P, E>,
    update: ProcSchedule<P>,
    i: int,
    j: int,
)
    requires
        view.schedule is Some,
        update_fits(view, update),
    ensures
        update.schedule.max_block_frames == view.max_block_frames,
        update.new_node_arena is Some ==> update.new_node_arena->0.fresh(),
        0 <= i < update.schedule.schedule@.len() ==> ({
            let id = update.schedule.schedule@[i].id;
            (view.processors.contains_key(id.0) && !update.nodes_to_remove@.contains(id))
                || is_new(update.new_node_processors@, id.0)
        }),
        0 <= i < j < update.schedule.schedule@.len() ==> update.schedule.schedule@[i].id
            != update.schedule.schedule@[j].id,
        0 <= i < update.new_node_processors@.len() ==> !view.processors.contains_key(
            update.new_node_processors@[i].id.0,
        ),
        0 <= i < j < update.new_node_processors@.len() ==> update.new_node_processors@[i].id
            != update.new_node_processors@[j].id,
{
    let order = update.schedule.order();
    let added = update.new_node_processors@;
    let ids = ids_of(added);
    if 0 <= i < order.len() {
        let k = order[i];
        assert(order.contains(k));
        assert(order.to_set().contains(k));
        if ids.contains(k) {
            let m = ids.index_of(k);
            assert(added[m].id.0 == k);
        }
        if i < j < order.len() {
            assert(order[i] != order[j]);
        }
    }
    if 0 <= i < added.len() {
        assert(!view.processors.contains_key(ids[i]));
        if i < j < added.len() {
            assert(ids[i] != ids[j]);
        }
    }
}

/// A message on the clipping of outputs sets it, and changes nothing else. Nothing is given
/// back.
pub proof fn law_hard_clip_is_set<
    P,
    E,
    T,
    Q,
    G: Fn(Q, T, InstantSamples) -> (Q, T),
    F: Fn(&Q, EventInstant) -> Option<InstantSamples>,
>(
    set: G,
    convert: F,
    before: (ProcessorView<P, E>, Q),
    hard_clip: bool,
    after: (ProcessorView<P, E>, Q),
    result: Result<Option<ProcessorToContextMsg<P, E, T>>, EventBufferFull>,
)
    requires
        msg_handled(
            set,
            convert,
            before,
            ContextToProcessorMsg::HardClipOutputs(hard_clip),
            after,
            result,
        ),
    ensures
        after.0.hard_clip == hard_clip,
        after.0 == (ProcessorView { hard_clip: after.0.hard_clip, ..before.0 }),
        after.1 == before.1,
        result == Ok::<_, EventBufferFull>(None::<ProcessorToContextMsg<P, E, T>>),
{
}

/// What a message brought is given back to be dropped on the main thread: a list of events,
/// emptied; the state of the transport that was in use; a list of what was to be cleared.
pub proof fn law_what_was_sent_is_given_back<
    P,
    E,
    T,
    Q,
    G: Fn(Q, T, InstantSamples) -> (Q, T),
    F: Fn(&Q, EventInstant) -> Option<InstantSamples>,
>(
    set: G,
    convert: F,
    before: (ProcessorView<P, E>, Q),
    msg: ContextToProcessorMsg<P, E, T>,
    after: (ProcessorView<P, E>, Q),
    reply: Option<ProcessorToContextMsg<P, E, T>>,
)
    requires
        msg_handled(set, convert, before, msg, after, Ok(reply)),
    ensures
        msg is EventGroup ==> reply is Some && reply->0 is ReturnEventGroup
            && reply->0->ReturnEventGroup_0@.len() == 0,
        msg is SetTransportState ==> reply is Some && reply->0 is ReturnTransportState
            && call_ensures(
            set,
            (before.1, msg->SetTransportState_0, InstantSamples(before.0.clock as i64)),
            (after.1, reply->0->ReturnTransportState_0),
        ),
        msg is ClearScheduledEvents ==> reply == Some(
            ProcessorToContextMsg::<P, E, T>::ReturnClearScheduledEvents(
                msg->ClearScheduledEvents_0,
            ),
        ),
        !(msg is SetTransportState) ==> after.1 == before.1,
        !(msg is NewSchedule) ==> after.0.processors == before.0.processors && after.0.schedule
            == before.0.schedule,
        !(msg is HardClipOutputs) ==> after.0.hard_clip == before.0.hard_clip,
        after.0.clock == before.0.clock,
        after.0.sample_rate == before.0.sample_rate,
        after.0.max_block_frames == before.0.max_block_frames,
        after.0.poisoned == before.0.poisoned,
{
}

/// A message that does not fit changes nothing, but that processing has failed.
pub proof fn law_misfit_changes_nothing<
    P,
    E,
    T,
    Q,
    G: Fn(Q, T, InstantSamples) -> (Q, T),
    F: Fn(&Q, EventInstant) -> Option<InstantSamples>,
>(
    set: G,
    convert: F,
    before: (ProcessorView<P, E>, Q),
    msg: ContextToProcessorMsg<P, E, T>,
    after: (ProcessorView<P, E>, Q),
)
    requires
        step_fails(set, convert, before, msg, after, PollError::MessageMisfit),
    ensures
        msg is NewSchedule,
        after.0.poisoned,
        after.0 == (ProcessorView { poisoned: true, ..before.0 }),
        after.1 == before.1,
{
}

/// Messages are handled one after another, in the order in which they were received: each
/// finds what the last one left, and what the last of them leaves is what is left. The time
/// stands still meanwhile.
pub proof fn law_messages_are_handled_in_order<
    P,
    E,
    T,
    Q,
    G: Fn(Q, T, InstantSamples) -> (Q, T),
    F: Fn(&Q, EventInstant) -> Option<InstantSamples>,
>(
    set: G,
    convert: F,
    first: (ProcessorView<P, E>, Q),
    trace: PollTrace<P, E, T, Q>,
    last: (ProcessorView<P, E>, Q),
    i: int,
)
    requires
        polled(set, convert, first, trace, last),
        0 <= i <= trace.received.len(),
    ensures
        trace.views.len() == trace.received.len() + 1,
        trace.replies.len() == trace.received.len(),
        trace.views[0] == first,
        trace.views[trace.received.len() as int] == last,
        i < trace.received.len() ==> msg_handled(
            set,
            convert,
            trace.views[i],
            trace.received[i],
            trace.views[i + 1],
            Ok(trace.replies[i]),
        ),
        i < trace.received.len() && trace.received[i] is NewSchedule ==> update_fits(
            trace.views[i].0,
            trace.received[i]->NewSchedule_0,
        ),
        trace.views[i].0.clock == first.0.clock,
        trace.views[i].0.sample_rate == first.0.sample_rate,
        trace.views[i].0.max_block_frames == first.0.max_block_frames,
        trace.views[i].0.poisoned == first.0.poisoned,
        trace.received.len() == 0 ==> last == first,
    decreases i,
{
    if i > 0 {
        law_messages_are_handled_in_order(set, convert, first, trace, last, i - 1);
        law_what_was_sent_is_given_back(
            set,
            convert,
            trace.views[i - 1],
            trace.received[i - 1],
            trace.views[i],
            trace.replies[i - 1],
        );
    }
    if i < trace.received.len() {
        assert(step(
            set,
            convert,
            trace.views[i],
            trace.received[i],
            trace.views[i + 1],
            trace.replies[i],
        ));
    }
}

/// The replies are sent in the order of the messages that they answer, and none is left out.
pub proof fn law_replies_are_in_order<T>(first: Seq<Option<T>>, second: Seq<Option<T>>)
    ensures
        some_of(first + second) == some_of(first) + some_of(second),
        forall|reply: T| #[trigger] some_of(seq![Some(reply)]) =~= seq![reply],
        some_of(seq![None::<T>]).len() == 0,
        some_of(first).len() <= first.len(),
        (forall|i: int| 0 <= i < first.len() ==> #[trigger] first[i] is Some) ==> some_of(
            first,
        ).len() == first.len(),
    decreases first.len(), second.len(),
{
    reveal_with_fuel(some_of, 3);
    assert forall|reply: T| #[trigger] some_of(seq![Some(reply)]) =~= seq![reply] by {
        assert(seq![Some(reply)].drop_last() =~= Seq::<Option<T>>::empty());
        assert(seq![Some(reply)].last() == Some(reply));
    }
    assert(seq![None::<T>].drop_last() =~= Seq::<Option<T>>::empty());
    if second.len() == 0 {
        assert(first + second =~= first);
        if first.len() > 0 {
            law_replies_are_in_order(first.drop_last(), second);
            assert(first.drop_last() + second =~= first.drop_last());
            assert(forall|i: int|
                0 <= i < first.drop_last().len() ==> first.drop_last()[i] == first[i]);
        }
    } else {
        law_replies_are_in_order(first, second.drop_last());
        assert((first + second).drop_last() =~= first + second.drop_last());
        assert((first + second).last() == second.last());
    }
}

/// What a node leaves in its outputs is what is delivered, if it says that it has modified
/// them. If it says that they are to be cleared they are silent, and if it is bypassed they
/// are its inputs, or silent where there is none.
pub proof fn law_status_decides_outputs<S>(
    status: ProcessStatus,
    output: Seq<S>,
    input: Option<Seq<S>>,
    silence: S,
    i: int,
)
    ensures
        status is OutputsModified ==> meant(status, output, input, silence, i) == output[i],
        status is ClearAllOutputs ==> meant(status, output, input, silence, i) == silence,
        status is Bypass && input is Some ==> meant(status, output, input, silence, i)
            == input->0[i],
        status is Bypass && input is None ==> meant(status, output, input, silence, i) == silence,
        action_of(status) is Keep <==> status is OutputsModified,
        action_of(status) is Clear <==> status is ClearAllOutputs,
        action_of(status) is CopyInputs <==> status is Bypass,
{
}

/// A node says that an output is silent if it is to be cleared, or if it is bypassed and the
/// input is silent, or if it has modified the output and says so of it.
pub proof fn law_status_tells_silence(
    status: ProcessStatus,
    in_silence_mask: SilenceMask,
    num_outputs: int,
    ch: int,
)
    requires
        0 <= ch < num_outputs,
    ensures
        status is ClearAllOutputs ==> says_silent(status, in_silence_mask, num_outputs, ch),
        status is ClearAllOutputs ==> !says_silent(
            status,
            in_silence_mask,
            num_outputs,
            num_outputs,
        ),
        status is Bypass ==> (says_silent(status, in_silence_mask, num_outputs, ch)
            <==> in_silence_mask.silent(ch)),
        status is OutputsModified ==> (says_silent(status, in_silence_mask, num_outputs, ch)
            <==> status->out_silence_mask.silent(ch)),
{
}

/// Each sub-chunk is delivered as the node has said of it: the frames from the end of the
/// last one to its own end.
pub proof fn law_each_sub_chunk_is_delivered<S>(
    runs: Seq<SubChunkRun<S>>,
    ends: Seq<usize>,
    inputs: Seq<&[S]>,
    silence: S,
    c: int,
    output: Seq<S>,
    i: int,
    f: int,
)
    requires
        delivered(runs, ends, input_of(inputs, c), silence, c, output),
        0 <= i < runs.len(),
        if i == 0 {
            0 <= f < ends[i]
        } else {
            ends[i - 1] <= f < ends[i]
        },
    ensures
        runs[i].status is OutputsModified ==> output[f] == runs[i].left@[c]@[f],
        runs[i].status is ClearAllOutputs ==> output[f] == silence,
        runs[i].status is Bypass && c < inputs.len() ==> output[f] == inputs[c]@[f],
        runs[i].status is Bypass && c >= inputs.len() ==> output[f] == silence,
{
    assert(in_chunk(ends, i, f));
}

/// A frame is in one sub-chunk at most: in the one that ends after it, and that starts at it
/// or before.
pub proof fn law_frame_is_in_one_sub_chunk(ends: Seq<usize>, i: int, j: int, f: int)
    requires
        0 <= i < ends.len(),
        0 <= j < ends.len(),
        are_ends(ends),
    ensures
        in_chunk(ends, i, f) <==> f < ends[i] && (if i == 0 {
            0 <= f
        } else {
            ends[i - 1] <= f
        }),
        in_chunk(ends, i, f) && in_chunk(ends, j, f) ==> i == j,
{
    if i < j {
        assert(ends[i] <= ends[j - 1]) by {
            if i < j - 1 {
                assert(ends[i] <= ends[j - 1]);
            }
        }
    } else if j < i {
        assert(ends[j] <= ends[i - 1]) by {
            if j < i - 1 {
                assert(ends[j] <= ends[i - 1]);
            }
        }
    }
}

/// The outputs of a block are told one by one unless all its sub-chunks say the same of them.
/// An output is silent in a block if every sub-chunk says so.
pub proof fn law_block_is_silent_if_every_sub_chunk_is(status: BlockStatus, i: int, j: int, ch: int)
    requires
        0 <= i < status.statuses().len(),
        0 <= j < status.statuses().len(),
    ensures
        all_same(status.statuses()) ==> status.statuses()[i] == status.statuses()[j],
        !status.manual() ==> status.statuses()[i] == status.statuses()[j],
        status.manual() ==> exists|k: int|
            0 <= k < status.statuses().len() && #[trigger] status.statuses()[k]
                != status.statuses()[0],
        status.always_silent(ch) ==> says_silent(
            status.statuses()[i],
            status.inputs(),
            status.outputs(),
            ch,
        ),
        !status.always_silent(ch) ==> exists|k: int|
            0 <= k < status.statuses().len() && !says_silent(
                #[trigger] status.statuses()[k],
                status.inputs(),
                status.outputs(),
                ch,
            ),
{
}

proof fn lemma_ids<P>(added: Seq<NodeHeapData<P>>)
    ensures
        ids_of(added).len() == added.len(),
        forall|i: int| 0 <= i < added.len() ==> ids_of(added)[i] == (#[trigger] added[i]).id.0,
{
}

/// The nodes that there are after some were added.
proof fn lemma_with_nodes<P>(processors: Map<u64, P>, added: Seq<NodeHeapData<P>>, k: u64)
    ensures
        with_nodes(processors, added).contains_key(k) <==> processors.contains_key(k) || is_new(
            added,
            k,
        ),
        !is_new(added, k) && processors.contains_key(k) ==> with_nodes(processors, added)[k]
            == processors[k],
    decreases added.len(),
{
    if added.len() > 0 {
        let rest = added.drop_last();
        lemma_with_nodes(processors.insert(added.last().id.0, added.last().processor), rest, k);
        assert(added.last() == added[added.len() - 1]);
        if is_new(rest, k) {
            let i = choose|i: int| 0 <= i < rest.len() && (#[trigger] rest[i]).id.0 == k;
            assert(added[i].id.0 == k);
        }
        if is_new(added, k) && k != added.last().id.0 {
            let i = choose|i: int| 0 <= i < added.len() && (#[trigger] added[i]).id.0 == k;
            assert(rest[i].id.0 == k);
        }
    }
}

/// A node that is added has the processor that was sent, if none is added twice.
proof fn lemma_with_this<P>(processors: Map<u64, P>, added: Seq<NodeHeapData<P>>, i: int)
    requires
        0 <= i < added.len(),
        ids_of(added).no_duplicates(),
    ensures
        with_nodes(processors, added)[added[i].id.0] == added[i].processor,
    decreases added.len(),
{
    let rest = added.drop_last();
    let last = added.last();
    lemma_ids(added);
    lemma_ids(rest);
    assert(ids_of(rest) =~= ids_of(added).drop_last());
    if i < rest.len() {
        lemma_with_this(processors.insert(last.id.0, last.processor), rest, i);
    } else {
        lemma_with_nodes(processors.insert(last.id.0, last.processor), rest, last.id.0);
        if is_new(rest, last.id.0) {
            let j = choose|j: int| 0 <= j < rest.len() && (#[trigger] rest[j]).id.0 == last.id.0;
            assert(ids_of(added)[j] == ids_of(added)[added.len() - 1]);
        }
    }
}

/// The processors that were removed are those of the nodes that there were.
proof fn lemma_removed<P>(processors: Map<u64, P>, ids: Seq<NodeID>, id: NodeID)
    ensures
        ids.contains(id) && processors.contains_key(id.0) ==> removed_from(
            processors,
            ids,
        ).contains(NodeHeapData { id, processor: processors[id.0] }),
        forall|i: int|
            0 <= i < removed_from(processors, ids).len() ==> ids.contains(
                (#[trigger] removed_from(processors, ids)[i]).id,
            ) && processors.contains_key(removed_from(processors, ids)[i].id.0) && removed_from(
                processors,
                ids,
            )[i].processor == processors[removed_from(processors, ids)[i].id.0],
        forall|i: int, j: int|
            0 <= i < j < removed_from(processors, ids).len() ==> (#[trigger] removed_from(
                processors,
                ids,
            )[i]).id != (#[trigger] removed_from(processors, ids)[j]).id,
    decreases ids.len(),
{
    if ids.len() > 0 {
        let rest = ids.drop_last();
        let before = removed_from(processors, rest);
        let all = removed_from(processors, ids);
        lemma_removed(processors, rest, id);
        assert(ids.last() == ids[ids.len() - 1]);
        assert forall|i: int| 0 <= i < before.len() implies ids.contains(
            (#[trigger] before[i]).id,
        ) by {
            assert(rest.contains(before[i].id));
            let n = rest.index_of(before[i].id);
            assert(ids[n] == before[i].id);
        }
        if ids.contains(id) && processors.contains_key(id.0) {
            let data = NodeHeapData { id, processor: processors[id.0] };
            if rest.contains(id) {
                let n = before.index_of(data);
                assert(all[n] == data);
            } else {
                let n = ids.index_of(id);
                assert(n == ids.len() - 1) by {
                    if n < rest.len() {
                        assert(rest[n] == id);
                    }
                }
                assert(all[before.len() as int] == data);
            }
        }
    }
}

proof fn lemma_kept_by_filter<E>(pending: Seq<(i64, NodeEvent<E>)>, ids: Set<u64>)
    ensures
        pending.filter(
            EventFilter::MissingNodes.keeps(ids),
        ) == pending.filter(|x: (i64, NodeEvent<E>)| ids.contains(x.1.node_id.0)),
    decreases pending.len(),
{
    reveal(Seq::filter);
    if pending.len() > 0 {
        lemma_kept_by_filter(pending.drop_last(), ids);
    }
}

} // verus!
