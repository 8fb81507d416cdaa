//! What a block hands out to its nodes, and when.

use crate::event::NodeEvent;
use crate::processor::event_scheduler::{
    chunk_plan, events_for, events_in, follows_plan, for_node, in_time_order, is_for, leading,
    splits_at, EventBufferFull,
};
use crate::processor::inner::{
    block_processed, node_block_ok, node_plan, plan_overflows, NodeBlock, ProcessorView,
};
use crate::processor::laws::law_sub_chunks_partition_block;
use crate::processor::BufferOutOfSpaceMode;
use vstd::prelude::*;

verus! {

/// What processing a block is known to have done: the pending events were split at the end of
/// the block, and the blocks of its nodes were planned.
pub open spec fn block_done<P, E>(
    before: ProcessorView<P, E>,
    frames: usize,
    clock: i64,
    elapsed: Seq<(i64, NodeEvent<E>)>,
    after: ProcessorView<P, E>,
    blocks: Vec<NodeBlock<E>>,
) -> bool {
    &&& before.schedule is Some
    &&& 0 < frames
    &&& clock + frames <= i64::MAX
    &&& splits_at(
        before.events.pending,
        elapsed,
        after.events.pending,
        (clock + frames) as i64,
    )
    &&& block_processed(before, frames as int, clock as int, elapsed, after, Ok(blocks))
}

/// Whether node `n` of the schedule gets an event in a sub-chunk that starts at a frame, or
/// the queue for that sub-chunk is full and events that do not fit are dropped.
pub open spec fn gets_event<P, E>(
    before: ProcessorView<P, E>,
    blocks: Vec<NodeBlock<E>>,
    n: int,
    event: NodeEvent<E>,
    frame: int,
) -> bool {
    exists|c: int|
        0 <= c < blocks@[n].chunks@.len() && (#[trigger] blocks@[n].chunks@[c]).start == frame && (
        blocks@[n].chunks@[c].events@.contains(event) || (before.events.mode
            == BufferOutOfSpaceMode::DropEvents && blocks@[n].chunks@[c].events@.len()
            == before.node_event_capacity))
}

/// A scheduled event happens at its frame: one that is pending at a time before the end of
/// the block reaches its node at the frame of that time, or at the first one if the time has
/// passed.
pub proof fn law_scheduled_event_happens_at_its_frame<P, E>(
    before: ProcessorView<P, E>,
    frames: usize,
    clock: i64,
    elapsed: Seq<(i64, NodeEvent<E>)>,
    after: ProcessorView<P, E>,
    blocks: Vec<NodeBlock<E>>,
    j: int,
    n: int,
)
    requires
        block_done(before, frames, clock, elapsed, after, blocks),
        before.node_event_capacity >= 0,
        0 <= j < before.events.pending.len(),
        before.events.pending[j].0 < clock + frames,
        0 <= n < before.schedule->0.schedule.schedule@.len(),
        before.schedule->0.schedule.schedule@[n].id == before.events.pending[j].1.node_id,
    ensures
        blocks@.len() == before.schedule->0.schedule.schedule@.len(),
        blocks@[n].id == before.events.pending[j].1.node_id,
        gets_event(
            before,
            blocks,
            n,
            before.events.pending[j].1,
            if before.events.pending[j].0 > clock {
                before.events.pending[j].0 - clock
            } else {
                0
            },
        ),
{
    let entry = before.events.pending[j];
    let k = entry.1.node_id.0;
    let order = before.schedule->0.schedule.order();
    assert(order[n] == k);
    let end = (clock + frames) as i64;
    let all = elapsed + after.events.pending;
    assert(before.events.pending.contains(entry));
    vstd::seq_lib::to_multiset_contains(before.events.pending, entry);
    vstd::seq_lib::to_multiset_contains(all, entry);
    let i = all.index_of(entry);
    assert(all[i] == entry);
    if i >= elapsed.len() {
        assert(after.events.pending[i - elapsed.len()] == entry);
    }
    assert(elapsed[i] == entry);
    elapsed.lemma_filter_contains(for_node(k), i);
    let due = elapsed.filter(for_node(k));
    let d = due.index_of(entry);
    assert(due[d] == entry);
    lemma_due(elapsed, after.events.pending, end, k);
    let immediate = events_for(
        before.events.immediate,
        k,
        before.events.immediate.len() as int,
    );
    lemma_chunk_for_event(due, immediate, clock as int, 0, frames as int, d);
    let plan = node_plan(elapsed, before.events.immediate, k, clock as int, frames as int);
    let start = if entry.0 > clock {
        entry.0 - clock
    } else {
        0
    };
    let c = choose|c: int|
        0 <= c < plan.len() && (#[trigger] plan[c]).start == start && plan[c].events.contains(
            entry.1,
        );
    lemma_handed_out(before, frames, clock, elapsed, after, blocks, n, c, entry.1);
}

/// An immediate event happens at once: it reaches its node at the first frame of the block.
pub proof fn law_immediate_event_happens_at_once<P, E>(
    before: ProcessorView<P, E>,
    frames: usize,
    clock: i64,
    elapsed: Seq<(i64, NodeEvent<E>)>,
    after: ProcessorView<P, E>,
    blocks: Vec<NodeBlock<E>>,
    j: int,
    n: int,
)
    requires
        block_done(before, frames, clock, elapsed, after, blocks),
        before.node_event_capacity >= 0,
        0 <= j < before.events.immediate.len(),
        before.events.immediate[j] is Some,
        0 <= n < before.schedule->0.schedule.schedule@.len(),
        before.schedule->0.schedule.schedule@[n].id == before.events.immediate[j]->0.node_id,
    ensures
        blocks@[n].id == before.events.immediate[j]->0.node_id,
        gets_event(before, blocks, n, before.events.immediate[j]->0, 0),
        after.events.immediate.len() == 0,
{
    let event = before.events.immediate[j]->0;
    let k = event.node_id.0;
    let order = before.schedule->0.schedule.order();
    assert(order[n] == k);
    let buffer = before.events.immediate;
    assert(is_for(buffer, j, k));
    lemma_found(buffer, k, buffer.len() as int, j);
    let immediate = events_for(buffer, k, buffer.len() as int);
    let due = elapsed.filter(for_node(k));
    let plan = node_plan(elapsed, buffer, k, clock as int, frames as int);
    assert(plan == chunk_plan(due, immediate, clock as int, 0, frames as int));
    let first = events_in(due.take(leading(due, clock as int)));
    assert(plan[0].events == first + immediate);
    let x = immediate.index_of(event);
    assert(immediate[x] == event);
    assert((first + immediate)[first.len() + x] == event);
    assert(plan[0].start == 0 && plan[0].events.contains(event));
    lemma_handed_out(before, frames, clock, elapsed, after, blocks, n, 0, event);
}

/// An event that is pending at a time after the block stays pending at that time, and one
/// that is pending before its end does not.
pub proof fn law_later_events_stay_pending<P, E>(
    before: ProcessorView<P, E>,
    frames: usize,
    clock: i64,
    elapsed: Seq<(i64, NodeEvent<E>)>,
    after: ProcessorView<P, E>,
    blocks: Vec<NodeBlock<E>>,
    entry: (i64, NodeEvent<E>),
)
    requires
        block_done(before, frames, clock, elapsed, after, blocks),
    ensures
        entry.0 >= clock + frames ==> after.events.pending.to_multiset().count(entry)
            == before.events.pending.to_multiset().count(entry),
        entry.0 < clock + frames ==> !after.events.pending.contains(entry),
{
    let all = elapsed + after.events.pending;
    vstd::seq_lib::lemma_multiset_commutative(elapsed, after.events.pending);
    if entry.0 >= clock + frames {
        if elapsed.contains(entry) {
            let i = elapsed.index_of(entry);
            assert(elapsed[i] == entry);
        }
        vstd::seq_lib::to_multiset_contains(elapsed, entry);
    } else if after.events.pending.contains(entry) {
        let i = after.events.pending.index_of(entry);
        assert(after.events.pending[i] == entry);
    }
}

/// A node gets nothing but its own events: each that is handed out is for the node, and was an
/// immediate one or pending at a time that has come by the frame at which it is handed out.
pub proof fn law_only_own_events_are_handed_out<P, E>(
    before: ProcessorView<P, E>,
    frames: usize,
    clock: i64,
    elapsed: Seq<(i64, NodeEvent<E>)>,
    after: ProcessorView<P, E>,
    blocks: Vec<NodeBlock<E>>,
    n: int,
    c: int,
    x: int,
)
    requires
        block_done(before, frames, clock, elapsed, after, blocks),
        before.node_event_capacity >= 0,
        0 <= n < blocks@.len(),
        0 <= c < blocks@[n].chunks@.len(),
        0 <= x < blocks@[n].chunks@[c].events@.len(),
    ensures
        blocks@[n].id == before.schedule->0.schedule.schedule@[n].id,
        ({
            let event = blocks@[n].chunks@[c].events@[x];
            &&& event.node_id == blocks@[n].id
            &&& before.events.immediate.contains(Some(event)) || exists|t: i64|
                #[trigger] before.events.pending.contains((t, event)) && t <= clock
                    + blocks@[n].chunks@[c].start
        }),
{
    let order = before.schedule->0.schedule.order();
    let k = order[n];
    assert(before.schedule->0.schedule.schedule@[n].id.0 == k);
    let buffer = before.events.immediate;
    let plan = node_plan(elapsed, buffer, k, clock as int, frames as int);
    assert(node_block_ok(
        blocks@[n],
        k,
        plan,
        before.events.mode,
        before.node_event_capacity,
    ));
    let chunk = blocks@[n].chunks@[c];
    assert(follows_plan(chunk, plan[c], before.events.mode, before.node_event_capacity));
    let event = chunk.events@[x];
    assert(plan[c].events[x] == event);
    let due = elapsed.filter(for_node(k));
    let immediate = events_for(buffer, k, buffer.len() as int);
    lemma_origin(due, immediate, clock as int, 0, frames as int, c, x);
    if exists|d: int| 0 <= d < due.len() && (#[trigger] due[d]).1 == event && due[d].0 <= clock
        + plan[c].start {
        let d = choose|d: int|
            0 <= d < due.len() && (#[trigger] due[d]).1 == event && due[d].0 <= clock
                + plan[c].start;
        elapsed.lemma_filter_contains_rev(for_node(k), due[d]);
        elapsed.lemma_filter_pred(for_node(k), d);
        let all = elapsed + after.events.pending;
        let i = elapsed.index_of(due[d]);
        assert(all[i] == due[d]);
        vstd::seq_lib::to_multiset_contains(all, due[d]);
        vstd::seq_lib::to_multiset_contains(before.events.pending, due[d]);
        assert(before.events.pending.contains((due[d].0, event)));
    } else {
        let y = choose|y: int| 0 <= y < immediate.len() && #[trigger] immediate[y] == event;
        lemma_from_buffer(buffer, k, buffer.len() as int, y);
    }
}

/// The sub-chunks of a node cover the block without a gap and without an overlap, none is
/// empty, and the time of each is that of its first frame. No queue of a sub-chunk holds more
/// events than there is room for, unless it may grow.
pub proof fn law_sub_chunks_cover_block<P, E>(
    before: ProcessorView<P, E>,
    frames: usize,
    clock: i64,
    elapsed: Seq<(i64, NodeEvent<E>)>,
    after: ProcessorView<P, E>,
    blocks: Vec<NodeBlock<E>>,
    n: int,
)
    requires
        block_done(before, frames, clock, elapsed, after, blocks),
        before.node_event_capacity >= 0,
        0 <= n < blocks@.len(),
    ensures
        blocks@.len() == before.schedule->0.schedule.schedule@.len(),
        ({
            let chunks = blocks@[n].chunks@;
            &&& chunks.len() > 0
            &&& chunks[0].start == 0
            &&& chunks.last().end == frames
            &&& forall|c: int|
                0 <= c < chunks.len() ==> (#[trigger] chunks[c]).start < chunks[c].end
                    && chunks[c].clock_samples.0 == clock + chunks[c].start
            &&& forall|c: int|
                0 < c < chunks.len() ==> (#[trigger] chunks[c]).start == chunks[c - 1].end
            &&& before.events.mode != BufferOutOfSpaceMode::AllocateOnAudioThread ==> forall|
                c: int,
            |
                0 <= c < chunks.len() ==> (#[trigger] chunks[c]).events@.len()
                    <= before.node_event_capacity
        }),
        after.processors == before.processors,
        after.schedule == before.schedule,
        after.clock == before.clock,
        after.hard_clip == before.hard_clip,
        after.poisoned == before.poisoned,
{
    let order = before.schedule->0.schedule.order();
    let k = order[n];
    let buffer = before.events.immediate;
    let plan = node_plan(elapsed, buffer, k, clock as int, frames as int);
    let mode = before.events.mode;
    let limit = before.node_event_capacity;
    assert(node_block_ok(blocks@[n], k, plan, mode, limit));
    let due = elapsed.filter(for_node(k));
    let immediate = events_for(buffer, k, buffer.len() as int);
    law_sub_chunks_partition_block(due, immediate, clock as int, 0, frames as int);
    let chunks = blocks@[n].chunks@;
    assert forall|c: int| 0 <= c < chunks.len() implies follows_plan(
        #[trigger] chunks[c],
        plan[c],
        mode,
        limit,
    ) && plan[c].start < plan[c].end && plan[c].clock == clock + plan[c].start && (mode
        == BufferOutOfSpaceMode::Panic ==> plan[c].events.len() <= limit) by {
        assert(plan[c].start < plan[c].end);
    }
    assert forall|c: int| 0 < c < chunks.len() implies (#[trigger] chunks[c]).start == chunks[c
        - 1].end by {
        assert(follows_plan(chunks[c - 1], plan[c - 1], mode, limit));
        assert(plan[c].start == plan[c - 1].end);
    }
    assert(follows_plan(chunks[0], plan[0], mode, limit));
    assert(follows_plan(chunks.last(), plan.last(), mode, limit));
}

/// What is planned for a sub-chunk is handed out, unless the queue is full.
proof fn lemma_handed_out<P, E>(
    before: ProcessorView<P, E>,
    frames: usize,
    clock: i64,
    elapsed: Seq<(i64, NodeEvent<E>)>,
    after: ProcessorView<P, E>,
    blocks: Vec<NodeBlock<E>>,
    n: int,
    c: int,
    event: NodeEvent<E>,
)
    requires
        block_done(before, frames, clock, elapsed, after, blocks),
        before.node_event_capacity >= 0,
        0 <= n < before.schedule->0.schedule.order().len(),
        ({
            let k = before.schedule->0.schedule.order()[n];
            let plan = node_plan(elapsed, before.events.immediate, k, clock as int, frames as int);
            0 <= c < plan.len() && plan[c].events.contains(event)
        }),
    ensures
        ({
            let k = before.schedule->0.schedule.order()[n];
            let plan = node_plan(elapsed, before.events.immediate, k, clock as int, frames as int);
            &&& blocks@[n].id.0 == k
            &&& gets_event(before, blocks, n, event, plan[c].start)
        }),
{
    let k = before.schedule->0.schedule.order()[n];
    let plan = node_plan(elapsed, before.events.immediate, k, clock as int, frames as int);
    let mode = before.events.mode;
    let limit = before.node_event_capacity;
    assert(node_block_ok(blocks@[n], k, plan, mode, limit));
    assert(follows_plan(blocks@[n].chunks@[c], plan[c], mode, limit));
}

/// What is due for a node is in time order, and before the end.
proof fn lemma_due<E>(
    elapsed: Seq<(i64, NodeEvent<E>)>,
    rest: Seq<(i64, NodeEvent<E>)>,
    end: i64,
    k: u64,
)
    requires
        in_time_order(elapsed + rest),
        forall|i: int| 0 <= i < elapsed.len() ==> (#[trigger] elapsed[i]).0 < end,
    ensures
        in_time_order(elapsed.filter(for_node(k))),
        forall|i: int|
            0 <= i < elapsed.filter(for_node(k)).len() ==> (#[trigger] elapsed.filter(
                for_node(k),
            )[i]).0 < end,
    decreases elapsed.len(),
{
    reveal(Seq::filter);
    if elapsed.len() > 0 {
        let fewer = elapsed.drop_last();
        let last = elapsed.last();
        assert forall|i: int, j: int| 0 <= i <= j < (fewer + seq![last] + rest).len() implies (
        #[trigger] (fewer + seq![last] + rest)[i]).0 <= (#[trigger] (fewer + seq![last]
            + rest)[j]).0 by {
            assert((fewer + seq![last] + rest)[i] == (elapsed + rest)[i]);
            assert((fewer + seq![last] + rest)[j] == (elapsed + rest)[j]);
        }
        assert forall|i: int, j: int| 0 <= i <= j < (fewer + rest).len() implies (
        #[trigger] (fewer + rest)[i]).0 <= (#[trigger] (fewer + rest)[j]).0 by {
            let a = if i < fewer.len() {
                i
            } else {
                i + 1
            };
            let b = if j < fewer.len() {
                j
            } else {
                j + 1
            };
            assert((fewer + rest)[i] == (elapsed + rest)[a]);
            assert((fewer + rest)[j] == (elapsed + rest)[b]);
        }
        assert forall|i: int| 0 <= i < fewer.len() implies (#[trigger] fewer[i]).0 < end by {
            assert(fewer[i] == elapsed[i]);
        }
        lemma_due(fewer, rest, end, k);
        let f = fewer.filter(for_node(k));
        assert forall|i: int| 0 <= i < f.len() implies (#[trigger] f[i]).0 <= last.0 by {
            fewer.lemma_filter_contains_rev(for_node(k), f[i]);
            let j = fewer.index_of(f[i]);
            assert((elapsed + rest)[j] == f[i]);
            assert((elapsed + rest)[elapsed.len() - 1] == last);
        }
        assert(elapsed[elapsed.len() - 1].0 < end);
    }
}

/// An event that is due is planned for the sub-chunk that starts at its frame.
proof fn lemma_chunk_for_event<E>(
    due: Seq<(i64, NodeEvent<E>)>,
    immediate: Seq<NodeEvent<E>>,
    clock: int,
    frame: int,
    total: int,
    d: int,
)
    requires
        frame < total,
        in_time_order(due),
        forall|i: int| 0 <= i < due.len() ==> (#[trigger] due[i]).0 < clock + (total - frame),
        0 <= d < due.len(),
    ensures
        exists|c: int|
            0 <= c < chunk_plan(due, immediate, clock, frame, total).len() && (
            #[trigger] chunk_plan(due, immediate, clock, frame, total)[c]).start == frame + (
            if due[d].0 > clock {
                due[d].0 - clock
            } else {
                0
            }) && chunk_plan(due, immediate, clock, frame, total)[c].events.contains(due[d].1),
    decreases total - frame,
{
    let plan = chunk_plan(due, immediate, clock, frame, total);
    let m = leading(due, clock);
    lemma_leading_bounds(due, clock);
    let rest = due.skip(m);
    if d < m {
        let first = events_in(due.take(m));
        assert(first[d] == due[d].1);
        assert((first + immediate)[d] == due[d].1);
        assert(plan[0].events.contains(due[d].1));
    } else {
        assert(rest[0] == due[m]);
        let frames = rest[0].0 - clock;
        assert forall|i: int| 0 <= i < rest.len() implies (#[trigger] rest[i]).0 < clock + frames
            + (total - (frame + frames)) by {
            assert(rest[i] == due[m + i]);
        }
        assert(in_time_order(rest));
        assert(rest[d - m] == due[d]);
        assert(due[m].0 <= due[d].0);
        let none = Seq::<NodeEvent<E>>::empty();
        lemma_chunk_for_event(rest, none, clock + frames, frame + frames, total, d - m);
        let tail = chunk_plan(rest, none, clock + frames, frame + frames, total);
        let c = choose|c: int|
            0 <= c < tail.len() && (#[trigger] tail[c]).start == frame + frames + (if rest[d
                - m].0 > clock + frames {
                rest[d - m].0 - (clock + frames)
            } else {
                0
            }) && tail[c].events.contains(rest[d - m].1);
        assert(plan[c + 1] == tail[c]);
    }
}

/// The leading events are those by a time, up to the first one after it.
proof fn lemma_leading_bounds<E>(due: Seq<(i64, NodeEvent<E>)>, clock: int)
    ensures
        0 <= leading(due, clock) <= due.len(),
        forall|i: int| 0 <= i < leading(due, clock) ==> (#[trigger] due[i]).0 <= clock,
        leading(due, clock) < due.len() ==> due[leading(due, clock)].0 > clock,
    decreases due.len(),
{
    if due.len() > 0 && due[0].0 <= clock {
        lemma_leading_bounds(due.drop_first(), clock);
        let m = leading(due.drop_first(), clock);
        assert forall|i: int| 0 <= i < m + 1 implies (#[trigger] due[i]).0 <= clock by {
            if i > 0 {
                assert(due.drop_first()[i - 1] == due[i]);
            }
        }
    }
}

/// What is planned was due by then, or is an immediate event.
proof fn lemma_origin<E>(
    due: Seq<(i64, NodeEvent<E>)>,
    immediate: Seq<NodeEvent<E>>,
    clock: int,
    frame: int,
    total: int,
    c: int,
    x: int,
)
    requires
        frame < total,
        0 <= c < chunk_plan(due, immediate, clock, frame, total).len(),
        0 <= x < chunk_plan(due, immediate, clock, frame, total)[c].events.len(),
    ensures
        ({
            let chunk = chunk_plan(due, immediate, clock, frame, total)[c];
            ||| exists|d: int|
                0 <= d < due.len() && (#[trigger] due[d]).1 == chunk.events[x] && due[d].0 <= clock
                    + (chunk.start - frame)
            ||| exists|y: int|
                0 <= y < immediate.len() && #[trigger] immediate[y] == chunk.events[x]
        }),
    decreases total - frame,
{
    let plan = chunk_plan(due, immediate, clock, frame, total);
    let m = leading(due, clock);
    lemma_leading_bounds(due, clock);
    let rest = due.skip(m);
    let first = events_in(due.take(m));
    if c == 0 {
        if x < m {
            assert(plan[0].events[x] == first[x]);
            assert(due[x].1 == plan[0].events[x] && due[x].0 <= clock);
        } else {
            assert(plan[0].events[x] == immediate[x - m]);
        }
    } else {
        let frames = if rest.len() > 0 && clock < rest[0].0 < clock + total - frame {
            rest[0].0 - clock
        } else {
            total - frame
        };
        let none = Seq::<NodeEvent<E>>::empty();
        let tail = chunk_plan(rest, none, clock + frames, frame + frames, total);
        assert(plan[c] == tail[c - 1]);
        if frame + frames < total {
            lemma_origin(rest, none, clock + frames, frame + frames, total, c - 1, x);
            let d = choose|d: int|
                0 <= d < rest.len() && (#[trigger] rest[d]).1 == tail[c - 1].events[x] && rest[d].0
                    <= clock + frames + (tail[c - 1].start - (frame + frames));
            assert(due[m + d] == rest[d]);
        }
    }
}

/// An event in a buffer is among those of its node.
proof fn lemma_found<E>(buffer: Seq<Option<NodeEvent<E>>>, k: u64, n: int, j: int)
    requires
        0 <= j < n <= buffer.len(),
        is_for(buffer, j, k),
    ensures
        events_for(buffer, k, n).contains(buffer[j]->0),
    decreases n,
{
    let fewer = events_for(buffer, k, n - 1);
    if j == n - 1 {
        assert(fewer.push(buffer[j]->0)[fewer.len() as int] == buffer[j]->0);
    } else {
        lemma_found(buffer, k, n - 1, j);
        let i = fewer.index_of(buffer[j]->0);
        assert(events_for(buffer, k, n)[i] == buffer[j]->0);
    }
}

/// The events of a node in a buffer are in it, and for that node.
proof fn lemma_from_buffer<E>(buffer: Seq<Option<NodeEvent<E>>>, k: u64, n: int, y: int)
    requires
        0 <= n <= buffer.len(),
        0 <= y < events_for(buffer, k, n).len(),
    ensures
        buffer.contains(Some(events_for(buffer, k, n)[y])),
        events_for(buffer, k, n)[y].node_id.0 == k,
    decreases n,
{
    let fewer = events_for(buffer, k, n - 1);
    if y < fewer.len() {
        lemma_from_buffer(buffer, k, n - 1, y);
    } else {
        assert(buffer[n - 1] == Some(events_for(buffer, k, n)[y]));
    }
}

/// A block fails only where too many events are told to be an error, and a node of the
/// schedule has more of them in this block than there is room for.
pub proof fn law_block_fails_only_where_a_queue_is_full<P, E>(
    before: ProcessorView<P, E>,
    frames: int,
    clock: int,
    elapsed: Seq<(i64, NodeEvent<E>)>,
    after: ProcessorView<P, E>,
    result: Result<Vec<NodeBlock<E>>, EventBufferFull>,
)
    requires
        0 < frames,
        block_processed(before, frames, clock, elapsed, after, result),
        before.events.mode != BufferOutOfSpaceMode::Panic || forall|n: int|
            0 <= n < before.schedule->0.schedule.schedule@.len() ==> {
                let id = (#[trigger] before.schedule->0.schedule.schedule@[n]).id;
                elapsed.filter(|x: (i64, NodeEvent<E>)| x.1.node_id.0 == id.0).len()
                    + before.events.immediate.filter(
                    |x: Option<NodeEvent<E>>| x is Some && x->0.node_id.0 == id.0,
                ).len() <= before.node_event_capacity
            },
    ensures
        result is Ok,
{
    if result is Err {
        let order = before.schedule->0.schedule.order();
        let buffer = before.events.immediate;
        let i = choose|i: int|
            0 <= i < order.len() && plan_overflows(
                node_plan(elapsed, buffer, #[trigger] order[i], clock, frames),
                before.node_event_capacity,
            );
        let k = order[i];
        assert(before.schedule->0.schedule.schedule@[i].id.0 == k);
        let plan = node_plan(elapsed, buffer, k, clock, frames);
        let c = choose|c: int|
            0 <= c < plan.len() && (#[trigger] plan[c]).events.len() > before.node_event_capacity;
        let due = elapsed.filter(for_node(k));
        let immediate = events_for(buffer, k, buffer.len() as int);
        lemma_chunk_is_part(due, immediate, clock, 0, frames, c);
        lemma_same_filter(elapsed, k);
        lemma_immediate_count(buffer, k, buffer.len() as int);
        assert(buffer.take(buffer.len() as int) =~= buffer);
    }
}

/// A block that fails is one in which too many events are told to be an error, and after it
/// the audio thread is not used again.
pub proof fn law_failed_block_is_the_last<P, E>(
    before: ProcessorView<P, E>,
    frames: int,
    clock: int,
    elapsed: Seq<(i64, NodeEvent<E>)>,
    after: ProcessorView<P, E>,
    error: EventBufferFull,
)
    requires
        block_processed(before, frames, clock, elapsed, after, Err(error)),
    ensures
        after.poisoned,
        before.events.mode == BufferOutOfSpaceMode::Panic,
{
}

/// A sub-chunk has no more events than there are.
proof fn lemma_chunk_is_part<E>(
    due: Seq<(i64, NodeEvent<E>)>,
    immediate: Seq<NodeEvent<E>>,
    clock: int,
    frame: int,
    total: int,
    c: int,
)
    requires
        frame < total,
        0 <= c < chunk_plan(due, immediate, clock, frame, total).len(),
    ensures
        chunk_plan(due, immediate, clock, frame, total)[c].events.len() <= due.len()
            + immediate.len(),
    decreases total - frame,
{
    let plan = chunk_plan(due, immediate, clock, frame, total);
    let m = leading(due, clock);
    lemma_leading_bounds(due, clock);
    let rest = due.skip(m);
    if c > 0 {
        let frames = if rest.len() > 0 && clock < rest[0].0 < clock + total - frame {
            rest[0].0 - clock
        } else {
            total - frame
        };
        let none = Seq::<NodeEvent<E>>::empty();
        let tail = chunk_plan(rest, none, clock + frames, frame + frames, total);
        assert(plan[c] == tail[c - 1]);
        if frame + frames < total {
            lemma_chunk_is_part(rest, none, clock + frames, frame + frames, total, c - 1);
        }
    }
}

proof fn lemma_same_filter<E>(elapsed: Seq<(i64, NodeEvent<E>)>, k: u64)
    ensures
        elapsed.filter(for_node(k)) == elapsed.filter(
            |x: (i64, NodeEvent<E>)| x.1.node_id.0 == k,
        ),
    decreases elapsed.len(),
{
    reveal(Seq::filter);
    if elapsed.len() > 0 {
        lemma_same_filter(elapsed.drop_last(), k);
    }
}

proof fn lemma_immediate_count<E>(buffer: Seq<Option<NodeEvent<E>>>, k: u64, n: int)
    requires
        0 <= n <= buffer.len(),
    ensures
        events_for(buffer, k, n).len() == buffer.take(n).filter(
            |x: Option<NodeEvent<E>>| x is Some && x->0.node_id.0 == k,
        ).len(),
    decreases n,
{
    reveal(Seq::filter);
    if n > 0 {
        lemma_immediate_count(buffer, k, n - 1);
        assert(buffer.take(n).drop_last() =~= buffer.take(n - 1));
        assert(buffer.take(n).last() == buffer[n - 1]);
        assert(is_for(buffer, n - 1, k) <==> buffer[n - 1] is Some && buffer[n - 1]->0.node_id.0
            == k);
    }
}

} // verus!
