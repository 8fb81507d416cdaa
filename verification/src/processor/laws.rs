//! What holds of the events and the outputs of a block as a whole.

use crate::event::NodeEvent;
use crate::mask::SilenceMask;
use crate::node::ProcessStatus;
use crate::processor::event_scheduler::{
    chunk_plan, clear_all, events_in, in_time_order, leading, lemma_filter_all, lemma_leading_all,
    ChunkPlan, EventFilter,
};
use crate::processor::inner::BlockLoop;
use crate::processor::process::{meant, says_silent};
use crate::processor::sub_chunks::{delivered, in_chunk, statuses_of, SubChunkRun};
use crate::processor::ClearScheduledEventsEvent;
use vstd::prelude::*;

verus! {

/// The events of all sub-chunks, one sub-chunk after the other.
pub open spec fn planned_events<E>(plan: Seq<ChunkPlan<E>>) -> Seq<NodeEvent<E>>
    decreases plan.len(),
{
    if plan.len() == 0 {
        Seq::empty()
    } else {
        plan[0].events + planned_events(plan.drop_first())
    }
}

/// The scheduled events at exactly a time.
pub open spec fn events_at<E>(due: Seq<(i64, NodeEvent<E>)>, time: int) -> Seq<NodeEvent<E>> {
    events_in(due.filter(happens_at(time)))
}

/// The scheduled events at a time or before it.
pub open spec fn events_by<E>(due: Seq<(i64, NodeEvent<E>)>, time: int) -> Seq<NodeEvent<E>> {
    events_in(due.filter(happens_by(time)))
}

/// Whether a scheduled event is at exactly a time.
pub open spec fn happens_at<E>(time: int) -> spec_fn((i64, NodeEvent<E>)) -> bool {
    |x: (i64, NodeEvent<E>)| x.0 == time
}

/// Whether a scheduled event is at a time or before it.
pub open spec fn happens_by<E>(time: int) -> spec_fn((i64, NodeEvent<E>)) -> bool {
    |x: (i64, NodeEvent<E>)| x.0 <= time
}

/// The sub-chunks of a block cover its frames without a gap and without an
/// overlap, none of them is empty, and the time of each is the time of the block
/// plus the frames before it.
pub proof fn law_sub_chunks_partition_block<E>(
    due: Seq<(i64, NodeEvent<E>)>,
    immediate: Seq<NodeEvent<E>>,
    clock: int,
    frame: int,
    total: int,
)
    requires
        frame < total,
    ensures
        ({
            let plan = chunk_plan(due, immediate, clock, frame, total);
            &&& plan.len() > 0
            &&& plan[0].start == frame
            &&& plan.last().end == total
            &&& forall|i: int|
                0 <= i < plan.len() ==> (#[trigger] plan[i]).start < plan[i].end && plan[i].clock
                    == clock + (plan[i].start - frame)
            &&& forall|i: int|
                0 < i < plan.len() ==> (#[trigger] plan[i]).start == plan[i - 1].end
        }),
    decreases total - frame,
{
    let plan = chunk_plan(due, immediate, clock, frame, total);
    let m = leading(due, clock);
    let rest = due.skip(m);
    let end = plan[0].end;
    let frames = end - frame;
    let tail = chunk_plan(rest, Seq::empty(), clock + frames, end, total);
    assert(plan.drop_first() =~= tail);
    assert forall|i: int| 0 < i < plan.len() implies plan[i] == tail[i - 1] by {
        assert(plan.drop_first()[i - 1] == plan[i]);
    }
    if end < total {
        law_sub_chunks_partition_block(rest, Seq::empty(), clock + frames, end, total);
        assert(plan.last() == tail.last());
        assert forall|i: int| 0 < i < plan.len() implies (#[trigger] plan[i]).start == plan[i
            - 1].end by {
            assert(plan[i] == tail[i - 1]);
            if i > 1 {
                assert(plan[i - 1] == tail[i - 2]);
            }
        }
        assert forall|i: int| 0 <= i < plan.len() implies (#[trigger] plan[i]).start < plan[i].end
            && plan[i].clock == clock + (plan[i].start - frame) by {
            if i > 0 {
                assert(plan[i] == tail[i - 1]);
            }
        }
    }
}

/// Every event of a block is handed out exactly once: those due by its first
/// frame, then the immediate ones, then the others, each group in order.
pub proof fn law_every_event_is_handed_out_once<E>(
    due: Seq<(i64, NodeEvent<E>)>,
    immediate: Seq<NodeEvent<E>>,
    clock: int,
    frame: int,
    total: int,
)
    requires
        frame < total,
        in_time_order(due),
        forall|i: int| 0 <= i < due.len() ==> (#[trigger] due[i]).0 < clock + (total - frame),
    ensures
        planned_events(chunk_plan(due, immediate, clock, frame, total)) == events_in(
            due.take(leading(due, clock)),
        ) + immediate + events_in(due.skip(leading(due, clock))),
    decreases total - frame,
{
    let plan = chunk_plan(due, immediate, clock, frame, total);
    let m = leading(due, clock);
    let rest = due.skip(m);
    let end = plan[0].end;
    let frames = end - frame;
    let tail = chunk_plan(rest, Seq::empty(), clock + frames, end, total);
    assert(plan.drop_first() =~= tail);
    lemma_leading_all(due, clock);
    if end < total {
        assert forall|i: int| 0 <= i < rest.len() implies (#[trigger] rest[i]).0 < clock + frames
            + (total - end) by {
            assert(rest[i] == due[m + i]);
        }
        assert(in_time_order(rest)) by {
            assert forall|i: int, j: int| 0 <= i <= j < rest.len() implies (#[trigger] rest[i]).0
                <= (#[trigger] rest[j]).0 by {
                assert(rest[i] == due[m + i] && rest[j] == due[m + j]);
            }
        }
        law_every_event_is_handed_out_once(rest, Seq::empty(), clock + frames, end, total);
        let n = leading(rest, clock + frames);
        lemma_leading_all(rest, clock + frames);
        assert(events_in(rest.take(n)) + Seq::<NodeEvent<E>>::empty() + events_in(rest.skip(n))
            =~= events_in(rest));
    } else {
        if rest.len() > 0 {
            assert(rest[0] == due[m]);
            assert(due[m].0 > clock);
        }
        assert(events_in(rest) =~= Seq::<NodeEvent<E>>::empty());
        assert(planned_events(tail) =~= Seq::<NodeEvent<E>>::empty());
    }
    assert(planned_events(plan) =~= plan[0].events + planned_events(tail));
}

/// Scheduled events are handed out at the frame at which they happen: the first
/// sub-chunk has those that are due by its first frame, followed by the immediate
/// ones, and every other sub-chunk has exactly those at the time of its first
/// frame.
pub proof fn law_events_are_sample_accurate<E>(
    due: Seq<(i64, NodeEvent<E>)>,
    immediate: Seq<NodeEvent<E>>,
    clock: int,
    frame: int,
    total: int,
)
    requires
        frame < total,
        in_time_order(due),
        forall|i: int| 0 <= i < due.len() ==> (#[trigger] due[i]).0 < clock + (total - frame),
    ensures
        ({
            let plan = chunk_plan(due, immediate, clock, frame, total);
            &&& plan[0].events == events_by(due, clock) + immediate
            &&& forall|i: int|
                0 < i < plan.len() ==> (#[trigger] plan[i]).events == events_at(due, plan[i].clock)
        }),
    decreases total - frame,
{
    let plan = chunk_plan(due, immediate, clock, frame, total);
    let m = leading(due, clock);
    let rest = due.skip(m);
    let end = plan[0].end;
    let frames = end - frame;
    let tail = chunk_plan(rest, Seq::empty(), clock + frames, end, total);
    assert(plan.drop_first() =~= tail);
    lemma_leading_all(due, clock);
    lemma_by_is_leading(due, clock);
    if end < total {
        assert(rest.len() > 0 && rest[0] == due[m]);
        assert forall|i: int| 0 <= i < rest.len() implies (#[trigger] rest[i]).0 < clock + frames
            + (total - end) by {
            assert(rest[i] == due[m + i]);
        }
        assert(in_time_order(rest)) by {
            assert forall|i: int, j: int| 0 <= i <= j < rest.len() implies (#[trigger] rest[i]).0
                <= (#[trigger] rest[j]).0 by {
                assert(rest[i] == due[m + i] && rest[j] == due[m + j]);
            }
        }
        law_events_are_sample_accurate(rest, Seq::empty(), clock + frames, end, total);
        law_sub_chunks_partition_block(rest, Seq::empty(), clock + frames, end, total);
        assert forall|i: int| 0 < i < plan.len() implies (#[trigger] plan[i]).events == events_at(
            due,
            plan[i].clock,
        ) by {
            assert(plan.drop_first()[i - 1] == plan[i]);
            assert(plan[i] == tail[i - 1]);
            let t = plan[i].clock;
            assert(tail[i - 1].start < tail[i - 1].end);
            lemma_starts_after(tail, i - 1);
            assert(t >= clock + frames);
            lemma_at_skips(due, m, t);
            if i == 1 {
                assert forall|j: int| 0 <= j < rest.len() implies rest[0].0 <= (
                #[trigger] rest[j]).0 by {
                    assert(in_time_order(rest));
                }
                lemma_by_is_at(rest, t);
                assert(plan[i].events =~= events_by(rest, t));
            }
        }
    }
}

/// A sub-chunk of a plan does not start before the first one.
proof fn lemma_starts_after<E>(plan: Seq<ChunkPlan<E>>, i: int)
    requires
        0 <= i < plan.len(),
        forall|j: int| 0 <= j < plan.len() ==> (#[trigger] plan[j]).start < plan[j].end,
        forall|j: int| 0 < j < plan.len() ==> (#[trigger] plan[j]).start == plan[j - 1].end,
    ensures
        plan[i].start >= plan[0].start,
    decreases i,
{
    if i > 0 {
        lemma_starts_after(plan, i - 1);
        assert(plan[i].start == plan[i - 1].end);
        assert(plan[i - 1].start < plan[i - 1].end);
    }
}

proof fn lemma_filter_none<A>(s: Seq<A>, p: spec_fn(A) -> bool)
    requires
        forall|i: int| 0 <= i < s.len() ==> !p(#[trigger] s[i]),
    ensures
        s.filter(p) == Seq::<A>::empty(),
    decreases s.len(),
{
    reveal(Seq::filter);
    if s.len() > 0 {
        lemma_filter_none(s.drop_last(), p);
    }
}

/// The events at the start of an ordered list that happen by a time are all of
/// them.
proof fn lemma_by_is_leading<E>(due: Seq<(i64, NodeEvent<E>)>, clock: int)
    requires
        in_time_order(due),
    ensures
        due.take(leading(due, clock)) == due.filter(happens_by(clock)),
{
    let m = leading(due, clock);
    lemma_leading_all(due, clock);
    let a = due.take(m);
    let b = due.skip(m);
    assert(due =~= a + b);
    Seq::filter_distributes_over_add(a, b, happens_by(clock));
    lemma_filter_all(a, happens_by(clock));
    assert forall|i: int| 0 <= i < b.len() implies !happens_by::<E>(clock)(#[trigger] b[i]) by {
        assert(b[i] == due[m + i]);
        assert(due[m].0 <= due[m + i].0);
    }
    lemma_filter_none(b, happens_by(clock));
    assert(a + Seq::<(i64, NodeEvent<E>)>::empty() =~= a);
}

/// Events that are over do not happen later.
proof fn lemma_at_skips<E>(due: Seq<(i64, NodeEvent<E>)>, m: int, time: int)
    requires
        0 <= m <= due.len(),
        forall|j: int| 0 <= j < m ==> (#[trigger] due[j]).0 < time,
    ensures
        events_at(due.skip(m), time) == events_at(due, time),
{
    let a = due.take(m);
    let b = due.skip(m);
    assert(due =~= a + b);
    Seq::filter_distributes_over_add(a, b, happens_at(time));
    assert forall|i: int| 0 <= i < a.len() implies !happens_at::<E>(time)(#[trigger] a[i]) by {
        assert(a[i] == due[i]);
    }
    lemma_filter_none(a, happens_at(time));
    assert(Seq::<(i64, NodeEvent<E>)>::empty() + b.filter(happens_at(time)) =~= b.filter(
        happens_at(time),
    ));
}

/// Where no event is before a time, those by then are those at that time.
proof fn lemma_by_is_at<E>(due: Seq<(i64, NodeEvent<E>)>, time: int)
    requires
        forall|j: int| 0 <= j < due.len() ==> (#[trigger] due[j]).0 >= time,
    ensures
        events_by(due, time) == events_at(due, time),
{
    lemma_filter_same(due, happens_by(time), happens_at(time));
}

proof fn lemma_filter_same<A>(s: Seq<A>, p: spec_fn(A) -> bool, q: spec_fn(A) -> bool)
    requires
        forall|i: int| 0 <= i < s.len() ==> p(#[trigger] s[i]) == q(s[i]),
    ensures
        s.filter(p) == s.filter(q),
    decreases s.len(),
{
    reveal(Seq::filter);
    if s.len() > 0 {
        lemma_filter_same(s.drop_last(), p, q);
    }
}

/// Silence flags can be relied on: where the nodes flag an output channel as
/// silent only in sub-chunks in which it is, the block flags it as silent only if
/// all of its frames are.
pub proof fn law_silence_flags_are_sound<S>(
    runs: Seq<SubChunkRun<S>>,
    ends: Seq<usize>,
    block_status: ProcessStatus,
    in_silence_mask: SilenceMask,
    num_outputs: int,
    c: int,
    input: Option<Seq<S>>,
    silence: S,
    output: Seq<S>,
)
    requires
        delivered(runs, ends, input, silence, c, output),
        says_silent(block_status, in_silence_mask, num_outputs, c) <==> forall|i: int|
            0 <= i < statuses_of(runs).len() ==> says_silent(
                #[trigger] statuses_of(runs)[i],
                in_silence_mask,
                num_outputs,
                c,
            ),
        forall|i: int, f: int|
            0 <= i < runs.len() && #[trigger] in_chunk(ends, i, f) && says_silent(
                runs[i].status,
                in_silence_mask,
                num_outputs,
                c,
            ) ==> meant(runs[i].status, runs[i].left@[c]@, input, silence, f) == silence,
        says_silent(block_status, in_silence_mask, num_outputs, c),
    ensures
        forall|i: int, f: int|
            0 <= i < runs.len() && #[trigger] in_chunk(ends, i, f) ==> output[f] == silence,
{
    assert forall|i: int, f: int|
        0 <= i < runs.len() && #[trigger] in_chunk(ends, i, f) implies output[f] == silence by {
        assert(statuses_of(runs)[i] == runs[i].status);
    }
}

/// The sizes of the blocks in which `frames` frames are processed.
pub open spec fn block_sizes(frames: int, max_block_frames: int) -> Seq<int>
    decreases frames,
{
    if frames <= 0 || max_block_frames <= 0 {
        Seq::empty()
    } else if frames <= max_block_frames {
        seq![frames]
    } else {
        seq![max_block_frames] + block_sizes(frames - max_block_frames, max_block_frames)
    }
}

/// The sum of sizes.
pub open spec fn total_of(sizes: Seq<int>) -> int
    decreases sizes.len(),
{
    if sizes.len() == 0 {
        0
    } else {
        sizes[0] + total_of(sizes.drop_first())
    }
}

/// A stream is processed in blocks that cover all of its frames, and none of
/// which is empty or larger than allowed. The next block is the first of them,
/// and those after it are the blocks of what is left.
pub proof fn law_blocks_cover_stream(blocks: BlockLoop, n: usize)
    requires
        blocks.wf(),
        0 < n <= blocks.max_block_frames,
        n <= blocks.frames - blocks.frames_processed,
        n == blocks.max_block_frames || n == blocks.frames - blocks.frames_processed,
    ensures
        ({
            let left = blocks.frames - blocks.frames_processed;
            let max = blocks.max_block_frames as int;
            &&& total_of(block_sizes(left, max)) == left
            &&& forall|i: int|
                0 <= i < block_sizes(left, max).len() ==> 0 < #[trigger] block_sizes(left, max)[i]
                    <= max
            &&& block_sizes(left, max) == seq![n as int] + block_sizes(left - n, max)
        }),
{
    let left = blocks.frames - blocks.frames_processed;
    let max = blocks.max_block_frames as int;
    lemma_block_sizes(left, max);
    assert(block_sizes(left, max) =~= seq![n as int] + block_sizes(left - n, max));
}

proof fn lemma_block_sizes(frames: int, max: int)
    requires
        frames >= 0,
        max > 0,
    ensures
        total_of(block_sizes(frames, max)) == frames,
        forall|i: int|
            0 <= i < block_sizes(frames, max).len() ==> 0 < #[trigger] block_sizes(frames, max)[i]
                <= max,
    decreases frames,
{
    let sizes = block_sizes(frames, max);
    if frames > max {
        let rest = block_sizes(frames - max, max);
        lemma_block_sizes(frames - max, max);
        assert(sizes.drop_first() =~= rest);
        assert forall|i: int| 0 <= i < sizes.len() implies 0 < #[trigger] sizes[i] <= max by {
            if i > 0 {
                assert(sizes[i] == rest[i - 1]);
            }
        }
    } else if frames > 0 {
        assert(sizes.drop_first() =~= Seq::<int>::empty());
        assert(total_of(sizes.drop_first()) == 0);
        assert(sizes[0] == frames);
    } else {
        assert(sizes.len() == 0);
    }
}

/// A request to clear scheduled events for a node that exists, or for all nodes,
/// leaves none of the events that it asks to clear and all others, in order.
pub proof fn law_cleared_events_are_gone<E>(
    pending: Seq<(i64, NodeEvent<E>)>,
    msg: ClearScheduledEventsEvent,
    ids: Set<u64>,
)
    requires
        msg.node_id matches Some(n) ==> ids.contains(n.0),
    ensures
        clear_all(pending, seq![msg], ids) == pending.filter(
            |x: (i64, NodeEvent<E>)| !msg.clears(x.1),
        ),
        forall|i: int|
            0 <= i < clear_all(pending, seq![msg], ids).len() ==> !msg.clears(
                (#[trigger] clear_all(pending, seq![msg], ids)[i]).1,
            ),
{
    let msgs = seq![msg];
    assert(msgs.drop_last() =~= Seq::<ClearScheduledEventsEvent>::empty());
    assert(clear_all(pending, msgs.drop_last(), ids) == pending);
    let keeps = EventFilter::Clear(msg).keeps::<E>(ids);
    let others = |x: (i64, NodeEvent<E>)| !msg.clears(x.1);
    lemma_filter_same(pending, keeps, others);
    assert forall|i: int| 0 <= i < pending.filter(others).len() implies !msg.clears(
        (#[trigger] pending.filter(others)[i]).1,
    ) by {
        pending.lemma_filter_pred(others, i);
    }
}

} // verus!
