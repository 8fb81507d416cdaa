//! What becomes of events, from the message that brings them to the block in which they
//! happen.

use crate::clock::{EventInstant, InstantMusical, InstantSamples};
use crate::context::ClearScheduledEventsType;
use crate::event::NodeEvent;
use crate::processor::event_scheduler::{
    clear_all, push_all, push_one, retimed, synced, time_ok, times_ok, EventBufferFull,
    EventFilter, SchedulerView,
};
use crate::processor::inner::{
    msg_handled, times_at, ContextToProcessorMsg, ProcessorToContextMsg, ProcessorView,
};
use crate::processor::{BufferOutOfSpaceMode, ClearScheduledEventsEvent};
use vstd::prelude::*;

verus! {

/// The events of a group that have a time and are for a node that exists.
pub open spec fn timed<E>(events: Seq<NodeEvent<E>>, ids: Set<u64>) -> Seq<NodeEvent<E>> {
    events.filter(|e: NodeEvent<E>| ids.contains(e.node_id.0) && e.time is Some)
}

/// The events of a group that have no time and are for a node that exists.
pub open spec fn untimed<E>(events: Seq<NodeEvent<E>>, ids: Set<u64>) -> Seq<NodeEvent<E>> {
    events.filter(|e: NodeEvent<E>| ids.contains(e.node_id.0) && e.time is None)
}

/// What buffers hold once some events with a time and some without one were added: those
/// before stay, and the new ones follow them in order.
pub open spec fn extended<E>(
    before: SchedulerView<E>,
    timed: Seq<NodeEvent<E>>,
    untimed: Seq<NodeEvent<E>>,
    after: SchedulerView<E>,
) -> bool {
    let n = before.pending.len() as int;
    let m = before.immediate.len() as int;
    &&& after.pending.len() == n + timed.len()
    &&& after.pending.take(n) == before.pending
    &&& forall|i: int| 0 <= i < timed.len() ==> after.pending[n + i].1 == #[trigger] timed[i]
    &&& after.immediate.len() == m + untimed.len()
    &&& after.immediate.take(m) == before.immediate
    &&& forall|i: int|
        0 <= i < untimed.len() ==> after.immediate[m + i] == Some(#[trigger] untimed[i])
}

/// A group of events, where there is room for them or the buffers may grow: each event for
/// a node that exists is added once, in order, and none is for another node. One at a time
/// in samples is pending at that time; one at another time is pending where the conversion
/// puts it, or never if that gives none.
pub proof fn law_events_are_pending_at_their_times<
    P,
    E,
    T,
    Q,
    G: Fn(Q, T, InstantSamples) -> (Q, T),
    F: Fn(&Q, EventInstant) -> Option<InstantSamples>,
>(
    set: G,
    convert: F,
    before: (ProcessorView<P, E>, Q),
    events: Vec<NodeEvent<E>>,
    after: (ProcessorView<P, E>, Q),
    reply: Option<ProcessorToContextMsg<P, E, T>>,
)
    requires
        msg_handled(
            set,
            convert,
            before,
            ContextToProcessorMsg::EventGroup(events),
            after,
            Ok(reply),
        ),
        before.0.events.mode != BufferOutOfSpaceMode::DropEvents || (
        before.0.events.pending.len() + events@.len() <= before.0.events.scheduled_capacity
            && before.0.events.immediate.len() + events@.len()
            <= before.0.events.immediate_capacity),
    ensures
        extended(
            before.0.events,
            timed(events@, before.0.processors.dom()),
            untimed(events@, before.0.processors.dom()),
            after.0.events,
        ),
        forall|j: int|
            before.0.events.pending.len() <= j < after.0.events.pending.len() ==> {
                let (at, event) = #[trigger] after.0.events.pending[j];
                &&& event.time is Some
                &&& event.time matches Some(EventInstant::Samples(s)) ==> at == s.0
                &&& event.time !is Some || event.time->0 is Samples || exists|
                    found: Option<InstantSamples>,
                | #[trigger]
                    call_ensures(convert, (&before.1, event.time->0), found) && (
                    found matches Some(s) ==> at == s.0) && (found is None ==> at == i64::MAX)
            },
        after.0.events.mode == before.0.events.mode,
        after.1 == before.1,
        reply matches Some(ProcessorToContextMsg::ReturnEventGroup(list)) && list@.len() == 0,
{
    let ids = before.0.processors.dom();
    let times = choose|times: Seq<i64>| #[trigger]
        times_at(convert, before.1, events@, ids, times) && times.len() == events@.len()
            && push_all(before.0.events, events@, ids, times) == Some(after.0.events);
    lemma_pushed(before.0.events, events@, ids, times, after.0.events);
    assert(events@.take(times.len() as int) =~= events@);
    let n = before.0.events.pending.len() as int;
    assert forall|j: int| n <= j < after.0.events.pending.len() implies {
        let (at, event) = #[trigger] after.0.events.pending[j];
        &&& event.time is Some
        &&& event.time matches Some(EventInstant::Samples(s)) ==> at == s.0
        &&& event.time !is Some || event.time->0 is Samples || exists|
            found: Option<InstantSamples>,
        | #[trigger]
            call_ensures(convert, (&before.1, event.time->0), found) && (found matches Some(s)
                ==> at == s.0) && (found is None ==> at == i64::MAX)
    } by {
        let i = choose|i: int|
            0 <= i < times.len() && after.0.events.pending[j] == (
                times[i],
                #[trigger] events@[i],
            ) && events@[i].time is Some && ids.contains(events@[i].node_id.0);
        assert(events@[i].time is Some);
    }
}

/// Whether an entry is one of the first events with its time.
spec fn is_entry_of<E>(
    entry: (i64, NodeEvent<E>),
    events: Seq<NodeEvent<E>>,
    ids: Set<u64>,
    times: Seq<i64>,
) -> bool {
    exists|i: int|
        0 <= i < times.len() && entry == (times[i], #[trigger] events[i]) && events[i].time is Some
            && ids.contains(events[i].node_id.0)
}

proof fn lemma_pushed<E>(
    view: SchedulerView<E>,
    events: Seq<NodeEvent<E>>,
    ids: Set<u64>,
    times: Seq<i64>,
    after: SchedulerView<E>,
)
    requires
        times.len() <= events.len(),
        push_all(view, events, ids, times) == Some(after),
        view.mode != BufferOutOfSpaceMode::DropEvents || (view.pending.len() + times.len()
            <= view.scheduled_capacity && view.immediate.len() + times.len()
            <= view.immediate_capacity),
    ensures
        extended(
            view,
            timed(events.take(times.len() as int), ids),
            untimed(events.take(times.len() as int), ids),
            after,
        ),
        after.mode == view.mode,
        view.mode == BufferOutOfSpaceMode::DropEvents ==> after.scheduled_capacity
            == view.scheduled_capacity && after.immediate_capacity == view.immediate_capacity
            && after.pending.len() <= view.pending.len() + times.len() && after.immediate.len()
            <= view.immediate.len() + times.len(),
        forall|j: int|
            view.pending.len() <= j < after.pending.len() ==> is_entry_of(
                #[trigger] after.pending[j],
                events,
                ids,
                times,
            ),
    decreases times.len(),
{
    let p = |e: NodeEvent<E>| ids.contains(e.node_id.0) && e.time is Some;
    let q = |e: NodeEvent<E>| ids.contains(e.node_id.0) && e.time is None;
    reveal(Seq::filter);
    if times.len() == 0 {
        assert(events.take(0).filter(p) =~= Seq::<NodeEvent<E>>::empty());
        assert(events.take(0).filter(q) =~= Seq::<NodeEvent<E>>::empty());
        assert(view.pending.take(view.pending.len() as int) =~= view.pending);
        assert(view.immediate.take(view.immediate.len() as int) =~= view.immediate);
    } else {
        let fewer = times.drop_last();
        let mid = push_all(view, events, ids, fewer)->0;
        lemma_pushed(view, events, ids, fewer, mid);
        let k = fewer.len() as int;
        let event = events[k];
        assert(events.take(k + 1).drop_last() =~= events.take(k));
        assert(events.take(k + 1).last() == event);
        let (t0, u0) = (timed(events.take(k), ids), untimed(events.take(k), ids));
        let (t1, u1) = (timed(events.take(k + 1), ids), untimed(events.take(k + 1), ids));
        assert(t1 == if p(event) {
            t0.push(event)
        } else {
            t0
        });
        assert(u1 == if q(event) {
            u0.push(event)
        } else {
            u0
        });
        assert forall|j: int| view.pending.len() <= j < after.pending.len() implies is_entry_of(
            #[trigger] after.pending[j],
            events,
            ids,
            times,
        ) by {
            if j < mid.pending.len() {
                assert(after.pending[j] == mid.pending[j]);
                assert(is_entry_of(mid.pending[j], events, ids, fewer));
                let i = choose|i: int|
                    0 <= i < fewer.len() && mid.pending[j] == (fewer[i], #[trigger] events[i])
                        && events[i].time is Some && ids.contains(events[i].node_id.0);
                assert(times[i] == fewer[i]);
                assert(after.pending[j] == (times[i], events[i]));
            } else {
                assert(after.pending[j] == (times[k], events[k]));
            }
        }
        let n = view.pending.len() as int;
        let m = view.immediate.len() as int;
        assert(after.pending.take(n) =~= mid.pending.take(n));
        assert(after.immediate.take(m) =~= mid.immediate.take(m));
        assert(after.pending.len() == n + t1.len());
        assert(after.immediate.len() == m + u1.len());
        assert forall|i: int| 0 <= i < t1.len() implies after.pending[n + i].1
            == #[trigger] t1[i] by {
            if i < t0.len() {
                assert(t1[i] == t0[i]);
                assert(after.pending[n + i] == mid.pending[n + i]);
            }
        }
        assert forall|i: int| 0 <= i < u1.len() implies after.immediate[m + i] == Some(
            #[trigger] u1[i],
        ) by {
            if i < u0.len() {
                assert(u1[i] == u0[i]);
                assert(after.immediate[m + i] == mid.immediate[m + i]);
            }
        }
    }
}

/// A group of events is refused only where a buffer is full and the engine is to panic, or a
/// buffer cannot grow any more: with room for all of its events it is accepted.
pub proof fn law_events_are_accepted_while_there_is_room<
    P,
    E,
    T,
    Q,
    G: Fn(Q, T, InstantSamples) -> (Q, T),
    F: Fn(&Q, EventInstant) -> Option<InstantSamples>,
>(
    set: G,
    convert: F,
    before: (ProcessorView<P, E>, Q),
    events: Vec<NodeEvent<E>>,
    after: (ProcessorView<P, E>, Q),
    result: Result<Option<ProcessorToContextMsg<P, E, T>>, EventBufferFull>,
)
    requires
        msg_handled(
            set,
            convert,
            before,
            ContextToProcessorMsg::EventGroup(events),
            after,
            result,
        ),
        before.0.events.pending.len() + events@.len() <= before.0.events.scheduled_capacity,
        before.0.events.immediate.len() + events@.len() <= before.0.events.immediate_capacity,
        before.0.events.immediate.len() + events@.len() <= 0xFFFF_FFFF,
    ensures
        result is Ok,
        after.0.events.scheduled_capacity == before.0.events.scheduled_capacity,
        after.0.events.immediate_capacity == before.0.events.immediate_capacity,
{
    let ids = before.0.processors.dom();
    assert forall|times: Seq<i64>| times.len() <= events@.len() implies {
        &&& #[trigger] push_all(before.0.events, events@, ids, times) is Some
        &&& push_all(before.0.events, events@, ids, times)->0.scheduled_capacity
            == before.0.events.scheduled_capacity
        &&& push_all(before.0.events, events@, ids, times)->0.immediate_capacity
            == before.0.events.immediate_capacity
    } by {
        lemma_room(before.0.events, events@, ids, times);
    }
}

proof fn lemma_room<E>(
    view: SchedulerView<E>,
    events: Seq<NodeEvent<E>>,
    ids: Set<u64>,
    times: Seq<i64>,
)
    requires
        times.len() <= events.len(),
        view.pending.len() + times.len() <= view.scheduled_capacity,
        view.immediate.len() + times.len() <= view.immediate_capacity,
        view.immediate.len() + times.len() <= 0xFFFF_FFFF,
    ensures
        push_all(view, events, ids, times) matches Some(after) && after.scheduled_capacity
            == view.scheduled_capacity && after.immediate_capacity == view.immediate_capacity
            && after.pending.len() <= view.pending.len() + times.len() && after.immediate.len()
            <= view.immediate.len() + times.len(),
    decreases times.len(),
{
    if times.len() > 0 {
        lemma_room(view, events, ids, times.drop_last());
    }
}

/// Where a buffer is full and may not grow, an event for a node that exists is not added: the
/// group is refused if the engine is to panic, or else the event alone is dropped.
pub proof fn law_full_buffer_takes_no_event<
    P,
    E,
    T,
    Q,
    G: Fn(Q, T, InstantSamples) -> (Q, T),
    F: Fn(&Q, EventInstant) -> Option<InstantSamples>,
>(
    set: G,
    convert: F,
    before: (ProcessorView<P, E>, Q),
    events: Vec<NodeEvent<E>>,
    after: (ProcessorView<P, E>, Q),
    result: Result<Option<ProcessorToContextMsg<P, E, T>>, EventBufferFull>,
)
    requires
        msg_handled(
            set,
            convert,
            before,
            ContextToProcessorMsg::EventGroup(events),
            after,
            result,
        ),
        events@.len() > 0,
        forall|i: int|
            0 <= i < events@.len() ==> before.0.processors.contains_key(
                (#[trigger] events@[i]).node_id.0,
            ),
        forall|i: int|
            0 <= i < events@.len() ==> if (#[trigger] events@[i]).time is Some {
                before.0.events.pending.len() == before.0.events.scheduled_capacity
            } else {
                before.0.events.immediate.len() == before.0.events.immediate_capacity
            },
    ensures
        before.0.events.mode == BufferOutOfSpaceMode::Panic ==> result is Err
            && after.0.poisoned,
        before.0.events.mode == BufferOutOfSpaceMode::DropEvents ==> result is Ok && after.0
            == before.0,
        before.0.events.mode == BufferOutOfSpaceMode::AllocateOnAudioThread && result is Ok
            && events@.len() == 1 ==> after.0.events.pending.len() + after.0.events.immediate.len()
            == before.0.events.pending.len() + before.0.events.immediate.len() + 1,
        // A buffer that may grow has room for twice as many events then, or for one.
        before.0.events.mode == BufferOutOfSpaceMode::AllocateOnAudioThread && result is Ok
            && events@.len() == 1 && events@[0].time is Some ==> after.0.events.immediate_capacity
            == before.0.events.immediate_capacity && after.0.events.scheduled_capacity == if
            before.0.events.scheduled_capacity == 0 {
            1
        } else {
            before.0.events.scheduled_capacity + before.0.events.scheduled_capacity
        },
        before.0.events.mode == BufferOutOfSpaceMode::AllocateOnAudioThread && result is Ok
            && events@.len() == 1 && events@[0].time is None ==> after.0.events.scheduled_capacity
            == before.0.events.scheduled_capacity && after.0.events.immediate_capacity
            == before.0.events.immediate_capacity + before.0.events.immediate_capacity,
        before.0.events.mode == BufferOutOfSpaceMode::AllocateOnAudioThread && events@.len() == 1
            && 0 <= before.0.events.scheduled_capacity <= 0x7FFF_FFFF && 0
            <= before.0.events.immediate_capacity <= 0x7FFF_FFFF ==> result is Ok,
{
    let ids = before.0.processors.dom();
    let view = before.0.events;
    if view.mode == BufferOutOfSpaceMode::AllocateOnAudioThread && events@.len() == 1 {
        assert forall|times: Seq<i64>| times.len() == 1 implies #[trigger] push_all(
            view,
            events@,
            ids,
            times,
        ) == push_one(view, events@[0], times[0]) by {
            assert(times.drop_last() =~= Seq::<i64>::empty());
            assert(push_all(view, events@, ids, times.drop_last()) == Some(view));
            assert(ids.contains(events@[0].node_id.0));
        }
        let none = Seq::<i64>::empty();
        assert forall|times: Seq<i64>| times.len() == 0 implies #[trigger] push_all(
            view,
            events@,
            ids,
            times,
        ) == Some(view) by {}
    }
    if view.mode == BufferOutOfSpaceMode::DropEvents {
        assert forall|times: Seq<i64>| times.len() <= events@.len() implies #[trigger] push_all(
            view,
            events@,
            ids,
            times,
        ) == Some(view) by {
            lemma_dropped(view, events@, ids, times);
        }
    }
    if view.mode == BufferOutOfSpaceMode::Panic {
        assert forall|times: Seq<i64>| 0 < times.len() <= events@.len() implies #[trigger] push_all(
            view,
            events@,
            ids,
            times,
        ) is None by {
            lemma_refused(view, events@, ids, times);
        }
        assert(events@[0].time is Some || events@[0].time is None);
        let none = Seq::<i64>::empty();
        assert(push_all(view, events@, ids, none) == Some(view));
    }
    if view.mode == BufferOutOfSpaceMode::AllocateOnAudioThread && result is Ok && events@.len()
        == 1 {
        let times = choose|times: Seq<i64>| #[trigger]
            times_at(convert, before.1, events@, ids, times) && times.len() == 1 && push_all(
                view,
                events@,
                ids,
                times,
            ) == Some(after.0.events);
        assert(times.drop_last() =~= Seq::<i64>::empty());
        assert(push_all(view, events@, ids, times.drop_last()) == Some(view));
        assert(ids.contains(events@[0].node_id.0));
    }
}

proof fn lemma_dropped<E>(
    view: SchedulerView<E>,
    events: Seq<NodeEvent<E>>,
    ids: Set<u64>,
    times: Seq<i64>,
)
    requires
        view.mode == BufferOutOfSpaceMode::DropEvents,
        times.len() <= events.len(),
        forall|i: int|
            0 <= i < events.len() ==> if (#[trigger] events[i]).time is Some {
                view.pending.len() == view.scheduled_capacity
            } else {
                view.immediate.len() == view.immediate_capacity
            },
    ensures
        push_all(view, events, ids, times) == Some(view),
    decreases times.len(),
{
    if times.len() > 0 {
        lemma_dropped(view, events, ids, times.drop_last());
        let event = events[times.len() - 1];
        assert(if event.time is Some {
            view.pending.len() == view.scheduled_capacity
        } else {
            view.immediate.len() == view.immediate_capacity
        });
    }
}

proof fn lemma_refused<E>(
    view: SchedulerView<E>,
    events: Seq<NodeEvent<E>>,
    ids: Set<u64>,
    times: Seq<i64>,
)
    requires
        view.mode == BufferOutOfSpaceMode::Panic,
        0 < times.len() <= events.len(),
        ids.contains(events[0].node_id.0),
        if events[0].time is Some {
            view.pending.len() == view.scheduled_capacity
        } else {
            view.immediate.len() == view.immediate_capacity
        },
    ensures
        push_all(view, events, ids, times) is None,
    decreases times.len(),
{
    if times.len() > 1 {
        lemma_refused(view, events, ids, times.drop_last());
    } else {
        assert(times.drop_last() =~= Seq::<i64>::empty());
        assert(push_all(view, events, ids, times.drop_last()) == Some(view));
    }
}

/// The time at which an event is pushed is the one that it names in samples, or else the
/// one that the conversion gives for it.
pub proof fn law_push_time_is_the_converted_time<E, F: Fn(EventInstant) -> InstantSamples>(
    convert: F,
    event: NodeEvent<E>,
    time: i64,
)
    requires
        time_ok(convert, event, time),
    ensures
        event.time matches Some(EventInstant::Samples(s)) ==> time == s.0,
        event.time matches Some(EventInstant::Seconds(s)) ==> call_ensures(
            convert,
            (EventInstant::Seconds(s),),
            InstantSamples(time),
        ),
        event.time matches Some(EventInstant::Musical(m)) ==> call_ensures(
            convert,
            (EventInstant::Musical(m),),
            InstantSamples(time),
        ),
{
}

/// Each event of a group that is for a node that exists is pushed at the time that it is
/// converted to, or at its own if that is one in samples.
pub proof fn law_group_is_pushed_at_converted_times<E, F: Fn(EventInstant) -> InstantSamples>(
    convert: F,
    events: Seq<NodeEvent<E>>,
    nodes: Set<u64>,
    times: Seq<i64>,
    i: int,
)
    requires
        times_ok(convert, events, nodes, times),
        0 <= i < times.len(),
        nodes.contains(events[i].node_id.0),
        events[i].time is Some,
    ensures
        times.len() <= events.len(),
        events[i].time->0 is Samples ==> times[i] == (events[i].time->0->Samples_0).0,
        events[i].time->0 !is Samples ==> call_ensures(
            convert,
            (events[i].time->0,),
            InstantSamples(times[i]),
        ),
{
    assert(time_ok(convert, events[i], times[i]));
}

/// A transport state is used from the time of the next frame on. Events at musical times
/// move to where the new transport puts them, or never come if it gives none. All other
/// events, and everything else, stay as they are.
pub proof fn law_transport_moves_musical_events<
    P,
    E,
    T,
    Q,
    G: Fn(Q, T, InstantSamples) -> (Q, T),
    F: Fn(&Q, EventInstant) -> Option<InstantSamples>,
>(
    set: G,
    convert: F,
    before: (ProcessorView<P, E>, Q),
    state: T,
    after: (ProcessorView<P, E>, Q),
    result: Result<Option<ProcessorToContextMsg<P, E, T>>, EventBufferFull>,
    i: int,
)
    requires
        msg_handled(
            set,
            convert,
            before,
            ContextToProcessorMsg::SetTransportState(state),
            after,
            result,
        ),
        0 <= i < before.0.events.pending.len(),
    ensures
        result matches Ok(Some(ProcessorToContextMsg::ReturnTransportState(old_state)))
            && call_ensures(
            set,
            (before.1, state, InstantSamples(before.0.clock as i64)),
            (after.1, old_state),
        ),
        after.0.events.pending.len() == before.0.events.pending.len(),
        after.0.events.pending[i].1 == before.0.events.pending[i].1,
        !(before.0.events.pending[i].1.time matches Some(EventInstant::Musical(_)))
            ==> after.0.events.pending[i].0 == before.0.events.pending[i].0,
        before.0.events.pending[i].1.time matches Some(EventInstant::Musical(m)) ==> exists|
            found: Option<InstantSamples>,
        | #[trigger]
            call_ensures(convert, (&after.1, EventInstant::Musical(m)), found) && (
            found matches Some(s) ==> after.0.events.pending[i].0 == s.0) && (found is None
                ==> after.0.events.pending[i].0 == i64::MAX),
        after.0.events.immediate == before.0.events.immediate,
        after.0.processors == before.0.processors,
        after.0.schedule == before.0.schedule,
        after.0.clock == before.0.clock,
        after.0.hard_clip == before.0.hard_clip,
        after.0.poisoned == before.0.poisoned,
{
}

/// The same of a transport that is set directly: without one, events at musical times never
/// come.
pub proof fn law_musical_events_need_a_transport<E, F: Fn(InstantMusical) -> InstantSamples>(
    transport: Option<&F>,
    before: (i64, NodeEvent<E>),
    after: (i64, NodeEvent<E>),
)
    requires
        synced(transport, before, after),
    ensures
        after.1 == before.1,
        before.1.time matches Some(EventInstant::Musical(m)) ==> {
            &&& transport is None ==> after.0 == i64::MAX
            &&& transport matches Some(f) ==> call_ensures(*f, (m,), InstantSamples(after.0))
        },
        before.1.time matches Some(EventInstant::Samples(_)) ==> after.0 == before.0,
        before.1.time matches Some(EventInstant::Seconds(_)) ==> after.0 == before.0,
{
}

/// With a new sample rate, an event comes at the converted time. One that never comes still
/// does not.
pub proof fn law_new_sample_rate_converts_times<F: Fn(InstantSamples) -> InstantSamples>(
    convert: F,
    before: i64,
    after: i64,
)
    requires
        retimed(convert, before, after),
    ensures
        before == i64::MAX ==> after == i64::MAX,
        before != i64::MAX ==> call_ensures(
            convert,
            (InstantSamples(before),),
            InstantSamples(after),
        ),
{
}

/// Whether a request is about a scheduled event: it is for all nodes or for that of the
/// event, and for all kinds of times or for that of the event.
pub open spec fn asks_to_clear<E>(
    request: ClearScheduledEventsEvent,
    event: NodeEvent<E>,
) -> bool {
    &&& request.node_id is None || request.node_id == Some(event.node_id)
    &&& request.event_type == ClearScheduledEventsType::All || (request.event_type
        == ClearScheduledEventsType::MusicalOnly) == (event.time matches Some(
        EventInstant::Musical(_),
    ))
}

/// Requests to clear scheduled events remove exactly the pending events that one of them is
/// about, and leave the others in order. Immediate events stay.
pub proof fn law_exactly_the_requested_events_are_cleared<
    P,
    E,
    T,
    Q,
    G: Fn(Q, T, InstantSamples) -> (Q, T),
    F: Fn(&Q, EventInstant) -> Option<InstantSamples>,
>(
    set: G,
    convert: F,
    before: (ProcessorView<P, E>, Q),
    requests: Vec<ClearScheduledEventsEvent>,
    after: (ProcessorView<P, E>, Q),
    result: Result<Option<ProcessorToContextMsg<P, E, T>>, EventBufferFull>,
)
    requires
        msg_handled(
            set,
            convert,
            before,
            ContextToProcessorMsg::ClearScheduledEvents(requests),
            after,
            result,
        ),
        forall|i: int|
            0 <= i < before.0.events.pending.len() ==> before.0.processors.contains_key(
                (#[trigger] before.0.events.pending[i]).1.node_id.0,
            ),
    ensures
        after.0.events.pending == before.0.events.pending.filter(
            |x: (i64, NodeEvent<E>)|
                forall|r: int|
                    0 <= r < requests@.len() ==> !asks_to_clear(#[trigger] requests@[r], x.1),
        ),
        after.0.events.immediate == before.0.events.immediate,
        result is Ok,
{
    let pending = before.0.events.pending;
    let ids = before.0.processors.dom();
    let kept = |x: (i64, NodeEvent<E>)|
        forall|r: int| 0 <= r < requests@.len() ==> !asks_to_clear(#[trigger] requests@[r], x.1);
    lemma_cleared(pending, requests@, ids);
    assert(pending.filter(kept) == pending.filter(uncleared(requests@))) by {
        lemma_filter_same(pending, kept, uncleared(requests@));
    }
}

/// Whether no request is about an entry.
spec fn uncleared<E>(requests: Seq<ClearScheduledEventsEvent>) -> spec_fn(
    (i64, NodeEvent<E>),
) -> bool {
    |x: (i64, NodeEvent<E>)|
        forall|r: int| 0 <= r < requests.len() ==> !asks_to_clear(#[trigger] requests[r], x.1)
}

proof fn lemma_cleared<E>(
    pending: Seq<(i64, NodeEvent<E>)>,
    requests: Seq<ClearScheduledEventsEvent>,
    ids: Set<u64>,
)
    requires
        forall|i: int|
            0 <= i < pending.len() ==> ids.contains((#[trigger] pending[i]).1.node_id.0),
    ensures
        clear_all(pending, requests, ids) == pending.filter(uncleared(requests)),
    decreases requests.len(),
{
    if requests.len() == 0 {
        lemma_filter_all_kept(pending, uncleared(requests));
    } else {
        let fewer = requests.drop_last();
        let last = requests.last();
        lemma_cleared(pending, fewer, ids);
        if last.node_id matches Some(n) && !ids.contains(n.0) {
            lemma_filter_cong(pending, uncleared(fewer), uncleared(requests), ids, requests);
        } else {
            lemma_filter_twice(
                pending,
                uncleared(fewer),
                EventFilter::Clear(last).keeps(ids),
                uncleared(requests),
                requests,
            );
        }
    }
}

proof fn lemma_uncleared<E>(requests: Seq<ClearScheduledEventsEvent>, x: (i64, NodeEvent<E>))
    requires
        requests.len() > 0,
    ensures
        uncleared::<E>(requests)(x) == (uncleared::<E>(requests.drop_last())(x) && !asks_to_clear(
            requests.last(),
            x.1,
        )),
{
    let fewer = requests.drop_last();
    if uncleared::<E>(requests)(x) {
        assert forall|r: int| 0 <= r < fewer.len() implies !asks_to_clear(
            #[trigger] fewer[r],
            x.1,
        ) by {
            assert(fewer[r] == requests[r]);
        }
        assert(!asks_to_clear(requests[requests.len() - 1], x.1));
    }
    if uncleared::<E>(fewer)(x) && !asks_to_clear(requests.last(), x.1) {
        assert forall|r: int| 0 <= r < requests.len() implies !asks_to_clear(
            #[trigger] requests[r],
            x.1,
        ) by {
            if r < fewer.len() {
                assert(fewer[r] == requests[r]);
            }
        }
    }
}

proof fn lemma_filter_cong<E>(
    pending: Seq<(i64, NodeEvent<E>)>,
    p: spec_fn((i64, NodeEvent<E>)) -> bool,
    q: spec_fn((i64, NodeEvent<E>)) -> bool,
    ids: Set<u64>,
    requests: Seq<ClearScheduledEventsEvent>,
)
    requires
        requests.len() > 0,
        p == uncleared::<E>(requests.drop_last()),
        q == uncleared::<E>(requests),
        requests.last().node_id matches Some(n) && !ids.contains(n.0),
        forall|i: int|
            0 <= i < pending.len() ==> ids.contains((#[trigger] pending[i]).1.node_id.0),
    ensures
        pending.filter(p) == pending.filter(q),
    decreases pending.len(),
{
    reveal(Seq::filter);
    if pending.len() > 0 {
        let rest = pending.drop_last();
        assert forall|i: int| 0 <= i < rest.len() implies ids.contains(
            (#[trigger] rest[i]).1.node_id.0,
        ) by {
            assert(rest[i] == pending[i]);
        }
        lemma_filter_cong(rest, p, q, ids, requests);
        lemma_uncleared(requests, pending.last());
        assert(ids.contains(pending[pending.len() - 1].1.node_id.0));
    }
}

proof fn lemma_filter_twice<E>(
    pending: Seq<(i64, NodeEvent<E>)>,
    p: spec_fn((i64, NodeEvent<E>)) -> bool,
    q: spec_fn((i64, NodeEvent<E>)) -> bool,
    r: spec_fn((i64, NodeEvent<E>)) -> bool,
    requests: Seq<ClearScheduledEventsEvent>,
)
    requires
        requests.len() > 0,
        p == uncleared::<E>(requests.drop_last()),
        r == uncleared::<E>(requests),
        forall|x: (i64, NodeEvent<E>)| #[trigger] q(x) == !asks_to_clear(requests.last(), x.1),
    ensures
        pending.filter(p).filter(q) == pending.filter(r),
    decreases pending.len(),
{
    reveal(Seq::filter);
    if pending.len() > 0 {
        let x = pending.last();
        lemma_filter_twice(pending.drop_last(), p, q, r, requests);
        lemma_uncleared(requests, x);
        if p(x) {
            let f = pending.drop_last().filter(p);
            assert(f.push(x).drop_last() =~= f);
        }
    }
}

proof fn lemma_filter_all_kept<A>(s: Seq<A>, p: spec_fn(A) -> bool)
    requires
        forall|x: A| #[trigger] p(x),
    ensures
        s.filter(p) == s,
    decreases s.len(),
{
    reveal(Seq::filter);
    if s.len() > 0 {
        lemma_filter_all_kept(s.drop_last(), p);
        assert(s =~= s.drop_last().push(s.last()));
    } else {
        assert(s.filter(p) =~= s);
    }
}

proof fn lemma_filter_same<A>(s: Seq<A>, p: spec_fn(A) -> bool, q: spec_fn(A) -> bool)
    requires
        forall|x: A| #[trigger] p(x) == q(x),
    ensures
        s.filter(p) == s.filter(q),
    decreases s.len(),
{
    reveal(Seq::filter);
    if s.len() > 0 {
        lemma_filter_same(s.drop_last(), p, q);
    }
}

} // verus!
