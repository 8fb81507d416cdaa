//! What the main thread tells the audio thread, and what it learns of it.

use crate::channel::{Inbox, Outbox};
use crate::context::delivery::{all_clears, all_events};
use crate::context::{
    declick_frames_of, flushed, flushed_as, offered, start_stream_check, transport_synced,
    update_done, CtxView, StartStreamError, UpdateError,
};
use crate::graph::compiler::CompileGraphError;
use crate::graph::topology::has_cycle;
use crate::graph::{AudioGraph, GraphView, ScheduleHeapData};
use crate::processor::inner::ContextToProcessorMsg;
use vstd::prelude::*;

verus! {

/// Flushing the queues sends the requests to clear scheduled events before the events, each
/// as one message, and sends none for a queue that is empty. Nothing is sent where there is no
/// stream.
pub proof fn law_flush_sends_clears_before_events<N, P, E, T, X, SE>(
    before: CtxView<N, P, E, T, X>,
    after: CtxView<N, P, E, T, X>,
    result: Result<(), UpdateError<SE>>,
)
    requires
        flushed(before, after, result),
    ensures
        before.stream is None ==> result is Ok && after == before,
        before.stream is Some && result is Ok ==> ({
            let sent = after.outbox.sent.skip(before.outbox.sent.len() as int);
            let clears: int = if before.clears.len() > 0 {
                1
            } else {
                0
            };
            let events: int = if before.events.len() > 0 {
                1
            } else {
                0
            };
            &&& after.outbox.sent.take(before.outbox.sent.len() as int) == before.outbox.sent
            &&& sent.len() == clears + events
            &&& clears == 1 ==> sent[0] is ClearScheduledEvents
                && sent[0]->ClearScheduledEvents_0@ == before.clears
            &&& events == 1 ==> sent.last() is EventGroup && sent.last()->EventGroup_0@
                == before.events
            &&& after.clears.len() == 0
            &&& after.events.len() == 0
        }),
        after == (CtxView {
            outbox: after.outbox,
            events: after.events,
            clears: after.clears,
            ..before
        }),
{
    let (clear_msg, event_msg) = choose|
        clear_msg: ContextToProcessorMsg<P, E, T>,
        event_msg: ContextToProcessorMsg<P, E, T>,
    | #[trigger]
        flushed_as(before, after, result, clear_msg, event_msg);
    let n = before.outbox.sent.len() as int;
    assert(after.outbox.sent.take(n) =~= before.outbox.sent);
}

/// What the channel has no room for stays queued, and the caller is told. What comes after it
/// is not sent either.
pub proof fn law_refused_messages_stay_queued<N, P, E, T, X, SE>(
    before: CtxView<N, P, E, T, X>,
    after: CtxView<N, P, E, T, X>,
    error: UpdateError<SE>,
)
    requires
        flushed(before, after, Err(error)),
    ensures
        error == UpdateError::<SE>::MsgChannelFull,
        before.stream is Some,
        before.clears.len() > 0 || before.events.len() > 0,
        after.events == before.events,
        after.clears == before.clears ==> after.outbox.sent == before.outbox.sent,
        after.clears != before.clears ==> after.clears.len() == 0 && after.outbox.sent.len()
            == before.outbox.sent.len() + 1 && after.outbox.sent.last() is ClearScheduledEvents
            && after.outbox.sent.last()->ClearScheduledEvents_0@ == before.clears
            && before.events.len() > 0,
{
    let (clear_msg, event_msg) = choose|
        clear_msg: ContextToProcessorMsg<P, E, T>,
        event_msg: ContextToProcessorMsg<P, E, T>,
    | #[trigger]
        flushed_as(before, after, Err::<(), _>(error), clear_msg, event_msg);
    if before.clears.len() == 0 {
        assert(before.clears =~= Seq::empty());
    }
}

/// An update without a stream does nothing. With one, it tells if the stream has stopped; or
/// else the graph is compiled if it has changed, unless it has a cycle.
pub proof fn law_update_compiles_what_has_changed<N, P, E, T, X, SE>(
    before: CtxView<N, P, E, T, X>,
    backend_status: Result<(), SE>,
    after: CtxView<N, P, E, T, X>,
    result: Result<Option<ScheduleHeapData>, UpdateError<SE>>,
)
    requires
        update_done(before, backend_status, after, result),
    ensures
        before.stream is None ==> result == Ok::<_, UpdateError<SE>>(None::<ScheduleHeapData>)
            && after.graph == before.graph && after.stream is None,
        before.stream is Some && backend_status is Err ==> result == Err::<
            Option<ScheduleHeapData>,
            _,
        >(UpdateError::StreamStoppedUnexpectedly(Some(backend_status->Err_0))),
        backend_status is Ok && result is Err && result->Err_0 is StreamStoppedUnexpectedly
            ==> result->Err_0->StreamStoppedUnexpectedly_0 is None,
        result is Err && result->Err_0 is StreamStoppedUnexpectedly ==> after.stream is None
            && after.graph == (GraphView { needs_compile: true, ..before.graph }),
        before.stream is Some && backend_status is Ok && !(result is Err
            && result->Err_0 is StreamStoppedUnexpectedly) ==> {
            &&& after.stream == before.stream
            &&& !before.graph.needs_compile ==> result == Ok::<_, UpdateError<SE>>(
                None::<ScheduleHeapData>,
            ) && after.graph == before.graph
            &&& before.graph.needs_compile && has_cycle(before.graph.edges) ==> result == Err::<
                Option<ScheduleHeapData>,
                _,
            >(UpdateError::<SE>::GraphCompileError(CompileGraphError::CycleDetected)) && after.graph
                == before.graph
            &&& before.graph.needs_compile && !has_cycle(before.graph.edges) ==> result is Ok
                && result->Ok_0 is Some && AudioGraph::<N>::compiled(
                before.graph,
                before.stream->0.max_block_frames as usize,
                after.graph,
                result->Ok_0->0,
            )
        },
        after == (CtxView {
            graph: after.graph,
            stream: after.stream,
            inbox: after.inbox,
            ..before
        }),
        after.inbox.received.take(before.inbox.received.len() as int) == before.inbox.received,
        after.inbox.received.len() >= before.inbox.received.len(),
{
    let n = before.inbox.received.len() as int;
    let msgs = after.inbox.received.skip(n);
    assert(after.inbox.received == before.inbox.received + msgs);
    assert((before.inbox.received + msgs).take(n) =~= before.inbox.received);
}

/// A message that is offered is sent if it is accepted, after those that were sent before. If
/// it is not, nothing is sent. Nothing else changes.
pub proof fn law_offered_message_is_sent_if_accepted<N, P, E, T, X>(
    view: CtxView<N, P, E, T, X>,
    msg: ContextToProcessorMsg<P, E, T>,
)
    ensures
        offered(view, msg, true).outbox.sent == view.outbox.sent.push(msg),
        offered(view, msg, false).outbox.sent == view.outbox.sent,
        offered(view, msg, true).outbox.offered == view.outbox.offered.push(msg),
        offered(view, msg, false).outbox.offered == view.outbox.offered.push(msg),
        forall|accepted: bool| #[trigger]
            offered(view, msg, accepted) == (CtxView {
                outbox: offered(view, msg, accepted).outbox,
                ..view
            }),
{
}

/// The state of the transport changes once the audio thread was told, and only then.
pub proof fn law_transport_changes_once_it_was_sent<N, P, E, T: Clone, X, SE>(
    before: CtxView<N, P, E, T, X>,
    transport: T,
    after: CtxView<N, P, E, T, X>,
    result: Result<(), UpdateError<SE>>,
)
    requires
        transport_synced(before, transport, after, result),
    ensures
        result is Ok ==> cloned(transport, after.transport) && after.outbox.sent.len()
            == before.outbox.sent.len() + 1 && after.outbox.sent.drop_last() == before.outbox.sent
            && after.outbox.sent.last() is SetTransportState && cloned(
            transport,
            after.outbox.sent.last()->SetTransportState_0,
        ),
        result is Err ==> result == Err::<(), _>(UpdateError::<SE>::MsgChannelFull)
            && after.transport == before.transport && after.outbox.sent == before.outbox.sent,
        after == (CtxView { transport: after.transport, outbox: after.outbox, ..before }),
{
}

/// A fade takes as many frames as was found for its length, but never none.
pub proof fn law_fade_takes_at_least_a_frame<F: Fn(u32, u32) -> u32>(
    fade_frames: F,
    declick_seconds: u32,
    sample_rate: u32,
    frames: u32,
)
    requires
        declick_frames_of(fade_frames, declick_seconds, sample_rate, frames),
    ensures
        frames >= 1,
        frames > 1 ==> call_ensures(fade_frames, (declick_seconds, sample_rate), frames),
        frames == 1 ==> call_ensures(fade_frames, (declick_seconds, sample_rate), 1) || call_ensures(
            fade_frames,
            (declick_seconds, sample_rate),
            0,
        ),
{
}

/// What was sent is what was accepted, and what was offered is that and what was refused.
pub proof fn law_outbox_keeps_count<T>(outbox: Outbox<T>, msg: T)
    ensures
        outbox.accepted(msg).sent == outbox.sent.push(msg),
        outbox.accepted(msg).offered == outbox.offered.push(msg),
        outbox.refused(msg).sent == outbox.sent,
        outbox.refused(msg).offered == outbox.offered.push(msg),
{
}

/// What was received is what was taken, in order, and it is known whether the channel was
/// found empty then.
pub proof fn law_inbox_keeps_count<T>(inbox: Inbox<T>, msg: T, msgs: Seq<T>, after: Inbox<T>)
    ensures
        inbox.popped(Some(msg)).received == inbox.received.push(msg),
        !inbox.popped(Some(msg)).found_empty,
        inbox.popped(None).received == inbox.received,
        inbox.popped(None).found_empty,
        inbox.emptied(msgs).received == inbox.received + msgs,
        inbox.emptied(msgs).found_empty,
        inbox.drained(after) ==> after.found_empty && inbox.received.is_prefix_of(after.received),
        inbox.drained(inbox.emptied(msgs)),
{
    let more = inbox.emptied(msgs);
    assert(more.received.skip(inbox.received.len() as int) =~= msgs);
    if inbox.drained(after) {
        let rest = after.received.skip(inbox.received.len() as int);
        assert(after.received == inbox.received + rest);
        assert((inbox.received + rest).subrange(0, inbox.received.len() as int)
            =~= inbox.received);
    }
}

/// The events of some messages are those of the groups among them, in order, and the requests
/// to clear events likewise.
pub proof fn law_messages_hold_what_is_in_them<P, E, T>(
    msgs: Seq<ContextToProcessorMsg<P, E, T>>,
    msg: ContextToProcessorMsg<P, E, T>,
)
    ensures
        msg is EventGroup ==> all_events(msgs.push(msg)) == all_events(msgs)
            + msg->EventGroup_0@,
        !(msg is EventGroup) ==> all_events(msgs.push(msg)) == all_events(msgs),
        msg is ClearScheduledEvents ==> all_clears(msgs.push(msg)) == all_clears(msgs)
            + msg->ClearScheduledEvents_0@,
        !(msg is ClearScheduledEvents) ==> all_clears(msgs.push(msg)) == all_clears(msgs),
        msgs.len() == 0 ==> all_events(msgs).len() == 0 && all_clears(msgs).len() == 0,
{
    assert(msgs.push(msg).drop_last() =~= msgs);
    assert(all_events(msgs) + Seq::empty() =~= all_events(msgs));
    assert(all_clears(msgs) + Seq::empty() =~= all_clears(msgs));
}

/// A stream can be started if none is running and the last one has stopped. Which of these
/// does not hold is told.
pub proof fn law_stream_starts_once_the_last_has_stopped(
    running: bool,
    can_start: bool,
    result: Result<(), StartStreamError>,
)
    requires
        call_ensures(start_stream_check, (running, can_start), result),
    ensures
        result is Ok <==> !running && can_start,
        running <==> result == Err::<(), _>(StartStreamError::AlreadyStarted),
        !running && !can_start <==> result == Err::<(), _>(
            StartStreamError::OldStreamNotFinishedStopping,
        ),
{
}

} // verus!
