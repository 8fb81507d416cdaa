//! What is queued reaches the audio thread.

use crate::context::{flushed, flushed_as, CtxView, UpdateError};
use crate::event::NodeEvent;
use crate::processor::inner::ContextToProcessorMsg;
use crate::processor::ClearScheduledEventsEvent;
use vstd::prelude::*;

verus! {

/// The events that some messages hold, in order.
pub open spec fn all_events<P, E, T>(msgs: Seq<ContextToProcessorMsg<P, E, T>>) -> Seq<NodeEvent<E>>
    decreases msgs.len(),
{
    if msgs.len() == 0 {
        Seq::empty()
    } else {
        all_events(msgs.drop_last()) + match msgs.last() {
            ContextToProcessorMsg::EventGroup(events) => events@,
            _ => Seq::empty(),
        }
    }
}

/// The requests to clear scheduled events that some messages hold, in order.
pub open spec fn all_clears<P, E, T>(msgs: Seq<ContextToProcessorMsg<P, E, T>>) -> Seq<
    ClearScheduledEventsEvent,
>
    decreases msgs.len(),
{
    if msgs.len() == 0 {
        Seq::empty()
    } else {
        all_clears(msgs.drop_last()) + match msgs.last() {
            ContextToProcessorMsg::ClearScheduledEvents(clears) => clears@,
            _ => Seq::empty(),
        }
    }
}

proof fn lemma_push<P, E, T>(msgs: Seq<ContextToProcessorMsg<P, E, T>>, msg: ContextToProcessorMsg<P, E, T>)
    ensures
        all_events(msgs.push(msg)) == all_events(msgs) + match msg {
            ContextToProcessorMsg::EventGroup(events) => events@,
            _ => Seq::empty(),
        },
        all_clears(msgs.push(msg)) == all_clears(msgs) + match msg {
            ContextToProcessorMsg::ClearScheduledEvents(clears) => clears@,
            _ => Seq::empty(),
        },
{
    assert(msgs.push(msg).drop_last() =~= msgs);
}

/// Flushing the queues neither loses nor repeats nor reorders anything: what was sent
/// and what is still queued are together the same as before, whether or not the channel
/// had room for it. What was sent before stays sent.
pub proof fn law_flush_loses_nothing<N, P, E, T, X, SE>(
    before: CtxView<N, P, E, T, X>,
    after: CtxView<N, P, E, T, X>,
    result: Result<(), UpdateError<SE>>,
)
    requires
        flushed(before, after, result),
    ensures
        all_events(after.outbox.sent) + after.events == all_events(before.outbox.sent)
            + before.events,
        all_clears(after.outbox.sent) + after.clears == all_clears(before.outbox.sent)
            + before.clears,
        before.outbox.sent.is_prefix_of(after.outbox.sent),
{
    let (clear_msg, event_msg) = choose|
        clear_msg: ContextToProcessorMsg<P, E, T>,
        event_msg: ContextToProcessorMsg<P, E, T>,
    | #[trigger]
        flushed_as(before, after, result, clear_msg, event_msg);
    let sent = before.outbox.sent;
    let cleared = if before.clears.len() > 0 {
        sent.push(clear_msg)
    } else {
        sent
    };
    lemma_push(sent, clear_msg);
    lemma_push(cleared, event_msg);
    assert(all_events(after.outbox.sent) + after.events =~= all_events(sent) + before.events);
    assert(all_clears(after.outbox.sent) + after.clears =~= all_clears(sent) + before.clears);
}

} // verus!
