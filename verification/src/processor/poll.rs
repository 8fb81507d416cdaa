//! Polling for messages from the main thread.

use crate::channel::{Receiver, Sender};
use crate::clock::{EventInstant, InstantSamples};
use crate::processor::event_scheduler::EventBufferFull;
use crate::processor::inner::{
    msg_handled, msg_ok, ContextToProcessorMsg, FirewheelProcessorInner, ProcessorToContextMsg,
    ProcessorView,
};
use vstd::prelude::*;

verus! {

/// Why polling for messages has failed.
#[derive(Debug, Clone, Copy, PartialEq, Eq, Structural)]
pub enum PollError {
    /// A buffer for events is full, and the engine is configured to panic, or it cannot
    /// grow any more.
    EventBufferFull,
    /// A message does not fit the state of the audio thread.
    MessageMisfit,
}

/// Whether handling a message that was received leads from one state to another, and
/// gives a reply.
pub open spec fn step<
    P,
    E,
    T,
    Q,
    G: Fn(Q, T, InstantSamples) -> (Q, T),
    F: Fn(&Q, EventInstant) -> Option<InstantSamples>,
>(
    set: G,
    convert: F,
    before: (ProcessorView<P, E>, Q),
    msg: ContextToProcessorMsg<P, E, T>,
    after: (ProcessorView<P, E>, Q),
    reply: Option<ProcessorToContextMsg<P, E, T>>,
) -> bool {
    msg_ok(before.0, msg) && msg_handled(set, convert, before, msg, after, Ok(reply))
}

/// Whether a message that was received cannot be handled.
pub open spec fn step_fails<
    P,
    E,
    T,
    Q,
    G: Fn(Q, T, InstantSamples) -> (Q, T),
    F: Fn(&Q, EventInstant) -> Option<InstantSamples>,
>(
    set: G,
    convert: F,
    before: (ProcessorView<P, E>, Q),
    msg: ContextToProcessorMsg<P, E, T>,
    after: (ProcessorView<P, E>, Q),
    error: PollError,
) -> bool {
    match error {
        PollError::MessageMisfit => !msg_ok(before.0, msg) && after == (
            ProcessorView { poisoned: true, ..before.0 },
            before.1,
        ),
        PollError::EventBufferFull => msg_ok(before.0, msg) && msg_handled(
            set,
            convert,
            before,
            msg,
            after,
            Err(EventBufferFull),
        ),
    }
}

/// What happened while polling: the messages that were handled, the states before and
/// after each of them, and their replies.
#[verifier::ext_equal]
#[verifier::reject_recursive_types(P)]
#[verifier::reject_recursive_types(E)]
#[verifier::reject_recursive_types(T)]
#[verifier::reject_recursive_types(Q)]
pub struct PollTrace<P, E, T, Q> {
    /// The messages.
    pub received: Seq<ContextToProcessorMsg<P, E, T>>,
    /// The states of the audio thread and of its transport.
    pub views: Seq<(ProcessorView<P, E>, Q)>,
    /// The replies.
    pub replies: Seq<Option<ProcessorToContextMsg<P, E, T>>>,
}

/// Whether handling some messages, one after the other, leads through some states, from
/// the first to the last one.
pub open spec fn polled<
    P,
    E,
    T,
    Q,
    G: Fn(Q, T, InstantSamples) -> (Q, T),
    F: Fn(&Q, EventInstant) -> Option<InstantSamples>,
>(
    set: G,
    convert: F,
    first: (ProcessorView<P, E>, Q),
    trace: PollTrace<P, E, T, Q>,
    last: (ProcessorView<P, E>, Q),
) -> bool {
    &&& trace.views.len() == trace.received.len() + 1
    &&& trace.replies.len() == trace.received.len()
    &&& trace.views[0] == first
    &&& trace.views.last() == last
    &&& forall|i: int|
        0 <= i < trace.received.len() ==> step(
            set,
            convert,
            trace.views[i],
            #[trigger] trace.received[i],
            trace.views[i + 1],
            trace.replies[i],
        )
}

/// The replies that there are, in order.
pub open spec fn some_of<T>(replies: Seq<Option<T>>) -> Seq<T>
    decreases replies.len(),
{
    if replies.len() == 0 {
        Seq::empty()
    } else {
        match replies.last() {
            Some(reply) => some_of(replies.drop_last()).push(reply),
            None => some_of(replies.drop_last()),
        }
    }
}

/// A message that was handled extends a trace.
proof fn lemma_polled_push<
    P,
    E,
    T,
    Q,
    G: Fn(Q, T, InstantSamples) -> (Q, T),
    F: Fn(&Q, EventInstant) -> Option<InstantSamples>,
>(
    set: G,
    convert: F,
    first: (ProcessorView<P, E>, Q),
    trace: PollTrace<P, E, T, Q>,
    last: (ProcessorView<P, E>, Q),
    msg: ContextToProcessorMsg<P, E, T>,
    after: (ProcessorView<P, E>, Q),
    reply: Option<ProcessorToContextMsg<P, E, T>>,
)
    requires
        polled(set, convert, first, trace, last),
        step(set, convert, last, msg, after, reply),
    ensures
        polled(
            set,
            convert,
            first,
            (PollTrace {
                received: trace.received.push(msg),
                views: trace.views.push(after),
                replies: trace.replies.push(reply),
            }),
            after,
        ),
        some_of(trace.replies.push(reply)) == (match reply {
            Some(r) => some_of(trace.replies).push(r),
            None => some_of(trace.replies),
        }),
{
    let received = trace.received.push(msg);
    let views = trace.views.push(after);
    let replies = trace.replies.push(reply);
    assert forall|i: int| 0 <= i < received.len() implies step(
        set,
        convert,
        views[i],
        #[trigger] received[i],
        views[i + 1],
        replies[i],
    ) by {
        if i < trace.received.len() {
            assert(received[i] == trace.received[i]);
            assert(views[i] == trace.views[i]);
            assert(views[i + 1] == trace.views[i + 1]);
            assert(replies[i] == trace.replies[i]);
        } else {
            assert(views[i] == trace.views.last());
        }
    }
    assert(replies.drop_last() =~= trace.replies);
}

impl<P, E> FirewheelProcessorInner<P, E> {
    /// Whether a message can be handled.
    fn accepts<T>(&self, msg: &ContextToProcessorMsg<P, E, T>) -> (accepted: bool)
        requires
            self.wf(),
        ensures
            accepted == msg_ok(self@, *msg),
    {
        match msg {
            ContextToProcessorMsg::NewSchedule(update) => self.fits(update),
            _ => true,
        }
    }

    /// Handles a message, if it fits. Returns what must not be dropped on the audio thread,
    /// and the transport.
    fn check_and_handle<
        T,
        Q,
        G: Fn(Q, T, InstantSamples) -> (Q, T),
        F: Fn(&Q, EventInstant) -> Option<InstantSamples>,
    >(
        &mut self,
        msg: ContextToProcessorMsg<P, E, T>,
        transport: Q,
        set: &G,
        convert: &F,
    ) -> (handled: (Result<Option<ProcessorToContextMsg<P, E, T>>, PollError>, Q))
        requires
            old(self).wf(),
            forall|q: Q, state: T, at: InstantSamples| #[trigger] call_requires(*set, (q, state, at)),
            forall|q: &Q, i: EventInstant| #[trigger] call_requires(*convert, (q, i)),
        ensures
            match handled.0 {
                Ok(reply) => final(self).wf() && step(
                    *set,
                    *convert,
                    (old(self)@, transport),
                    msg,
                    (final(self)@, handled.1),
                    reply,
                ),
                Err(error) => final(self)@.poisoned && step_fails(
                    *set,
                    *convert,
                    (old(self)@, transport),
                    msg,
                    (final(self)@, handled.1),
                    error,
                ),
            },
    {
        if !self.accepts(&msg) {
            self.poison();
            return (Err(PollError::MessageMisfit), transport);
        }
        match self.handle_message(msg, transport, set, convert) {
            (Ok(reply), transport) => (Ok(reply), transport),
            (Err(_), transport) => (Err(PollError::EventBufferFull), transport),
        }
    }

    /// Handles the messages that are there, one after the other, until there is none,
    /// and sends back what must not be dropped on the audio thread. What there is no room
    /// for is dropped after all. A message that cannot be handled ends this. Returns the
    /// transport; see [`FirewheelProcessorInner::handle_message`] for `set` and `convert`.
    pub fn poll_messages<
        T,
        Q,
        G: Fn(Q, T, InstantSamples) -> (Q, T),
        F: Fn(&Q, EventInstant) -> Option<InstantSamples>,
    >(
        &mut self,
        from_context_rx: &mut Receiver<ContextToProcessorMsg<P, E, T>>,
        to_context_tx: &mut Sender<ProcessorToContextMsg<P, E, T>>,
        transport: Q,
        set: &G,
        convert: &F,
    ) -> (outcome: (Result<(), PollError>, Q))
        requires
            old(self).wf(),
            forall|q: Q, state: T, at: InstantSamples| #[trigger] call_requires(*set, (q, state, at)),
            forall|q: &Q, i: EventInstant| #[trigger] call_requires(*convert, (q, i)),
        ensures
            match outcome.0 {
                Ok(_) => final(self).wf() && exists|trace: PollTrace<P, E, T, Q>| #[trigger]
                    polled(
                        *set,
                        *convert,
                        (old(self)@, transport),
                        trace,
                        (final(self)@, outcome.1),
                    ) && {
                        &&& final(from_context_rx)@.received == old(from_context_rx)@.received
                            + trace.received
                        &&& final(from_context_rx)@.found_empty || trace.received.len()
                            == usize::MAX
                        &&& final(to_context_tx)@.offered == old(to_context_tx)@.offered + some_of(
                            trace.replies,
                        )
                    },
                Err(error) => final(self)@.poisoned && exists|
                    trace: PollTrace<P, E, T, Q>,
                    view: (ProcessorView<P, E>, Q),
                | #[trigger]
                    polled(*set, *convert, (old(self)@, transport), trace, view) && {
                        let received = final(from_context_rx)@.received;
                        &&& received.len() > 0
                        &&& received.drop_last() == old(from_context_rx)@.received + trace.received
                        &&& step_fails(
                            *set,
                            *convert,
                            view,
                            received.last(),
                            (final(self)@, outcome.1),
                            error,
                        )
                        &&& final(to_context_tx)@.offered == old(to_context_tx)@.offered + some_of(
                            trace.replies,
                        )
                    },
            },
    {
        let ghost first = (self@, transport);
        let ghost mut trace = PollTrace::<P, E, T, Q> {
            received: Seq::empty(),
            views: seq![first],
            replies: Seq::empty(),
        };
        let mut state = transport;
        let mut left: usize = usize::MAX;
        proof {
            assert(from_context_rx@.received + trace.received =~= from_context_rx@.received);
            assert(to_context_tx@.offered + some_of(trace.replies) =~= to_context_tx@.offered);
        }
        while left > 0
            invariant
                self.wf(),
                first == (old(self)@, transport),
                forall|q: Q, state: T, at: InstantSamples| #[trigger]
                    call_requires(*set, (q, state, at)),
                forall|q: &Q, i: EventInstant| #[trigger] call_requires(*convert, (q, i)),
                polled(*set, *convert, first, trace, (self@, state)),
                trace.received.len() + left == usize::MAX,
                from_context_rx@.received == old(from_context_rx)@.received + trace.received,
                to_context_tx@.offered == old(to_context_tx)@.offered + some_of(trace.replies),
            decreases left,
        {
            match from_context_rx.try_pop() {
                Some(msg) => {
                    let ghost msg0 = msg;
                    let ghost view0 = (self@, state);
                    let (handled, next) = self.check_and_handle(msg, state, set, convert);
                    state = next;
                    match handled {
                        Ok(reply) => {
                            let ghost reply0 = reply;
                            let ghost offered0 = to_context_tx@.offered;
                            if let Some(reply) = reply {
                                let _ = to_context_tx.try_push(reply);
                            }
                            proof {
                                let view1 = (self@, state);
                                lemma_polled_push(
                                    *set,
                                    *convert,
                                    first,
                                    trace,
                                    view0,
                                    msg0,
                                    view1,
                                    reply0,
                                );
                                assert(from_context_rx@.received =~= old(from_context_rx)@.received
                                    + trace.received.push(msg0));
                                assert(to_context_tx@.offered =~= old(to_context_tx)@.offered
                                    + some_of(trace.replies.push(reply0)));
                                trace = PollTrace {
                                    received: trace.received.push(msg0),
                                    views: trace.views.push(view1),
                                    replies: trace.replies.push(reply0),
                                };
                            }
                        },
                        Err(error) => {
                            proof {
                                assert(polled(*set, *convert, first, trace, view0));
                                assert(from_context_rx@.received.drop_last() =~= old(
                                    from_context_rx,
                                )@.received + trace.received);
                            }
                            return (Err(error), state);
                        },
                    }
                },
                None => {
                    return (Ok(()), state);
                },
            }
            left = left - 1;
        }
        (Ok(()), state)
    }
}

} // verus!
