//! The channels between the main thread and the audio thread. What comes out of
//! one depends on when the other thread runs.

pub mod ends;

pub use crate::channel::ends::{Receiver, Sender, SharedInput, SharedOutput};

use crate::channel::ends::{
    channel_new, gives_message, receiver_peek, receiver_pop_iter, receiver_try_pop,
    sender_try_push, shared_new, shared_read, shared_write,
};
use vstd::prelude::*;

verus! {

/// What was done with the sending end of a channel.
#[verifier::ext_equal]
#[verifier::reject_recursive_types(T)]
pub struct Outbox<T> {
    /// The messages that were to be sent, in order.
    pub offered: Seq<T>,
    /// Those of them that the channel had room for.
    pub sent: Seq<T>,
}

impl<T> Outbox<T> {
    /// After a message was sent.
    pub open spec fn accepted(self, msg: T) -> Self {
        Outbox { offered: self.offered.push(msg), sent: self.sent.push(msg) }
    }

    /// After the channel had no room for a message.
    pub open spec fn refused(self, msg: T) -> Self {
        Outbox { offered: self.offered.push(msg), sent: self.sent }
    }
}

/// What was done with the receiving end of a channel.
#[verifier::ext_equal]
#[verifier::reject_recursive_types(T)]
pub struct Inbox<T> {
    /// The messages that were taken, in order.
    pub received: Seq<T>,
    /// Whether, the last time, no message was left of those that were there.
    pub found_empty: bool,
}

impl<T> Inbox<T> {
    /// After a message was asked for.
    pub open spec fn popped(self, msg: Option<T>) -> Self {
        match msg {
            Some(msg) => Inbox { received: self.received.push(msg), found_empty: false },
            None => Inbox { received: self.received, found_empty: true },
        }
    }

    /// After all messages were taken that were there.
    pub open spec fn emptied(self, msgs: Seq<T>) -> Self {
        Inbox { received: self.received + msgs, found_empty: true }
    }

    /// Whether all messages were taken that were there.
    pub open spec fn drained(self, after: Self) -> bool {
        after == self.emptied(after.received.skip(self.received.len() as int))
    }
}

/// The two ends of a channel with room for `capacity` messages.
pub fn channel<T>(capacity: usize) -> (ends: (Sender<T>, Receiver<T>))
    requires
        0 < capacity <= 0xFFFF_FFFF,
    ensures
        ends.0.opened_with(ends.1, capacity),
        ends.0.connected_to(ends.1),
        ends.0@ == (Outbox::<T> { offered: Seq::empty(), sent: Seq::empty() }),
        ends.1@ == (Inbox::<T> { received: Seq::empty(), found_empty: false }),
{
    channel_new(capacity)
}

impl<T> Sender<T> {
    /// Whether the two ends were made as one channel with the given capacity, and nothing
    /// was done with them yet.
    pub closed spec fn opened_with(&self, receiver: Receiver<T>, capacity: usize) -> bool {
        call_ensures(channel_new::<T>, (capacity,), (*self, receiver))
    }

    /// Sends a message. If the channel is full, the message is handed back.
    pub fn try_push(&mut self, msg: T) -> (result: Result<(), T>)
        ensures
            forall|receiver: Receiver<T>| #[trigger]
                final(self).connected_to(receiver) == old(self).connected_to(receiver),
            match result {
                Ok(_) => final(self)@ == old(self)@.accepted(msg),
                Err(refused) => refused == msg && final(self)@ == old(self)@.refused(msg),
            },
    {
        sender_try_push(self, msg)
    }
}

impl<T> Receiver<T> {
    /// Whether a message is known to be there.
    pub closed spec fn waiting(&self) -> bool {
        gives_message(*self)
    }

    /// Whether this is what looking for a message has shown.
    pub closed spec fn peeked(&self, found: bool) -> bool {
        call_ensures(receiver_peek::<T>, (self,), found)
    }

    /// Takes the eldest message, if there is one.
    pub fn try_pop(&mut self) -> (msg: Option<T>)
        ensures
            forall|sender: Sender<T>| #[trigger]
                sender.connected_to(*final(self)) == sender.connected_to(*old(self)),
            final(self)@ == old(self)@.popped(msg),
            old(self).waiting() ==> msg is Some,
    {
        receiver_try_pop(self)
    }

    /// Takes all messages that are there, eldest first.
    pub fn pop_all(&mut self) -> (msgs: Vec<T>)
        ensures
            forall|sender: Sender<T>| #[trigger]
                sender.connected_to(*final(self)) == sender.connected_to(*old(self)),
            final(self)@ == old(self)@.emptied(msgs@),
    {
        receiver_pop_iter(self)
    }

    /// Whether there is a message. If so, it is there when it is asked for.
    pub fn has_message(&self) -> (found: bool)
        ensures
            self.peeked(found),
            found ==> self.waiting(),
    {
        receiver_peek(self)
    }
}

/// The two ends of a value that two threads share.
pub fn shared<T: Clone + Send>(initial: &T) -> (ends: (SharedInput<T>, SharedOutput<T>))
    ensures
        ends.0.opened_with(ends.1, *initial),
        ends.0.connected_to(ends.1),
        ends.0@ == Seq::<T>::empty(),
        ends.1@ == Seq::<T>::empty(),
{
    shared_new(initial)
}

impl<T: Clone + Send> SharedInput<T> {
    /// Whether the two ends were made for one shared value, and nothing was done with them
    /// yet.
    pub closed spec fn opened_with(&self, output: SharedOutput<T>, initial: T) -> bool {
        call_ensures(shared_new::<T>, (&initial,), (*self, output))
    }
}

impl<T: Send> SharedInput<T> {
    /// Publishes a new value.
    pub fn write(&mut self, value: T)
        ensures
            forall|output: SharedOutput<T>| #[trigger]
                final(self).connected_to(output) == old(self).connected_to(output),
            final(self)@ == old(self)@.push(value),
    {
        shared_write(self, value);
    }
}

impl<T: Send> SharedOutput<T> {
    /// The value that was published last.
    pub fn read(&mut self) -> (value: &T)
        ensures
            forall|input: SharedInput<T>| #[trigger]
                input.connected_to(*final(self)) == input.connected_to(*old(self)),
            final(self)@ == old(self)@.push(*value),
    {
        shared_read(self)
    }
}

} // verus!
