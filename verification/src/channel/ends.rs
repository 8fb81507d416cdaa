//! The ends of the channels, with a record of what was done with each. Only a call of
//! `ringbuf` or `triple_buffer` changes a record.

use crate::channel::{Inbox, Outbox};
use ringbuf::traits::{Consumer, Producer, Split};
use vstd::prelude::*;

verus! {

/// The producer of a ring buffer.
#[verifier::external_body]
#[verifier::reject_recursive_types(T)]
struct SenderEnd<T> {
    tx: ringbuf::HeapProd<T>,
}

/// The consumer of a ring buffer.
#[verifier::external_body]
#[verifier::reject_recursive_types(T)]
struct ReceiverEnd<T> {
    rx: ringbuf::HeapCons<T>,
}

/// The sending end of a message channel.
#[verifier::reject_recursive_types(T)]
pub struct Sender<T> {
    end: SenderEnd<T>,
    channel: Ghost<int>,
    log: Ghost<Outbox<T>>,
}

/// The receiving end of a message channel.
#[verifier::reject_recursive_types(T)]
pub struct Receiver<T> {
    end: ReceiverEnd<T>,
    channel: Ghost<int>,
    log: Ghost<Inbox<T>>,
}

impl<T> View for Sender<T> {
    type V = Outbox<T>;

    closed spec fn view(&self) -> Outbox<T> {
        self.log@
    }
}

impl<T> View for Receiver<T> {
    type V = Inbox<T>;

    closed spec fn view(&self) -> Inbox<T> {
        self.log@
    }
}

impl<T> Sender<T> {
    /// Whether the other end belongs to the same channel.
    pub closed spec fn connected_to(&self, receiver: Receiver<T>) -> bool {
        self.channel == receiver.channel
    }
}

/// `ringbuf::HeapRb::new` and `Split::split`: the two ends of one empty channel.
/// Nothing is said of how many messages fit, as that shows only in what
/// [`sender_try_push`] returns. It panics on a capacity of zero, and on one that
/// overflows the address space.
#[verifier::external_body]
pub(crate) fn channel_new<T>(capacity: usize) -> (ends: (Sender<T>, Receiver<T>))
    requires
        0 < capacity <= 0xFFFF_FFFF,
    ensures
        ends.0.connected_to(ends.1),
        ends.0@ == (Outbox::<T> { offered: Seq::empty(), sent: Seq::empty() }),
        ends.1@ == (Inbox::<T> { received: Seq::empty(), found_empty: false }),
{
    let (tx, rx) = ringbuf::HeapRb::<T>::new(capacity).split();
    let sender = Sender { end: SenderEnd { tx }, channel: Ghost(0), log: Ghost(arbitrary()) };
    let receiver = Receiver { end: ReceiverEnd { rx }, channel: Ghost(0), log: Ghost(arbitrary()) };
    (sender, receiver)
}

/// `ringbuf::traits::Producer::try_push`: appends the message, or hands it back as it
/// was if the channel is full, and the record of the end says which. Whether the channel
/// is full depends on what the other thread has taken in the meantime.
#[verifier::external_body]
pub(crate) fn sender_try_push<T>(sender: &mut Sender<T>, msg: T) -> (result: Result<(), T>)
    ensures
        forall|receiver: Receiver<T>| #[trigger]
            final(sender).connected_to(receiver) == old(sender).connected_to(receiver),
        match result {
            Ok(_) => final(sender)@ == old(sender)@.accepted(msg),
            Err(refused) => refused == msg && final(sender)@ == old(sender)@.refused(msg),
        },
{
    sender.end.tx.try_push(msg)
}

/// `ringbuf::traits::Consumer::try_pop`: takes the eldest message, or gives `None` if the
/// channel is empty, and the record of the end says which. What is there depends on what
/// the other thread has sent, so nothing is said of it.
#[verifier::external_body]
pub(crate) fn receiver_try_pop<T>(receiver: &mut Receiver<T>) -> (msg: Option<T>)
    ensures
        forall|sender: Sender<T>| #[trigger]
            sender.connected_to(*final(receiver)) == sender.connected_to(*old(receiver)),
        final(receiver)@ == old(receiver)@.popped(msg),
{
    receiver.end.rx.try_pop()
}

/// `ringbuf::traits::Consumer::pop_iter`, run to its end: takes the messages that are in
/// the channel at the call, eldest first, and the record of the end says which. What is
/// there depends on what the other thread has sent, so nothing is said of it.
#[verifier::external_body]
pub(crate) fn receiver_pop_iter<T>(receiver: &mut Receiver<T>) -> (msgs: Vec<T>)
    ensures
        forall|sender: Sender<T>| #[trigger]
            sender.connected_to(*final(receiver)) == sender.connected_to(*old(receiver)),
        final(receiver)@ == old(receiver)@.emptied(msgs@),
{
    receiver.end.rx.pop_iter().collect()
}

/// Whether [`receiver_try_pop`], called on an end as it is now, gives a message.
pub(crate) open spec fn gives_message<T>(end: Receiver<T>) -> bool {
    forall|receiver: &mut Receiver<T>, msg: Option<T>|
        *receiver == end && #[trigger] call_ensures(receiver_try_pop::<T>, (receiver,), msg)
            ==> msg is Some
}

/// `ringbuf::traits::Consumer::try_peek`: whether there is a message. One that was seen
/// stays until this end takes it, as no other end does, so that
/// [`receiver_try_pop`] then gives a message. When there is none depends on what the
/// other thread has sent, so nothing is said of that.
#[verifier::external_body]
pub(crate) fn receiver_peek<T>(receiver: &Receiver<T>) -> (found: bool)
    ensures
        found ==> gives_message(*receiver),
{
    receiver.end.rx.try_peek().is_some()
}

/// The end of a shared value to which the latest one is written.
#[verifier::external_type_specification]
#[verifier::external_body]
#[verifier::reject_recursive_types(T)]
pub struct ExInput<T: Send>(triple_buffer::Input<T>);

/// The end of a shared value from which the latest one is read.
#[verifier::external_type_specification]
#[verifier::external_body]
#[verifier::reject_recursive_types(T)]
pub struct ExOutput<T: Send>(triple_buffer::Output<T>);

/// The end of a shared value to which new ones are written.
#[verifier::reject_recursive_types(T)]
pub struct SharedInput<T: Send> {
    input: triple_buffer::Input<T>,
    shared: Ghost<int>,
    written: Ghost<Seq<T>>,
}

/// The end of a shared value from which the latest one is read.
#[verifier::reject_recursive_types(T)]
pub struct SharedOutput<T: Send> {
    output: triple_buffer::Output<T>,
    shared: Ghost<int>,
    reads: Ghost<Seq<T>>,
}

impl<T: Send> View for SharedInput<T> {
    type V = Seq<T>;

    /// The values that were published, in order.
    closed spec fn view(&self) -> Seq<T> {
        self.written@
    }
}

impl<T: Send> View for SharedOutput<T> {
    type V = Seq<T>;

    /// The values that were read, in order.
    closed spec fn view(&self) -> Seq<T> {
        self.reads@
    }
}

impl<T: Send> SharedInput<T> {
    /// Whether the other end belongs to the same shared value.
    pub closed spec fn connected_to(&self, output: SharedOutput<T>) -> bool {
        self.shared == output.shared
    }
}

/// `triple_buffer::triple_buffer`: the two ends of one shared value.
#[verifier::external_body]
pub(crate) fn shared_new<T: Clone + Send>(initial: &T) -> (ends: (SharedInput<T>, SharedOutput<T>))
    ensures
        ends.0.connected_to(ends.1),
        ends.0@ == Seq::<T>::empty(),
        ends.1@ == Seq::<T>::empty(),
{
    let (input, output) = triple_buffer::triple_buffer(initial);
    let input = SharedInput { input, shared: Ghost(0), written: Ghost(arbitrary()) };
    let output = SharedOutput { output, shared: Ghost(0), reads: Ghost(arbitrary()) };
    (input, output)
}

/// `triple_buffer::Input::write`: publishes a new value, and the record of the end says
/// so.
#[verifier::external_body]
pub(crate) fn shared_write<T: Send>(input: &mut SharedInput<T>, value: T)
    ensures
        forall|output: SharedOutput<T>| #[trigger]
            final(input).connected_to(output) == old(input).connected_to(output),
        final(input)@ == old(input)@.push(value),
{
    input.input.write(value)
}

/// `triple_buffer::Output::read`: the value that was published last, and the record of
/// the end says which. It depends on what the other thread has written, so nothing is
/// said of it.
#[verifier::external_body]
pub(crate) fn shared_read<T: Send>(output: &mut SharedOutput<T>) -> (value: &T)
    ensures
        forall|input: SharedInput<T>| #[trigger]
            input.connected_to(*final(output)) == input.connected_to(*old(output)),
        final(output)@ == old(output)@.push(*value),
{
    output.output.read()
}

} // verus!
