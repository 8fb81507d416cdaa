//! Events that are sent to the processors of nodes.

pub mod laws;
pub mod param_data;

use crate::clock::EventInstant;
use crate::diff::{ParamPath, Patch};
use crate::node::NodeID;
use vstd::prelude::*;
use wmidi::MidiMessage;

pub use crate::event::param_data::ParamData;

verus! {

/// A MIDI message of `wmidi`.
#[verifier::external_type_specification]
#[verifier::external_body]
pub struct ExMidiMessage<'a>(MidiMessage<'a>);

/// An event sent to the processor of a node.
pub struct NodeEvent<E> {
    /// The ID of the node that should receive the event.
    pub node_id: NodeID,
    /// Optionally, a time to schedule this event at. If `None`, the event is considered
    /// to be at the start of the next processing period.
    pub time: Option<EventInstant>,
    /// The type of event.
    pub event: NodeEventType<E>,
}

impl<E> NodeEvent<E> {
    /// Construct an event to send to the processor of a node.
    ///
    /// * `node_id` - The ID of the node that should receive the event.
    /// * `event` - The type of event.
    pub fn new(node_id: NodeID, event: NodeEventType<E>) -> (node_event: Self)
        ensures
            node_event == (NodeEvent { node_id, time: None, event }),
    {
        NodeEvent { node_id, time: None, event }
    }

    /// Construct a new scheduled event to send to the processor of a node.
    ///
    /// * `node_id` - The ID of the node that should receive the event.
    /// * `time` - The time to schedule this event at.
    /// * `event` - The type of event.
    pub fn scheduled(node_id: NodeID, time: EventInstant, event: NodeEventType<E>) -> (node_event:
        Self)
        ensures
            node_event == (NodeEvent { node_id, time: Some(time), event }),
    {
        NodeEvent { node_id, time: Some(time), event }
    }
}

/// An event type associated with the processor of a node.
#[non_exhaustive]
pub enum NodeEventType<E> {
    Param {
        /// Data for a specific parameter.
        data: ParamData<E>,
        /// The path to the parameter.
        path: ParamPath,
    },
    /// Custom event type stored on the heap.
    Custom(E),
    /// Custom event type stored on the stack as raw bytes.
    CustomBytes([u8; 36]),
    MIDI(MidiMessage<'static>),
}

impl<E> NodeEventType<E> {
    /// A custom event.
    pub fn custom(value: E) -> (event: Self)
        ensures
            event == NodeEventType::Custom(value),
    {
        NodeEventType::Custom(value)
    }

    /// An immutable reference to the custom event.
    ///
    /// If this does not contain [`NodeEventType::Custom`], then this returns `None`.
    pub fn downcast_ref(&self) -> (value: Option<&E>)
        ensures
            match self {
                NodeEventType::Custom(v) => value == Some(v),
                _ => value is None,
            },
    {
        match self {
            NodeEventType::Custom(v) => Some(v),
            _ => None,
        }
    }

    /// A mutable reference to the custom event.
    ///
    /// If this does not contain [`NodeEventType::Custom`], then this returns `None`.
    pub fn downcast_mut(&mut self) -> (value: Option<&mut E>)
        ensures
            match *old(self) {
                NodeEventType::Custom(v) => value matches Some(w) && *w == v && *final(self)
                    == NodeEventType::Custom(*final(w)),
                _ => value is None && *final(self) == *old(self),
            },
    {
        match self {
            NodeEventType::Custom(v) => Some(v),
            _ => None,
        }
    }
}

/// A list of events for the processor of a node.
pub struct ProcEvents<E> {
    events: Vec<NodeEvent<E>>,
}

impl<E> View for ProcEvents<E> {
    type V = Seq<NodeEvent<E>>;

    closed spec fn view(&self) -> Seq<NodeEvent<E>> {
        self.events@
    }
}

/// The patches among the results of constructing them, with what belongs to each.
pub open spec fn constructed<P, A>(found: Seq<(Option<P>, A)>) -> Seq<(P, A)>
    decreases found.len(),
{
    if found.len() == 0 {
        Seq::empty()
    } else {
        let before = constructed(found.drop_last());
        match found.last().0 {
            Some(patch) => before.push((patch, found.last().1)),
            None => before,
        }
    }
}

/// Whether `found` is what becomes of constructing patches for `T` from events.
pub open spec fn patches_of<T: Patch<E>, E>(
    events: Seq<NodeEvent<E>>,
    found: Seq<(Option<T::Patch>, Option<EventInstant>)>,
) -> bool {
    &&& found.len() == events.len()
    &&& forall|i: int|
        0 <= i < events.len() ==> call_ensures(
            T::patch_event,
            (&events[i].event,),
            (#[trigger] found[i]).0,
        ) && found[i].1 == events[i].time
}

impl<E> ProcEvents<E> {
    /// A list of events.
    pub fn new(events: Vec<NodeEvent<E>>) -> (list: Self)
        ensures
            list@ == events@,
    {
        ProcEvents { events }
    }

    /// The number of events.
    pub fn num_events(&self) -> (num: usize)
        ensures
            num == self@.len(),
    {
        self.events.len()
    }

    /// All events and their timestamps. They are drained from the list.
    ///
    /// The timestamp is the instant the event was scheduled for. If the event was not
    /// scheduled, it is `None`.
    pub fn drain_with_timestamps(&mut self) -> (events: Vec<
        (NodeEventType<E>, Option<EventInstant>),
    >)
        ensures
            final(self)@.len() == 0,
            events@ == old(self)@.map_values(|e: NodeEvent<E>| (e.event, e.time)),
    {
        let ghost all = self.events@;
        let mut reversed: Vec<NodeEvent<E>> = Vec::new();
        while self.events.len() > 0
            invariant
                self.events@.len() + reversed@.len() == all.len(),
                self.events@ == all.take(self.events@.len() as int),
                reversed@ == all.skip(self.events@.len() as int).reverse(),
            decreases self.events@.len(),
        {
            let ghost n = self.events@.len() as int;
            if let Some(event) = self.events.pop() {
                assert(self.events@ =~= all.take(n - 1));
                reversed.push(event);
                assert(reversed@ =~= all.skip(n - 1).reverse());
            }
        }
        assert(all.skip(0) =~= all);
        let mut events: Vec<(NodeEventType<E>, Option<EventInstant>)> = Vec::new();
        while reversed.len() > 0
            invariant
                events@.len() + reversed@.len() == all.len(),
                reversed@ == all.skip(events@.len() as int).reverse(),
                events@ == all.take(events@.len() as int).map_values(
                    |e: NodeEvent<E>| (e.event, e.time),
                ),
            decreases reversed@.len(),
        {
            let ghost k = events@.len() as int;
            let ghost n = reversed@.len() as int;
            assert(reversed@[n - 1] == all[k]);
            if let Some(event) = reversed.pop() {
                assert(reversed@ =~= all.skip(k + 1).reverse());
                events.push((event.event, event.time));
                assert(events@ =~= all.take(k + 1).map_values(
                    |e: NodeEvent<E>| (e.event, e.time),
                ));
            }
        }
        assert(all.take(all.len() as int) =~= all);
        events
    }

    /// All events. They are drained from the list.
    pub fn drain(&mut self) -> (events: Vec<NodeEventType<E>>)
        ensures
            final(self)@.len() == 0,
            events@ == old(self)@.map_values(|e: NodeEvent<E>| e.event),
    {
        let ghost all = self@;
        let mut pairs = self.drain_with_timestamps();
        let ghost pairs0 = pairs@;
        let mut reversed: Vec<NodeEventType<E>> = Vec::new();
        while pairs.len() > 0
            invariant
                pairs@.len() + reversed@.len() == pairs0.len(),
                pairs@ == pairs0.take(pairs@.len() as int),
                reversed@ == pairs0.skip(pairs@.len() as int).reverse().map_values(
                    |p: (NodeEventType<E>, Option<EventInstant>)| p.0,
                ),
            decreases pairs@.len(),
        {
            let ghost n = pairs@.len() as int;
            if let Some(pair) = pairs.pop() {
                assert(pairs@ =~= pairs0.take(n - 1));
                reversed.push(pair.0);
                assert(reversed@ =~= pairs0.skip(n - 1).reverse().map_values(
                    |p: (NodeEventType<E>, Option<EventInstant>)| p.0,
                ));
            }
        }
        assert(pairs0.skip(0) =~= pairs0);
        let mut events: Vec<NodeEventType<E>> = Vec::new();
        while reversed.len() > 0
            invariant
                pairs0.len() == all.len(),
                pairs0 == all.map_values(|e: NodeEvent<E>| (e.event, e.time)),
                events@.len() + reversed@.len() == pairs0.len(),
                reversed@ == pairs0.skip(events@.len() as int).reverse().map_values(
                    |p: (NodeEventType<E>, Option<EventInstant>)| p.0,
                ),
                events@ == all.take(events@.len() as int).map_values(|e: NodeEvent<E>| e.event),
            decreases reversed@.len(),
        {
            let ghost k = events@.len() as int;
            let ghost n = reversed@.len() as int;
            assert(reversed@[n - 1] == pairs0[k].0);
            if let Some(event) = reversed.pop() {
                assert(reversed@ =~= pairs0.skip(k + 1).reverse().map_values(
                    |p: (NodeEventType<E>, Option<EventInstant>)| p.0,
                ));
                events.push(event);
                assert(events@ =~= all.take(k + 1).map_values(|e: NodeEvent<E>| e.event));
            }
        }
        assert(all.take(all.len() as int) =~= all);
        events
    }

    /// The patches for `T`, each with the instant its event was scheduled for. The
    /// events are drained from the list. Errors produced while constructing patches
    /// are simply skipped.
    pub fn drain_patches_with_timestamps<T: Patch<E>>(&mut self) -> (patches: Vec<
        (T::Patch, Option<EventInstant>),
    >)
        requires
            forall|e: &NodeEventType<E>| #[trigger] call_requires(T::patch_event, (e,)),
        ensures
            final(self)@.len() == 0,
            exists|found: Seq<(Option<T::Patch>, Option<EventInstant>)>| #[trigger]
                patches_of::<T, E>(old(self)@, found) && patches@ == constructed(found),
    {
        let ghost all = self@;
        let events = self.drain_with_timestamps();
        let mut patches: Vec<(T::Patch, Option<EventInstant>)> = Vec::new();
        let ghost mut found: Seq<(Option<T::Patch>, Option<EventInstant>)> = Seq::empty();
        let len: usize = events.len();
        for i in 0..len
            invariant
                len == all.len(),
                events@ == all.map_values(|e: NodeEvent<E>| (e.event, e.time)),
                forall|e: &NodeEventType<E>| #[trigger] call_requires(T::patch_event, (e,)),
                patches_of::<T, E>(all.take(i as int), found),
                patches@ == constructed(found),
        {
            let patch = T::patch_event(&events[i].0);
            let ghost patch0 = patch;
            let timestamp = events[i].1;
            proof {
                let next = found.push((patch0, timestamp));
                assert(next.drop_last() =~= found);
                assert(all.take(i + 1)[i as int] == all[i as int]);
                assert forall|j: int| 0 <= j < all.take(i + 1).len() implies call_ensures(
                    T::patch_event,
                    (&all.take(i + 1)[j].event,),
                    (#[trigger] next[j]).0,
                ) && next[j].1 == all.take(i + 1)[j].time by {
                    if j < i {
                        assert(all.take(i + 1)[j] == all.take(i as int)[j]);
                        assert(next[j] == found[j]);
                    }
                }
                found = next;
            }
            if let Some(patch) = patch {
                patches.push((patch, timestamp));
            }
        }
        assert(all.take(len as int) =~= all);
        patches
    }

    /// The patches for `T`. The events are drained from the list. Errors produced
    /// while constructing patches are simply skipped.
    pub fn drain_patches<T: Patch<E>>(&mut self) -> (patches: Vec<T::Patch>)
        requires
            forall|e: &NodeEventType<E>| #[trigger] call_requires(T::patch_event, (e,)),
        ensures
            final(self)@.len() == 0,
            exists|found: Seq<(Option<T::Patch>, Option<EventInstant>)>| #[trigger]
                patches_of::<T, E>(old(self)@, found) && patches@ == constructed(found).map_values(
                    |p: (T::Patch, Option<EventInstant>)| p.0,
                ),
    {
        let mut pairs = self.drain_patches_with_timestamps::<T>();
        let ghost pairs0 = pairs@;
        let mut reversed: Vec<T::Patch> = Vec::new();
        while pairs.len() > 0
            invariant
                pairs@.len() + reversed@.len() == pairs0.len(),
                pairs@ == pairs0.take(pairs@.len() as int),
                reversed@ == pairs0.skip(pairs@.len() as int).reverse().map_values(
                    |p: (T::Patch, Option<EventInstant>)| p.0,
                ),
            decreases pairs@.len(),
        {
            let ghost n = pairs@.len() as int;
            if let Some(pair) = pairs.pop() {
                assert(pairs@ =~= pairs0.take(n - 1));
                reversed.push(pair.0);
                assert(reversed@ =~= pairs0.skip(n - 1).reverse().map_values(
                    |p: (T::Patch, Option<EventInstant>)| p.0,
                ));
            }
        }
        assert(pairs0.skip(0) =~= pairs0);
        let mut patches: Vec<T::Patch> = Vec::new();
        while reversed.len() > 0
            invariant
                patches@.len() + reversed@.len() == pairs0.len(),
                reversed@ == pairs0.skip(patches@.len() as int).reverse().map_values(
                    |p: (T::Patch, Option<EventInstant>)| p.0,
                ),
                patches@ == pairs0.take(patches@.len() as int).map_values(
                    |p: (T::Patch, Option<EventInstant>)| p.0,
                ),
            decreases reversed@.len(),
        {
            let ghost k = patches@.len() as int;
            let ghost n = reversed@.len() as int;
            assert(reversed@[n - 1] == pairs0[k].0);
            if let Some(patch) = reversed.pop() {
                assert(reversed@ =~= pairs0.skip(k + 1).reverse().map_values(
                    |p: (T::Patch, Option<EventInstant>)| p.0,
                ));
                patches.push(patch);
                assert(patches@ =~= pairs0.take(k + 1).map_values(
                    |p: (T::Patch, Option<EventInstant>)| p.0,
                ));
            }
        }
        assert(pairs0.take(pairs0.len() as int) =~= pairs0);
        patches
    }
}

/// Used internally by the Firewheel processor.
#[derive(Debug, Clone, Copy, PartialEq, Eq, Structural)]
pub enum ProcEventsIndex {
    Immediate(u32),
    Scheduled(u32),
}

/// The patches that are drained are those of the events, in order, and none is left out but
/// where an event gives none.
pub proof fn law_patches_are_in_order<P, A>(first: Seq<(Option<P>, A)>, second: Seq<(Option<P>, A)>)
    ensures
        constructed(first + second) == constructed(first) + constructed(second),
        forall|patch: P, at: A| #[trigger]
            constructed(seq![(Some(patch), at)]) =~= seq![(patch, at)],
        forall|at: A| (#[trigger] constructed(seq![(None::<P>, at)])).len() == 0,
        constructed(first).len() <= first.len(),
        (forall|i: int| 0 <= i < first.len() ==> (#[trigger] first[i]).0 is Some) ==> constructed(
            first,
        ).len() == first.len(),
    decreases first.len(), second.len(),
{
    reveal_with_fuel(constructed, 3);
    assert forall|patch: P, at: A| #[trigger]
        constructed(seq![(Some(patch), at)]) =~= seq![(patch, at)] by {
        assert(seq![(Some(patch), at)].drop_last() =~= Seq::<(Option<P>, A)>::empty());
        assert(seq![(Some(patch), at)].last() == (Some(patch), at));
    }
    assert forall|at: A| (#[trigger] constructed(seq![(None::<P>, at)])).len() == 0 by {
        assert(seq![(None::<P>, at)].drop_last() =~= Seq::<(Option<P>, A)>::empty());
        assert(seq![(None::<P>, at)].last() == (None::<P>, at));
    }
    if second.len() == 0 {
        assert(first + second =~= first);
        if first.len() > 0 {
            law_patches_are_in_order(first.drop_last(), second);
            assert(first.drop_last() + second =~= first.drop_last());
            assert(forall|i: int|
                0 <= i < first.drop_last().len() ==> first.drop_last()[i] == first[i]);
        }
    } else {
        law_patches_are_in_order(first, second.drop_last());
        assert((first + second).drop_last() =~= first + second.drop_last());
        assert((first + second).last() == second.last());
    }
}

/// Each event is asked for its patch, and the patch has the time of its event.
pub proof fn law_patch_has_the_time_of_its_event<T: Patch<E>, E>(
    events: Seq<NodeEvent<E>>,
    found: Seq<(Option<T::Patch>, Option<EventInstant>)>,
    i: int,
)
    requires
        patches_of::<T, E>(events, found),
        0 <= i < events.len(),
    ensures
        found.len() == events.len(),
        found[i].1 == events[i].time,
        call_ensures(T::patch_event, (&events[i].event,), found[i].0),
{
}

} // verus!
