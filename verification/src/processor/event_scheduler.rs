//! Keeps the events of nodes until they are due, and hands them out at the
//! frame at which they happen.

use crate::clock::{EventInstant, InstantMusical, InstantSamples, NEVER};
use crate::event::{NodeEvent, ProcEventsIndex};
use crate::id_table::IdTable;
use crate::node::NodeID;
use crate::processor::clump_list::{ClumpList, MAX_CLUMP_INDICES};
use crate::context::ClearScheduledEventsType;
use crate::processor::{BufferOutOfSpaceMode, ClearScheduledEventsEvent};
use vstd::prelude::*;

verus! {

/// What the scheduler keeps for each node.
pub struct NodeEventSchedulerData {
    /// The number of immediate events for the node.
    pub num_immediate_events: usize,
    /// The index of the first event in a clump of events for this node.
    /// Events for a single node are likely to be clumped together.
    pub immediate_event_clump_indices: ClumpList,
    /// The number of scheduled events for the node at a musical time.
    pub num_scheduled_musical_events: usize,
    /// The number of scheduled events for the node at another time.
    pub num_scheduled_non_musical_events: usize,
    /// The number of scheduled events for the node that are due in this block.
    pub num_scheduled_events_this_block: usize,
    /// Where the first of them is found.
    pub first_sorted_event_index: usize,
}

/// A node on the audio thread. `P` is what processes it.
pub struct ProcNode<P> {
    pub processor: P,
    pub event_data: NodeEventSchedulerData,
}

/// A range of frames of a block to be processed at once, and the events that
/// happen at its start.
pub struct SubChunk<E> {
    /// The first frame.
    pub start: usize,
    /// The frame after the last one.
    pub end: usize,
    /// The time of the first frame.
    pub clock_samples: InstantSamples,
    /// The events, in the order in which they are to be handled.
    pub events: Vec<NodeEvent<E>>,
}

/// A buffer for events is full, and the engine is configured to panic, or it cannot grow
/// any more.
#[derive(Debug, Clone, Copy, PartialEq, Eq, Structural)]
pub struct EventBufferFull;

/// The largest number of events that a buffer can hold.
pub const MAX_EVENTS: usize = 0xFFFF_FFFF;

/// Keeps the events of nodes until they are due.
pub struct EventScheduler<E> {
    immediate_event_buffer: Vec<Option<NodeEvent<E>>>,
    immediate_event_buffer_capacity: usize,
    /// A slab allocator arena for scheduled node events.
    scheduled_event_arena: Vec<Option<NodeEvent<E>>>,
    scheduled_event_arena_free_slots: Vec<u32>,
    /// Sorting this Vec is much faster than sorting `scheduled_event_arena`
    /// directly since its data type is smaller and it implements `Copy`.
    sorted_event_buffer_indices: Vec<(u32, i64)>,
    scheduled_events_need_sorting: bool,
    num_elapsed_sorted_events: usize,
    num_scheduled_musical_events: usize,
    num_scheduled_non_musical_events: usize,
    buffer_out_of_space_mode: BufferOutOfSpaceMode,
}

/// What a scheduler holds.
#[verifier::ext_equal]
pub struct SchedulerView<E> {
    /// The immediate events, in the order in which they came. One that was
    /// handed out is `None`.
    pub immediate: Seq<Option<NodeEvent<E>>>,
    /// The number of immediate events for which there is room.
    pub immediate_capacity: int,
    /// The scheduled events that are not due yet, with their times in samples.
    pub pending: Seq<(i64, NodeEvent<E>)>,
    /// The number of scheduled events for which there is room.
    pub scheduled_capacity: int,
    /// What to do where there is no room.
    pub mode: BufferOutOfSpaceMode,
}

/// Whether an event is at a musical time.
pub open spec fn is_musical<E>(event: NodeEvent<E>) -> bool {
    event.time matches Some(EventInstant::Musical(_))
}

/// The number of events at a musical time, if `musical`, or else of the others,
/// for a node, if one is given.
pub open spec fn num_events<E>(
    events: Seq<(i64, NodeEvent<E>)>,
    node: Option<u64>,
    musical: bool,
) -> nat
    decreases events.len(),
{
    if events.len() == 0 {
        0
    } else {
        num_events(events.drop_last(), node, musical) + if counts(
            events.last().1,
            node,
            musical,
        ) {
            1nat
        } else {
            0
        }
    }
}

/// Whether an event is counted by [`num_events`].
pub open spec fn counts<E>(event: NodeEvent<E>, node: Option<u64>, musical: bool) -> bool {
    is_musical(event) == musical && (node matches Some(k) ==> event.node_id.0 == k)
}

/// Whether times do not descend.
pub open spec fn in_time_order<E>(events: Seq<(i64, NodeEvent<E>)>) -> bool {
    forall|i: int, j: int|
        0 <= i <= j < events.len() ==> (#[trigger] events[i]).0 <= (#[trigger] events[j]).0
}

/// Whether the entry at position `i` of a buffer is an event for node `k`.
pub open spec fn is_for<E>(buffer: Seq<Option<NodeEvent<E>>>, i: int, k: u64) -> bool {
    buffer[i] matches Some(event) && event.node_id.0 == k
}

/// The events for node `k` among the first `n` of a buffer, in order.
pub open spec fn events_for<E>(buffer: Seq<Option<NodeEvent<E>>>, k: u64, n: int) -> Seq<
    NodeEvent<E>,
>
    decreases n,
{
    if n <= 0 {
        Seq::empty()
    } else if is_for(buffer, n - 1, k) {
        events_for(buffer, k, n - 1).push(buffer[n - 1]->0)
    } else {
        events_for(buffer, k, n - 1)
    }
}

/// Whether a run of events for node `k` starts at position `i` of a buffer.
pub open spec fn is_clump_start<E>(buffer: Seq<Option<NodeEvent<E>>>, i: int, k: u64) -> bool {
    is_for(buffer, i, k) && (i == 0 || !is_for(buffer, i - 1, k))
}

/// Whether a list holds the starts of the first runs of events for node `k`.
pub open spec fn clumps_ok<E>(
    buffer: Seq<Option<NodeEvent<E>>>,
    k: u64,
    clumps: Seq<u32>,
) -> bool {
    &&& clumps.len() <= MAX_CLUMP_INDICES
    &&& forall|c: int|
        0 <= c < clumps.len() ==> (#[trigger] clumps[c]) < buffer.len() && is_clump_start(
            buffer,
            clumps[c] as int,
            k,
        )
    &&& forall|c: int, d: int|
        0 <= c < d < clumps.len() ==> (#[trigger] clumps[c]) < (#[trigger] clumps[d])
    &&& forall|i: int|
        0 <= i < buffer.len() && #[trigger] is_clump_start(buffer, i, k) ==> clumps.contains(
            i as u32,
        ) || (clumps.len() == MAX_CLUMP_INDICES && i > clumps.last())
}

/// The scheduled events for node `k` among the entries `from..to` of a sorted
/// list that were not handed out.
pub open spec fn due_scan<E>(
    sorted: Seq<(u32, i64)>,
    arena: Seq<Option<NodeEvent<E>>>,
    k: u64,
    from: int,
    to: int,
) -> Seq<(i64, NodeEvent<E>)>
    decreases to - from,
{
    if from >= to {
        Seq::empty()
    } else if is_for(arena, sorted[from].0 as int, k) {
        seq![(sorted[from].1, arena[sorted[from].0 as int]->0)] + due_scan(
            sorted,
            arena,
            k,
            from + 1,
            to,
        )
    } else {
        due_scan(sorted, arena, k, from + 1, to)
    }
}

/// The capacity of a buffer for scheduled events that is reallocated to fit one more.
pub open spec fn grown(capacity: int) -> int {
    if capacity == 0 {
        1
    } else {
        capacity * 2
    }
}

/// What becomes of a scheduler when an event is pushed at a time in samples:
/// `None` if there is no room and the engine is to panic, or the buffer cannot grow.
pub open spec fn push_one<E>(view: SchedulerView<E>, event: NodeEvent<E>, time: i64) -> Option<
    SchedulerView<E>,
> {
    if event.time is Some {
        let added = SchedulerView { pending: view.pending.push((time, event)), ..view };
        if view.pending.len() < view.scheduled_capacity {
            Some(added)
        } else {
            match view.mode {
                BufferOutOfSpaceMode::AllocateOnAudioThread => if grown(view.scheduled_capacity)
                    <= MAX_EVENTS {
                    Some(
                        SchedulerView {
                            scheduled_capacity: grown(view.scheduled_capacity),
                            ..added
                        },
                    )
                } else {
                    None
                },
                BufferOutOfSpaceMode::Panic => None,
                BufferOutOfSpaceMode::DropEvents => Some(view),
            }
        }
    } else {
        let added = SchedulerView { immediate: view.immediate.push(Some(event)), ..view };
        let can_grow = view.immediate.len() < MAX_EVENTS;
        if view.immediate.len() != view.immediate_capacity {
            if can_grow {
                Some(added)
            } else {
                None
            }
        } else {
            match view.mode {
                BufferOutOfSpaceMode::AllocateOnAudioThread => if can_grow
                    && view.immediate_capacity * 2 <= usize::MAX {
                    Some(
                        SchedulerView { immediate_capacity: view.immediate_capacity * 2, ..added },
                    )
                } else {
                    None
                },
                BufferOutOfSpaceMode::Panic => None,
                BufferOutOfSpaceMode::DropEvents => Some(view),
            }
        }
    }
}

impl NodeEventSchedulerData {
    /// The data of a node without events.
    pub fn new() -> (data: Self)
        ensures
            data.num_immediate_events == 0,
            data.immediate_event_clump_indices@.len() == 0,
            data.num_scheduled_musical_events == 0,
            data.num_scheduled_non_musical_events == 0,
            data.num_scheduled_events_this_block == 0,
            data.first_sorted_event_index == 0,
    {
        NodeEventSchedulerData {
            num_immediate_events: 0,
            immediate_event_clump_indices: ClumpList::new(),
            num_scheduled_musical_events: 0,
            num_scheduled_non_musical_events: 0,
            num_scheduled_events_this_block: 0,
            first_sorted_event_index: 0,
        }
    }
}

impl<E> View for EventScheduler<E> {
    type V = SchedulerView<E>;

    closed spec fn view(&self) -> SchedulerView<E> {
        SchedulerView {
            immediate: self.immediate_event_buffer@,
            immediate_capacity: self.immediate_event_buffer_capacity as int,
            pending: pending_of(
                self.sorted_event_buffer_indices@,
                self.scheduled_event_arena@,
                self.num_elapsed_sorted_events as int,
            ),
            scheduled_capacity: self.scheduled_event_arena@.len() as int,
            mode: self.buffer_out_of_space_mode,
        }
    }
}

/// The events of a sorted list from position `n` on.
spec fn pending_of<E>(
    sorted: Seq<(u32, i64)>,
    arena: Seq<Option<NodeEvent<E>>>,
    n: int,
) -> Seq<(i64, NodeEvent<E>)> {
    sorted.skip(n).map_values(|x: (u32, i64)| (x.1, arena[x.0 as int]->0))
}

impl<E> EventScheduler<E> {
    /// Well-formedness: each pending event has a slot of its own that is not
    /// free, there are as many other slots as free ones, and the counters count
    /// the pending events.
    pub closed spec fn wf(&self) -> bool {
        let sorted = self.sorted_event_buffer_indices@;
        let arena = self.scheduled_event_arena@;
        let free = self.scheduled_event_arena_free_slots@;
        let n = self.num_elapsed_sorted_events as int;
        &&& n <= sorted.len()
        &&& self.immediate_event_buffer@.len() <= MAX_EVENTS
        &&& arena.len() <= MAX_EVENTS
        &&& forall|i: int| 0 <= i < sorted.len() ==> (#[trigger] sorted[i]).0 < arena.len()
        &&& forall|i: int, j: int|
            0 <= i < j < sorted.len() ==> (#[trigger] sorted[i]).0 != (#[trigger] sorted[j]).0
        &&& forall|i: int|
            n <= i < sorted.len() ==> arena[(#[trigger] sorted[i]).0 as int] is Some
                && arena[sorted[i].0 as int]->0.time is Some
        &&& free.len() + sorted.len() - n == arena.len()
        &&& free.no_duplicates()
        &&& forall|i: int| 0 <= i < free.len() ==> (#[trigger] free[i]) < arena.len()
        &&& forall|i: int, j: int|
            0 <= i < free.len() && n <= j < sorted.len() ==> #[trigger] free[i] != (
            #[trigger] sorted[j]).0
        &&& self.num_scheduled_musical_events == num_events(self@.pending, None, true)
        &&& self.num_scheduled_non_musical_events == num_events(self@.pending, None, false)
        &&& self.scheduled_events_need_sorting ==> n == 0
        &&& !self.scheduled_events_need_sorting ==> forall|i: int, j: int|
            0 <= i <= j < sorted.len() ==> (#[trigger] sorted[i]).1 <= (#[trigger] sorted[j]).1
    }

    /// Whether the pending events may be out of order.
    pub closed spec fn needs_sorting(&self) -> bool {
        self.scheduled_events_need_sorting
    }

    /// The events for node `k` that are due in this block and were not handed
    /// out, in the order in which they happen.
    pub closed spec fn due(&self, k: u64, data: NodeEventSchedulerData) -> Seq<
        (i64, NodeEvent<E>),
    > {
        if data.num_scheduled_events_this_block == 0 {
            Seq::empty()
        } else {
            due_scan(
                self.sorted_event_buffer_indices@,
                self.scheduled_event_arena@,
                k,
                data.first_sorted_event_index as int,
                self.num_elapsed_sorted_events as int,
            )
        }
    }

    /// The events for node `k` that were not handed out, from position `cursor`
    /// of the sorted list on.
    spec fn scan(&self, k: u64, cursor: int) -> Seq<(i64, NodeEvent<E>)> {
        due_scan(
            self.sorted_event_buffer_indices@,
            self.scheduled_event_arena@,
            k,
            cursor,
            self.num_elapsed_sorted_events as int,
        )
    }

    /// Whether the data of node `k` agrees with a search from `cursor` on.
    spec fn scan_ok(&self, k: u64, data: NodeEventSchedulerData, cursor: int) -> bool {
        let due = self.scan(k, cursor);
        &&& 0 <= cursor
        &&& data.num_scheduled_events_this_block == due.len()
        &&& data.num_scheduled_musical_events >= num_events(due, Some(k), true)
        &&& data.num_scheduled_non_musical_events >= num_events(due, Some(k), false)
    }

    /// Whether the data of node `k` agrees with the scheduler.
    pub closed spec fn node_ok(&self, k: u64, data: NodeEventSchedulerData) -> bool {
        let buffer = self.immediate_event_buffer@;
        let due = self.due(k, data);
        &&& data.num_immediate_events == events_for(buffer, k, buffer.len() as int).len()
        &&& clumps_ok(buffer, k, data.immediate_event_clump_indices@)
        &&& due.len() == data.num_scheduled_events_this_block
        &&& data.num_scheduled_musical_events == num_events(self@.pending, Some(k), true)
            + num_events(due, Some(k), true)
        &&& data.num_scheduled_non_musical_events == num_events(self@.pending, Some(k), false)
            + num_events(due, Some(k), false)
    }

    /// A scheduler without events.
    pub fn new(
        immediate_event_buffer_capacity: usize,
        scheduled_event_buffer_capacity: usize,
        buffer_out_of_space_mode: BufferOutOfSpaceMode,
    ) -> (scheduler: Self)
        requires
            scheduled_event_buffer_capacity <= 0xFFFF_FFFF,
        ensures
            scheduler.wf(),
            scheduler@ == (SchedulerView::<E> {
                immediate: Seq::empty(),
                immediate_capacity: immediate_event_buffer_capacity as int,
                pending: Seq::empty(),
                scheduled_capacity: scheduled_event_buffer_capacity as int,
                mode: buffer_out_of_space_mode,
            }),
            !scheduler.needs_sorting(),
    {
        let mut arena: Vec<Option<NodeEvent<E>>> = Vec::new();
        let mut free_slots: Vec<u32> = Vec::new();
        let cap: usize = scheduled_event_buffer_capacity;
        for i in 0..cap
            invariant
                cap <= 0xFFFF_FFFF,
                arena@.len() == i,
                free_slots@.len() == i,
                forall|j: int| 0 <= j < i ==> #[trigger] free_slots@[j] == cap - 1 - j,
        {
            arena.push(None);
            free_slots.push((cap - 1 - i) as u32);
        }
        let scheduler = EventScheduler {
            immediate_event_buffer: Vec::with_capacity(immediate_event_buffer_capacity),
            immediate_event_buffer_capacity,
            scheduled_event_arena: arena,
            scheduled_event_arena_free_slots: free_slots,
            sorted_event_buffer_indices: Vec::with_capacity(scheduled_event_buffer_capacity),
            scheduled_events_need_sorting: false,
            num_elapsed_sorted_events: 0,
            num_scheduled_musical_events: 0,
            num_scheduled_non_musical_events: 0,
            buffer_out_of_space_mode,
        };
        assert(scheduler@.pending =~= Seq::<(i64, NodeEvent<E>)>::empty());
        assert(scheduler@.immediate =~= Seq::<Option<NodeEvent<E>>>::empty());
        scheduler
    }

    /// Truncate elapsed event slots from the sorted event buffer.
    fn truncate_elapsed_events(&mut self)
        requires
            old(self).wf(),
        ensures
            final(self).wf(),
            final(self)@ == old(self)@,
            final(self).num_elapsed_sorted_events == 0,
            final(self).needs_sorting() == old(self).needs_sorting(),
            final(self).immediate_event_buffer == old(self).immediate_event_buffer,
    {
        if self.num_elapsed_sorted_events == 0 {
            return;
        }
        let n: usize = self.num_elapsed_sorted_events;
        let len: usize = self.sorted_event_buffer_indices.len();
        let mut kept: Vec<(u32, i64)> = Vec::with_capacity(len - n);
        for i in n..len
            invariant
                n <= len,
                len == self.sorted_event_buffer_indices@.len(),
                kept@ == self.sorted_event_buffer_indices@.subrange(n as int, i as int),
        {
            kept.push(self.sorted_event_buffer_indices[i]);
            assert(kept@ =~= self.sorted_event_buffer_indices@.subrange(n as int, i + 1));
        }
        let ghost old_sorted = self.sorted_event_buffer_indices@;
        assert(kept@ =~= old_sorted.skip(n as int));
        self.sorted_event_buffer_indices = kept;
        self.num_elapsed_sorted_events = 0;
        proof {
            assert(kept@.skip(0) =~= kept@);
            assert(self@.pending =~= old(self)@.pending);
        }
    }

    /// Sorts the pending events by time, if they may be out of order.
    fn sort_events(&mut self)
        requires
            old(self).wf(),
        ensures
            final(self).wf(),
            !final(self).needs_sorting(),
            !old(self).needs_sorting() ==> *final(self) == *old(self),
            final(self)@ == (SchedulerView { pending: final(self)@.pending, ..old(self)@ }),
            final(self)@.pending.to_multiset() == old(self)@.pending.to_multiset(),
            in_time_order(final(self)@.pending),
            forall|node: Option<u64>, musical: bool| #[trigger]
                num_events(final(self)@.pending, node, musical) == num_events(
                    old(self)@.pending,
                    node,
                    musical,
                ),
    {
        if !self.scheduled_events_need_sorting {
            assert(in_time_order(self@.pending));
            return;
        }
        self.scheduled_events_need_sorting = false;
        sort_by_time(&mut self.sorted_event_buffer_indices);
        proof {
            let before = old(self).sorted_event_buffer_indices@;
            let after = self.sorted_event_buffer_indices@;
            let arena = self.scheduled_event_arena@;
            lemma_sorted_permutation(before, after, arena);
        }
    }

    /// Makes room for more scheduled events. Returns `true` if the event should
    /// be dropped.
    fn extend_scheduled_event_buffer(&mut self) -> (result: Result<bool, EventBufferFull>)
        requires
            old(self).wf(),
            old(self).num_elapsed_sorted_events == 0,
            old(self).scheduled_event_arena_free_slots@.len() == 0,
        ensures
            final(self).wf(),
            final(self).needs_sorting() == old(self).needs_sorting(),
            final(self).num_elapsed_sorted_events == 0,
            final(self).immediate_event_buffer == old(self).immediate_event_buffer,
            match old(self)@.mode {
                BufferOutOfSpaceMode::AllocateOnAudioThread => if grown(
                    old(self)@.scheduled_capacity,
                ) <= MAX_EVENTS {
                    result == Ok::<bool, EventBufferFull>(false) && final(self)@ == (
                    SchedulerView::<E> {
                        scheduled_capacity: grown(old(self)@.scheduled_capacity),
                        ..old(self)@
                    }) && final(self).scheduled_event_arena_free_slots@.len() > 0
                } else {
                    result is Err && final(self)@ == old(self)@
                },
                BufferOutOfSpaceMode::Panic => result is Err && final(self)@ == old(self)@,
                BufferOutOfSpaceMode::DropEvents => result == Ok::<bool, EventBufferFull>(true)
                    && final(self)@ == old(self)@,
            },
    {
        match self.buffer_out_of_space_mode {
            BufferOutOfSpaceMode::AllocateOnAudioThread => {
                let old_len: usize = self.scheduled_event_arena.len();
                let num_new: usize = if old_len == 0 {
                    1
                } else {
                    old_len
                };
                if num_new > MAX_EVENTS - old_len {
                    return Err(EventBufferFull);
                }
                for i in 0..num_new
                    invariant
                        self.num_elapsed_sorted_events == 0,
                        old_len == old(self).scheduled_event_arena@.len(),
                        old_len + num_new <= 0xFFFF_FFFF,
                        self.sorted_event_buffer_indices == old(self).sorted_event_buffer_indices,
                        self.scheduled_events_need_sorting == old(
                            self,
                        ).scheduled_events_need_sorting,
                        self.immediate_event_buffer == old(self).immediate_event_buffer,
                        self.immediate_event_buffer_capacity == old(
                            self,
                        ).immediate_event_buffer_capacity,
                        self.num_scheduled_musical_events == old(
                            self,
                        ).num_scheduled_musical_events,
                        self.num_scheduled_non_musical_events == old(
                            self,
                        ).num_scheduled_non_musical_events,
                        self.buffer_out_of_space_mode == old(self).buffer_out_of_space_mode,
                        self.scheduled_event_arena@.len() == old_len + i,
                        forall|j: int|
                            0 <= j < old_len ==> #[trigger] self.scheduled_event_arena@[j] == old(
                                self,
                            ).scheduled_event_arena@[j],
                        self.scheduled_event_arena_free_slots@.len() == i,
                        forall|j: int|
                            0 <= j < i ==> #[trigger] self.scheduled_event_arena_free_slots@[j]
                                == old_len + num_new - 1 - j,
                {
                    self.scheduled_event_arena.push(None);
                    self.scheduled_event_arena_free_slots.push((old_len + num_new - 1 - i) as u32);
                }
                proof {
                    assert(self@.pending =~= old(self)@.pending);
                }
                Ok(false)
            },
            BufferOutOfSpaceMode::Panic => Err(EventBufferFull),
            BufferOutOfSpaceMode::DropEvents => Ok(true),
        }
    }

    /// Adds an event for a node. `convert` gives the time in samples of a time
    /// that is not, or [`NEVER`].
    #[verifier::spinoff_prover]
    #[verifier::rlimit(60)]
    fn push_event<F: Fn(EventInstant) -> InstantSamples>(
        &mut self,
        event: NodeEvent<E>,
        data: &mut NodeEventSchedulerData,
        convert: &F,
    ) -> (result: Result<(), EventBufferFull>)
        requires
            old(self).wf(),
            old(self).num_elapsed_sorted_events == 0,
            old(self).node_ok(event.node_id.0, *old(data)),
            old(data).num_scheduled_events_this_block == 0,
            forall|i: EventInstant| #[trigger] call_requires(*convert, (i,)),
        ensures
            final(self).wf(),
            final(self).num_elapsed_sorted_events == 0,
            final(self).node_ok(event.node_id.0, *final(data)),
            final(data).num_scheduled_events_this_block == 0,
            forall|k: u64, d: NodeEventSchedulerData|
                k != event.node_id.0 && d.num_scheduled_events_this_block == 0
                    && #[trigger] old(self).node_ok(k, d) ==> final(self).node_ok(k, d),
            exists|t: i64| #[trigger]
                time_ok(*convert, event, t) && match result {
                    Ok(_) => push_one(old(self)@, event, t) == Some(final(self)@),
                    Err(_) => push_one(old(self)@, event, t) is None,
                },
    {
        let ghost k = event.node_id.0;
        let ghost event0 = event;
        let ghost pending0 = self@.pending;
        let ghost data0 = *data;
        if let Some(event_instant) = event.time {
            let time: i64 = match event_instant {
                EventInstant::Samples(samples) => samples.0,
                _ => convert(event_instant).0,
            };
            assert(time_ok(*convert, event, time));
            if self.scheduled_event_arena_free_slots.len() == 0 {
                match self.extend_scheduled_event_buffer() {
                    Ok(drop_event) => {
                        if drop_event {
                            return Ok(());
                        }
                    },
                    Err(error) => {
                        return Err(error);
                    },
                }
            }
            let ghost sorted1 = self.sorted_event_buffer_indices@;
            let ghost arena1 = self.scheduled_event_arena@;
            let ghost free1 = self.scheduled_event_arena_free_slots@;
            let ghost self1 = *self;
            proof {
                assert(self@.pending == pending0);
                lemma_num_events_bound(pending0, None, true);
                lemma_num_events_bound(pending0, None, false);
                lemma_num_events_bound(pending0, Some(k), true);
                lemma_num_events_bound(pending0, Some(k), false);
            }
            if let Some(slot) = self.scheduled_event_arena_free_slots.pop() {
                if event_instant.is_musical() {
                    self.num_scheduled_musical_events = self.num_scheduled_musical_events + 1;
                    data.num_scheduled_musical_events = data.num_scheduled_musical_events + 1;
                } else {
                    self.num_scheduled_non_musical_events = self.num_scheduled_non_musical_events
                        + 1;
                    data.num_scheduled_non_musical_events = data.num_scheduled_non_musical_events
                        + 1;
                }
                let len: usize = self.sorted_event_buffer_indices.len();
                if !self.scheduled_events_need_sorting && len > 0 {
                    if time < self.sorted_event_buffer_indices[len - 1].1 {
                        self.scheduled_events_need_sorting = true;
                    }
                }
                self.scheduled_event_arena[slot as usize] = Some(event);
                self.sorted_event_buffer_indices.push((slot, time));
                proof {
                    let pending = self@.pending;
                    assert(free1.last() == slot);
                    assert(forall|j: int| 0 <= j < sorted1.len() ==> slot != (#[trigger] sorted1[j]).0);
                    assert(pending =~= pending0.push((time, event0)));
                    assert(pending.drop_last() =~= pending0);
                    assert forall|n: Option<u64>, m: bool| #[trigger] num_events(pending, n, m)
                        == num_events(pending0, n, m) + (if counts(event0, n, m) {
                        1nat
                    } else {
                        0
                    }) by {}
                    let free = self.scheduled_event_arena_free_slots@;
                    let sorted = self.sorted_event_buffer_indices@;
                    assert forall|i: int, j: int| 0 <= i < free.len() && 0 <= j < sorted.len() implies
                        #[trigger] free[i] != (#[trigger] sorted[j]).0 by {
                        assert(free[i] == free1[i]);
                        if j < sorted1.len() {
                            assert(sorted[j] == sorted1[j]);
                        } else {
                            assert(free1[free1.len() - 1] == slot);
                        }
                    }
                    assert(self.wf());
                    assert forall|k2: u64, d: NodeEventSchedulerData|
                        k2 != k && d.num_scheduled_events_this_block == 0 && #[trigger] old(
                            self,
                        ).node_ok(k2, d) implies self.node_ok(k2, d) by {
                        assert(self.due(k2, d) =~= Seq::<(i64, NodeEvent<E>)>::empty());
                        assert(old(self).due(k2, d) =~= Seq::<(i64, NodeEvent<E>)>::empty());
                    }
                    assert(self.due(k, *data) =~= Seq::<(i64, NodeEvent<E>)>::empty());
                    assert(old(self).due(k, data0) =~= Seq::<(i64, NodeEvent<E>)>::empty());
                    assert(self.node_ok(k, *data));
                    assert(push_one(old(self)@, event0, time) == Some(self@));
                }
            }
            return Ok(());
        }
        assert(time_ok(*convert, event, 0));

        let len: usize = self.immediate_event_buffer.len();
        if len == self.immediate_event_buffer_capacity {
            match self.buffer_out_of_space_mode {
                BufferOutOfSpaceMode::AllocateOnAudioThread => {
                    if len >= MAX_EVENTS || len > usize::MAX / 2 {
                        return Err(EventBufferFull);
                    }
                    self.immediate_event_buffer_capacity = self.immediate_event_buffer_capacity * 2;
                },
                BufferOutOfSpaceMode::Panic => {
                    return Err(EventBufferFull);
                },
                BufferOutOfSpaceMode::DropEvents => {
                    return Ok(());
                },
            }
        } else if len >= MAX_EVENTS {
            return Err(EventBufferFull);
        }

        // Because immediate events for a node are likely to be clumped together,
        // the linear search is optimized by storing the starting index of each
        // new clump.
        let is_new_clump = if len == 0 {
            true
        } else {
            match &self.immediate_event_buffer[len - 1] {
                Some(prev_event) => prev_event.node_id != event.node_id,
                None => true,
            }
        };
        if is_new_clump {
            data.immediate_event_clump_indices.try_push(len as u32);
        }
        let ghost buffer0 = self.immediate_event_buffer@;
        proof {
            lemma_events_for_bound(buffer0, k, len as int);
        }
        data.num_immediate_events = data.num_immediate_events + 1;
        self.immediate_event_buffer.push(Some(event));
        proof {
            let buffer = self.immediate_event_buffer@;
            assert(buffer =~= buffer0.push(Some(event0)));
            assert(self@.pending =~= pending0);
            assert forall|k2: u64| #[trigger] events_for(buffer, k2, buffer.len() as int) == (if k2
                == k {
                events_for(buffer0, k2, buffer0.len() as int).push(event0)
            } else {
                events_for(buffer0, k2, buffer0.len() as int)
            }) by {
                lemma_events_for_prefix(buffer0, buffer, k2, buffer0.len() as int);
            }
            assert forall|i: int, k2: u64| 0 <= i < buffer0.len() implies #[trigger] is_clump_start(
                buffer,
                i,
                k2,
            ) == is_clump_start(buffer0, i, k2) by {
                assert(buffer[i] == buffer0[i]);
                if i > 0 {
                    assert(buffer[i - 1] == buffer0[i - 1]);
                }
            }
            assert forall|k2: u64, d: NodeEventSchedulerData|
                k2 != k && d.num_scheduled_events_this_block == 0 && #[trigger] old(self).node_ok(
                    k2,
                    d,
                ) implies self.node_ok(k2, d) by {
                assert(self.due(k2, d) =~= Seq::<(i64, NodeEvent<E>)>::empty());
                assert(old(self).due(k2, d) =~= Seq::<(i64, NodeEvent<E>)>::empty());
                assert(!is_clump_start(buffer, len as int, k2));
            }
            assert(self.due(k, *data) =~= Seq::<(i64, NodeEvent<E>)>::empty());
            assert(old(self).due(k, data0) =~= Seq::<(i64, NodeEvent<E>)>::empty());
            lemma_clumps_push(
                buffer0,
                event0,
                data0.immediate_event_clump_indices@,
                data.immediate_event_clump_indices@,
            );
            assert(push_one(old(self)@, event0, 0) == Some(self@));
        }
        Ok(())
    }

    /// Whether the data of every node agrees with the scheduler, and no event is
    /// due.
    pub open spec fn nodes_idle<P>(&self, nodes: Map<u64, ProcNode<P>>) -> bool {
        forall|k: u64| #[trigger]
            nodes.contains_key(k) ==> self.node_ok(k, nodes[k].event_data)
                && nodes[k].event_data.num_scheduled_events_this_block == 0
    }

    /// Adds a group of events. An event for a node that does not exist is
    /// dropped. `convert` gives the time in samples of a time that is not, or
    /// [`NEVER`].
    #[verifier::rlimit(40)]
    pub fn push_event_group<P, F: Fn(EventInstant) -> InstantSamples>(
        &mut self,
        event_group: &mut Vec<NodeEvent<E>>,
        nodes: &mut IdTable<ProcNode<P>>,
        convert: &F,
    ) -> (result: Result<(), EventBufferFull>)
        requires
            old(self).wf(),
            old(nodes).wf(),
            old(self).nodes_idle(old(nodes)@),
            forall|i: EventInstant| #[trigger] call_requires(*convert, (i,)),
        ensures
            final(self).wf(),
            final(nodes).wf(),
            final(self).nodes_idle(final(nodes)@),
            same_processors(old(nodes)@, final(nodes)@),
            final(event_group)@.len() == 0,
            exists|times: Seq<i64>| #[trigger]
                times_ok(*convert, old(event_group)@, old(nodes)@.dom(), times) && match result {
                    Ok(_) => times.len() == old(event_group)@.len() && push_all(
                        old(self)@,
                        old(event_group)@,
                        old(nodes)@.dom(),
                        times,
                    ) == Some(final(self)@),
                    Err(_) => push_all(
                        old(self)@,
                        old(event_group)@,
                        old(nodes)@.dom(),
                        times,
                    ) is None,
                },
    {
        self.truncate_elapsed_events();
        let ghost events = event_group@;
        let ghost ids = nodes@.dom();
        let ghost nodes0 = nodes@;
        let ghost view0 = self@;
        proof {
            assert forall|k: u64| #[trigger] nodes@.contains_key(k) implies self.node_ok(
                k,
                nodes@[k].event_data,
            ) by {
                assert(old(self).node_ok(k, nodes@[k].event_data));
                assert(self.due(k, nodes@[k].event_data) == old(self).due(
                    k,
                    nodes@[k].event_data,
                ));
            }
        }

        // Take the events out of the group, last to first.
        let len: usize = event_group.len();
        let mut rest: Vec<NodeEvent<E>> = Vec::with_capacity(len);
        for i in 0..len
            invariant
                len == events.len(),
                event_group@ == events.take(len - i),
                rest@.len() == i,
                forall|j: int| 0 <= j < i ==> #[trigger] rest@[j] == events[len - 1 - j],
        {
            if let Some(event) = event_group.pop() {
                assert(event == events[len - 1 - i]);
                rest.push(event);
                assert(event_group@ =~= events.take(len - (i + 1)));
            }
        }

        let ghost mut times: Seq<i64> = Seq::empty();
        for i in 0..len
            invariant
                events == old(event_group)@,
                nodes0 == old(nodes)@,
                view0 == old(self)@,
                len == events.len(),
                event_group@.len() == 0,
                rest@.len() == len - i,
                forall|j: int| 0 <= j < len - i ==> #[trigger] rest@[j] == events[len - 1 - j],
                self.wf(),
                nodes.wf(),
                self.num_elapsed_sorted_events == 0,
                self.nodes_idle(nodes@),
                nodes@.dom() == ids,
                ids == nodes0.dom(),
                same_processors(nodes0, nodes@),
                forall|x: EventInstant| #[trigger] call_requires(*convert, (x,)),
                times.len() == i,
                times_ok(*convert, events, ids, times),
                push_all(view0, events, ids, times) == Some(self@),
        {
            let ghost view1 = self@;
            let ghost times1 = times;
            let ghost nodes1 = nodes@;
            if let Some(event) = rest.pop() {
                assert(event == events[i as int]);
                let node_id: u64 = event.node_id.0;
                let ghost mut time: i64 = 0;
                if let Some(entry) = nodes.get_mut(node_id) {
                    let ghost self1 = *self;
                    let result = self.push_event(event, &mut entry.event_data, convert);
                    proof {
                        time = choose|t: i64| #[trigger]
                            time_ok(*convert, event, t) && match result {
                                Ok(_) => push_one(view1, event, t) == Some(self@),
                                Err(_) => push_one(view1, event, t) is None,
                            };
                        times = times.push(time);
                        lemma_push_all_step(view0, events, ids, times1, time);
                        assert(times_ok(*convert, events, ids, times)) by {
                            assert forall|j: int|
                                0 <= j < times.len() && ids.contains(
                                    (#[trigger] events[j]).node_id.0,
                                ) implies time_ok(*convert, events[j], times[j]) by {
                                if j < i {
                                    assert(times[j] == times1[j]);
                                }
                            }
                        }
                        assert(nodes@.dom() =~= ids);
                        assert forall|k: u64| #[trigger] nodes@.contains_key(k) implies self.node_ok(
                            k,
                            nodes@[k].event_data,
                        ) && nodes@[k].event_data.num_scheduled_events_this_block == 0 by {
                            if k != node_id {
                                assert(nodes1.contains_key(k));
                                assert(self1.node_ok(k, nodes1[k].event_data));
                            }
                        }
                    }
                    if result.is_err() {
                        return Err(EventBufferFull);
                    }
                } else {
                    proof {
                        times = times.push(0);
                        lemma_push_all_step(view0, events, ids, times1, 0);
                        assert(times_ok(*convert, events, ids, times)) by {
                            assert forall|j: int|
                                0 <= j < times.len() && ids.contains(
                                    (#[trigger] events[j]).node_id.0,
                                ) implies time_ok(*convert, events[j], times[j]) by {
                                if j < i {
                                    assert(times[j] == times1[j]);
                                }
                            }
                        }
                    }
                }
            }
        }
        Ok(())
    }

    /// Removes the pending events that a filter selects, and counts them no
    /// longer for their nodes.
    #[verifier::spinoff_prover]
    #[verifier::rlimit(80)]
    fn remove_selected<P>(&mut self, filter: EventFilter, nodes: &mut IdTable<ProcNode<P>>)
        requires
            old(self).wf(),
            old(self).num_elapsed_sorted_events == 0,
            old(nodes).wf(),
            old(self).nodes_idle(old(nodes)@),
        ensures
            final(self).wf(),
            final(self).num_elapsed_sorted_events == 0,
            final(nodes).wf(),
            final(self).nodes_idle(final(nodes)@),
            same_processors(old(nodes)@, final(nodes)@),
            final(self)@ == (SchedulerView {
                pending: old(self)@.pending.filter(filter.keeps(old(nodes)@.dom())),
                ..old(self)@
            }),
    {
        let ghost sorted0 = self.sorted_event_buffer_indices@;
        let ghost arena0 = self.scheduled_event_arena@;
        let ghost pending0 = self@.pending;
        let ghost nodes0 = nodes@;
        let ghost ids = nodes@.dom();
        let ghost keep = filter.keeps::<E>(ids);
        let ghost ordered = !self.scheduled_events_need_sorting;
        let len: usize = self.sorted_event_buffer_indices.len();
        let mut kept: Vec<(u32, i64)> = Vec::with_capacity(len);
        proof {
            reveal(Seq::filter);
            assert(sorted0.skip(0) =~= sorted0);
            assert(pending0.skip(0) =~= pending0);
            assert(pending0.take(0).filter(keep) =~= Seq::<(i64, NodeEvent<E>)>::empty());
            assert(pending_of(kept@, arena0, 0) =~= Seq::<(i64, NodeEvent<E>)>::empty());
            assert forall|k: u64| #[trigger] nodes@.contains_key(k) implies old(self).due(
                k,
                nodes@[k].event_data,
            ) =~= Seq::<(i64, NodeEvent<E>)>::empty() by {
                assert(old(self).node_ok(k, nodes@[k].event_data));
            }
        }
        for i in 0..len
            invariant
                old(self).wf(),
                len == sorted0.len(),
                pending0.len() == len,
                pending0 == pending_of(sorted0, arena0, 0),
                nodes0.dom() == ids,
                nodes@.dom() == ids,
                nodes.wf(),
                same_processors(nodes0, nodes@),
                keep == filter.keeps::<E>(ids),
                arena0 == old(self).scheduled_event_arena@,
                sorted0 == old(self).sorted_event_buffer_indices@,
                arena0.len() <= 0xFFFF_FFFF,
                forall|j: int| 0 <= j < len ==> (#[trigger] sorted0[j]).0 < arena0.len(),
                forall|a: int, b: int|
                    0 <= a < b < len ==> (#[trigger] sorted0[a]).0 != (#[trigger] sorted0[b]).0,
                forall|j: int|
                    0 <= j < len ==> arena0[(#[trigger] sorted0[j]).0 as int] is Some
                        && arena0[sorted0[j].0 as int]->0.time is Some,
                ordered ==> forall|a: int, b: int|
                    0 <= a <= b < len ==> (#[trigger] sorted0[a]).1 <= (#[trigger] sorted0[b]).1,
                self.sorted_event_buffer_indices@ == sorted0,
                self.num_elapsed_sorted_events == 0,
                self.immediate_event_buffer == old(self).immediate_event_buffer,
                self.immediate_event_buffer_capacity == old(self).immediate_event_buffer_capacity,
                self.scheduled_events_need_sorting == old(self).scheduled_events_need_sorting,
                self.buffer_out_of_space_mode == old(self).buffer_out_of_space_mode,
                self.scheduled_event_arena@.len() == arena0.len(),
                // What was kept.
                pending_of(kept@, arena0, 0) == pending0.take(i as int).filter(keep),
                forall|a: int| 0 <= a < kept@.len() ==> (#[trigger] kept@[a]).0 < arena0.len(),
                forall|a: int|
                    0 <= a < kept@.len() ==> arena0[(#[trigger] kept@[a]).0 as int] is Some
                        && arena0[kept@[a].0 as int]->0.time is Some
                        && self.scheduled_event_arena@[kept@[a].0 as int]
                        == arena0[kept@[a].0 as int],
                forall|j: int|
                    i <= j < len ==> self.scheduled_event_arena@[(
                    #[trigger] sorted0[j]).0 as int] == arena0[sorted0[j].0 as int],
                forall|a: int, b: int|
                    0 <= a < b < kept@.len() ==> (#[trigger] kept@[a]).0 != (#[trigger] kept@[b]).0,
                forall|a: int, j: int|
                    0 <= a < kept@.len() && i <= j < len ==> (#[trigger] kept@[a]).0 != (
                    #[trigger] sorted0[j]).0,
                ordered ==> forall|a: int, b: int|
                    0 <= a <= b < kept@.len() ==> (#[trigger] kept@[a]).1 <= (
                    #[trigger] kept@[b]).1,
                ordered ==> forall|a: int, j: int|
                    0 <= a < kept@.len() && i <= j < len ==> (#[trigger] kept@[a]).1 <= (
                    #[trigger] sorted0[j]).1,
                // Free slots.
                self.scheduled_event_arena_free_slots@.len() + kept@.len() + len - i
                    == arena0.len(),
                self.scheduled_event_arena_free_slots@.no_duplicates(),
                forall|f: int|
                    0 <= f < self.scheduled_event_arena_free_slots@.len() ==> (
                    #[trigger] self.scheduled_event_arena_free_slots@[f]) < arena0.len(),
                forall|f: int, a: int|
                    0 <= f < self.scheduled_event_arena_free_slots@.len() && 0 <= a < kept@.len()
                        ==> #[trigger] self.scheduled_event_arena_free_slots@[f] != (
                    #[trigger] kept@[a]).0,
                forall|f: int, j: int|
                    0 <= f < self.scheduled_event_arena_free_slots@.len() && i <= j < len
                        ==> #[trigger] self.scheduled_event_arena_free_slots@[f] != (
                    #[trigger] sorted0[j]).0,
                // Counters.
                self.num_scheduled_musical_events == num_events(
                    pending0.take(i as int).filter(keep),
                    None,
                    true,
                ) + num_events(pending0.skip(i as int), None, true),
                self.num_scheduled_non_musical_events == num_events(
                    pending0.take(i as int).filter(keep),
                    None,
                    false,
                ) + num_events(pending0.skip(i as int), None, false),
                forall|k: u64| #[trigger]
                    ids.contains(k) ==> {
                        &&& nodes@[k].event_data == (NodeEventSchedulerData {
                            num_scheduled_musical_events:
                                nodes@[k].event_data.num_scheduled_musical_events,
                            num_scheduled_non_musical_events:
                                nodes@[k].event_data.num_scheduled_non_musical_events,
                            ..nodes0[k].event_data
                        })
                        &&& nodes@[k].event_data.num_scheduled_musical_events == num_events(
                            pending0.take(i as int).filter(keep),
                            Some(k),
                            true,
                        ) + num_events(pending0.skip(i as int), Some(k), true)
                        &&& nodes@[k].event_data.num_scheduled_non_musical_events == num_events(
                            pending0.take(i as int).filter(keep),
                            Some(k),
                            false,
                        ) + num_events(pending0.skip(i as int), Some(k), false)
                    },
        {
            let (slot, time): (u32, i64) = self.sorted_event_buffer_indices[i];
            let ghost x = pending0[i as int];
            let ghost before = pending0.take(i as int).filter(keep);
            let ghost free1 = self.scheduled_event_arena_free_slots@;
            let ghost arena1 = self.scheduled_event_arena@;
            let ghost kept1 = kept@;
            let ghost nodes1 = nodes@;
            proof {
                assert(sorted0[i as int] == (slot, time));
                assert(sorted0.skip(0)[i as int] == sorted0[i as int]);
                assert(x == (time, arena0[slot as int]->0));
                assert(pending0.take(i + 1) =~= pending0.take(i as int).push(x));
                pending0.take(i as int).lemma_filter_push(x, keep);
                assert(pending0.skip(i as int) =~= seq![x] + pending0.skip(i + 1));
                assert forall|node: Option<u64>, m: bool| #[trigger] num_events(
                    pending0.skip(i as int),
                    node,
                    m,
                ) == num_events(pending0.skip(i + 1), node, m) + (if counts(x.1, node, m) {
                    1nat
                } else {
                    0
                }) by {
                    lemma_num_events_add(seq![x], pending0.skip(i + 1), node, m);
                    lemma_num_events_one(x, node, m);
                }
            }
            let (selected, musical, node_id): (bool, bool, u64) =
                match &self.scheduled_event_arena[slot as usize] {
                Some(event) => (
                    filter.selects_event(event, nodes),
                    match event.time {
                        Some(instant) => instant.is_musical(),
                        None => false,
                    },
                    event.node_id.0,
                ),
                None => (false, false, 0),
            };
            proof {
                assert(selected == !keep(x));
                assert(musical == is_musical(x.1));
                assert(node_id == x.1.node_id.0);
                assert(counts(x.1, None, musical) && counts(x.1, Some(node_id), musical));
                assert(num_events(pending0.skip(i as int), None, musical) >= 1);
                assert(num_events(pending0.skip(i as int), Some(node_id), musical) >= 1);
            }
            if selected {
                if musical {
                    self.num_scheduled_musical_events = self.num_scheduled_musical_events - 1;
                } else {
                    self.num_scheduled_non_musical_events = self.num_scheduled_non_musical_events
                        - 1;
                }
                if let Some(entry) = nodes.get_mut(node_id) {
                    if musical {
                        entry.event_data.num_scheduled_musical_events =
                            entry.event_data.num_scheduled_musical_events - 1;
                    } else {
                        entry.event_data.num_scheduled_non_musical_events =
                            entry.event_data.num_scheduled_non_musical_events - 1;
                    }
                }
                // Free what the event may have held.
                self.scheduled_event_arena[slot as usize] = None;
                self.scheduled_event_arena_free_slots.push(slot);
                proof {
                    assert(nodes@.dom() =~= ids);
                    let free = self.scheduled_event_arena_free_slots@;
                    assert(!free1.contains(slot)) by {
                        if free1.contains(slot) {
                            let f = free1.index_of(slot);
                            assert(free1[f] != sorted0[i as int].0);
                        }
                    }
                    assert forall|f: int, a: int| 0 <= f < free.len() && 0 <= a < kept@.len() implies
                        #[trigger] free[f] != (#[trigger] kept@[a]).0 by {
                        if f < free1.len() {
                            assert(free1[f] != kept1[a].0);
                        } else {
                            assert(kept1[a].0 != sorted0[i as int].0);
                        }
                    }
                    assert forall|f: int, j: int| 0 <= f < free.len() && i + 1 <= j < len implies
                        #[trigger] free[f] != (#[trigger] sorted0[j]).0 by {
                        if f < free1.len() {
                            assert(free1[f] != sorted0[j].0);
                        } else {
                            assert(sorted0[i as int].0 != sorted0[j].0);
                        }
                    }
                    assert forall|a: int| 0 <= a < kept@.len() implies
                        self.scheduled_event_arena@[(#[trigger] kept@[a]).0 as int]
                        == arena0[kept@[a].0 as int] by {
                        assert(kept1[a].0 != sorted0[i as int].0);
                    }
                    assert forall|j: int| i + 1 <= j < len implies self.scheduled_event_arena@[(
                    #[trigger] sorted0[j]).0 as int] == arena0[sorted0[j].0 as int] by {
                        assert(sorted0[i as int].0 != sorted0[j].0);
                    }
                }
            } else {
                kept.push((slot, time));
                proof {
                    assert(pending_of(kept@, arena0, 0) =~= pending_of(kept1, arena0, 0).push(x))
                        by {
                        assert(kept@.skip(0) =~= kept@);
                        assert(kept1.skip(0) =~= kept1);
                    }
                    assert(before.push(x).drop_last() =~= before);
                    assert forall|a: int, j: int| 0 <= a < kept@.len() && i + 1 <= j < len implies (
                    #[trigger] kept@[a]).0 != (#[trigger] sorted0[j]).0 by {
                        if a == kept1.len() {
                            assert(sorted0[i as int].0 != sorted0[j].0);
                        }
                    }
                }
            }
            proof {
                assert forall|k: u64| #[trigger] ids.contains(k) implies {
                    &&& nodes@[k].event_data == (NodeEventSchedulerData {
                        num_scheduled_musical_events:
                            nodes@[k].event_data.num_scheduled_musical_events,
                        num_scheduled_non_musical_events:
                            nodes@[k].event_data.num_scheduled_non_musical_events,
                        ..nodes0[k].event_data
                    })
                    &&& nodes@[k].event_data.num_scheduled_musical_events == num_events(
                        pending0.take(i + 1).filter(keep),
                        Some(k),
                        true,
                    ) + num_events(pending0.skip(i + 1), Some(k), true)
                    &&& nodes@[k].event_data.num_scheduled_non_musical_events == num_events(
                        pending0.take(i + 1).filter(keep),
                        Some(k),
                        false,
                    ) + num_events(pending0.skip(i + 1), Some(k), false)
                } by {
                    assert(num_events(pending0.skip(i as int), Some(k), true) == num_events(
                        pending0.skip(i + 1),
                        Some(k),
                        true,
                    ) + (if counts(x.1, Some(k), true) {
                        1nat
                    } else {
                        0
                    }));
                    assert(num_events(pending0.skip(i as int), Some(k), false) == num_events(
                        pending0.skip(i + 1),
                        Some(k),
                        false,
                    ) + (if counts(x.1, Some(k), false) {
                        1nat
                    } else {
                        0
                    }));
                    assert(before.push(x).drop_last() =~= before);
                }
            }
        }
        self.sorted_event_buffer_indices = kept;
        proof {
            assert(pending0.take(len as int) =~= pending0);
            assert(pending0.skip(len as int) =~= Seq::<(i64, NodeEvent<E>)>::empty());
            assert(self@.pending =~= pending_of(kept@, arena0, 0)) by {
                assert(kept@.skip(0) =~= kept@);
            }
            assert forall|k: u64| #[trigger] nodes@.contains_key(k) implies self.node_ok(
                k,
                nodes@[k].event_data,
            ) && nodes@[k].event_data.num_scheduled_events_this_block == 0 by {
                assert(ids.contains(k));
                assert(old(self).node_ok(k, nodes0[k].event_data));
                assert(self.due(k, nodes@[k].event_data) =~= Seq::<(i64, NodeEvent<E>)>::empty());
            }
        }
    }

    /// Whether a node has scheduled events that were not handed out.
    pub fn node_has_scheduled_events(&self, data: &NodeEventSchedulerData) -> (has: bool)
        ensures
            has == (data.num_scheduled_musical_events > 0 || data.num_scheduled_non_musical_events
                > 0),
            forall|k: u64| #[trigger]
                self.node_ok(k, *data) && data.num_scheduled_events_this_block == 0 ==> (has
                    <==> exists|i: int|
                    0 <= i < self@.pending.len() && (#[trigger] self@.pending[i]).1.node_id.0 == k),
    {
        let has = data.num_scheduled_musical_events > 0 || data.num_scheduled_non_musical_events
            > 0;
        proof {
            assert forall|k: u64| #[trigger] self.node_ok(k, *data)
                && data.num_scheduled_events_this_block == 0 implies (has <==> exists|i: int|
                0 <= i < self@.pending.len() && (#[trigger] self@.pending[i]).1.node_id.0 == k) by {
                assert(self.due(k, *data) =~= Seq::<(i64, NodeEvent<E>)>::empty());
                lemma_num_events_zero(self@.pending, Some(k), true);
                lemma_num_events_zero(self@.pending, Some(k), false);
                if exists|i: int|
                    0 <= i < self@.pending.len() && (#[trigger] self@.pending[i]).1.node_id.0
                        == k {
                    let i = choose|i: int|
                        0 <= i < self@.pending.len() && (#[trigger] self@.pending[i]).1.node_id.0
                            == k;
                    assert(counts(self@.pending[i].1, Some(k), true) || counts(
                        self@.pending[i].1,
                        Some(k),
                        false,
                    ));
                }
            }
        }
        has
    }

    /// Removes the pending events of nodes that do not exist.
    pub fn remove_events_from_removed_nodes<P>(&mut self, nodes: &mut IdTable<ProcNode<P>>)
        requires
            old(self).wf(),
            old(nodes).wf(),
            old(self).nodes_idle(old(nodes)@),
        ensures
            final(self).wf(),
            final(nodes).wf(),
            final(self).nodes_idle(final(nodes)@),
            same_processors(old(nodes)@, final(nodes)@),
            final(self)@ == (SchedulerView {
                pending: old(self)@.pending.filter(
                    EventFilter::MissingNodes.keeps(old(nodes)@.dom()),
                ),
                ..old(self)@
            }),
    {
        self.truncate_elapsed_events();
        proof {
            lemma_idle_truncated(*old(self), *self, nodes@);
        }
        self.remove_selected(EventFilter::MissingNodes, nodes);
    }

    /// Clears scheduled events, one message after the other. A message for a
    /// node that does not exist is ignored.
    pub fn handle_clear_scheduled_events_event<P>(
        &mut self,
        msgs: &[ClearScheduledEventsEvent],
        nodes: &mut IdTable<ProcNode<P>>,
    )
        requires
            old(self).wf(),
            old(nodes).wf(),
            old(self).nodes_idle(old(nodes)@),
        ensures
            final(self).wf(),
            final(nodes).wf(),
            final(self).nodes_idle(final(nodes)@),
            same_processors(old(nodes)@, final(nodes)@),
            final(self)@ == (SchedulerView {
                pending: clear_all(old(self)@.pending, msgs@, old(nodes)@.dom()),
                ..old(self)@
            }),
    {
        self.truncate_elapsed_events();
        proof {
            lemma_idle_truncated(*old(self), *self, nodes@);
            assert(msgs@.take(0) =~= Seq::<ClearScheduledEventsEvent>::empty());
        }
        let ghost ids = nodes@.dom();
        let len: usize = msgs.len();
        for i in 0..len
            invariant
                len == msgs@.len(),
                ids == old(nodes)@.dom(),
                self.wf(),
                self.num_elapsed_sorted_events == 0,
                nodes.wf(),
                self.nodes_idle(nodes@),
                same_processors(old(nodes)@, nodes@),
                self@ == (SchedulerView {
                    pending: clear_all(old(self)@.pending, msgs@.take(i as int), ids),
                    ..old(self)@
                }),
        {
            let msg: ClearScheduledEventsEvent = msgs[i];
            let ghost pending1 = self@.pending;
            proof {
                assert(msgs@.take(i + 1).drop_last() =~= msgs@.take(i as int));
                assert(msgs@.take(i + 1).last() == msg);
            }
            let numbers: Option<(usize, usize)> = match msg.node_id {
                Some(node_id) => match nodes.get(node_id.0) {
                    Some(entry) => Some(
                        (
                            entry.event_data.num_scheduled_musical_events,
                            entry.event_data.num_scheduled_non_musical_events,
                        ),
                    ),
                    None => None,
                },
                // `None` means to clear scheduled events for all nodes.
                None => Some(
                    (self.num_scheduled_musical_events, self.num_scheduled_non_musical_events),
                ),
            };
            if let Some((num_musical, num_non_musical)) = numbers {
                let none_selected = match msg.event_type {
                    ClearScheduledEventsType::All => num_musical == 0 && num_non_musical == 0,
                    ClearScheduledEventsType::MusicalOnly => num_musical == 0,
                    ClearScheduledEventsType::NonMusicalOnly => num_non_musical == 0,
                };
                let ghost node: Option<u64> = match msg.node_id {
                    Some(n) => Some(n.0),
                    None => None,
                };
                proof {
                    if let Some(k) = node {
                        assert(nodes@.contains_key(k));
                        assert(self.node_ok(k, nodes@[k].event_data));
                        assert(self.due(k, nodes@[k].event_data) =~= Seq::<
                            (i64, NodeEvent<E>),
                        >::empty());
                    }
                    assert(num_musical == num_events(pending1, node, true));
                    assert(num_non_musical == num_events(pending1, node, false));
                }
                if none_selected {
                    proof {
                        let keep = EventFilter::Clear(msg).keeps::<E>(ids);
                        lemma_num_events_zero(pending1, node, true);
                        lemma_num_events_zero(pending1, node, false);
                        assert forall|j: int| 0 <= j < pending1.len() implies keep(
                            #[trigger] pending1[j],
                        ) by {
                            assert(counts(pending1[j].1, None, true) || counts(
                                pending1[j].1,
                                None,
                                false,
                            ));
                        }
                        lemma_filter_all(pending1, keep);
                    }
                } else {
                    self.remove_selected(EventFilter::Clear(msg), nodes);
                }
            }
        }
        assert(msgs@.take(len as int) =~= msgs@);
    }

    /// Moves the events at musical times to where the transport puts them: the
    /// times that it gives, or never if there is none.
    pub fn sync_scheduled_events_to_transport<F: Fn(InstantMusical) -> InstantSamples>(
        &mut self,
        transport: Option<&F>,
    )
        requires
            old(self).wf(),
            transport matches Some(f) ==> forall|m: InstantMusical| #[trigger]
                call_requires(*f, (m,)),
        ensures
            final(self).wf(),
            final(self)@ == (SchedulerView { pending: final(self)@.pending, ..old(self)@ }),
            final(self)@.pending.len() == old(self)@.pending.len(),
            forall|i: int|
                0 <= i < old(self)@.pending.len() ==> synced(
                    transport,
                    old(self)@.pending[i],
                    #[trigger] final(self)@.pending[i],
                ),
            forall|k: u64, d: NodeEventSchedulerData|
                d.num_scheduled_events_this_block == 0 && #[trigger] old(self).node_ok(k, d)
                    ==> final(self).node_ok(k, d),
    {
        if self.num_scheduled_musical_events == 0 {
            proof {
                lemma_num_events_zero(self@.pending, None, true);
                assert forall|i: int| 0 <= i < self@.pending.len() implies synced(
                    transport,
                    old(self)@.pending[i],
                    #[trigger] self@.pending[i],
                ) by {
                    assert(!counts(self@.pending[i].1, None, true));
                }
            }
            return ;
        }
        self.truncate_elapsed_events();
        let len: usize = self.sorted_event_buffer_indices.len();
        let ghost sorted0 = self.sorted_event_buffer_indices@;
        let ghost arena = self.scheduled_event_arena@;
        let ghost pending0 = self@.pending;
        let ghost self1 = *self;
        for i in 0..len
            invariant
                len == sorted0.len(),
                self1.wf(),
                self1.num_elapsed_sorted_events == 0,
                sorted0 == self1.sorted_event_buffer_indices@,
                arena == self1.scheduled_event_arena@,
                self.sorted_event_buffer_indices@.len() == len,
                self.scheduled_event_arena@ == arena,
                self.scheduled_event_arena_free_slots == self1.scheduled_event_arena_free_slots,
                self.num_elapsed_sorted_events == 0,
                self.immediate_event_buffer == self1.immediate_event_buffer,
                self.immediate_event_buffer_capacity == self1.immediate_event_buffer_capacity,
                self.num_scheduled_musical_events == self1.num_scheduled_musical_events,
                self.num_scheduled_non_musical_events == self1.num_scheduled_non_musical_events,
                self.buffer_out_of_space_mode == self1.buffer_out_of_space_mode,
                transport matches Some(f) ==> forall|m: InstantMusical| #[trigger]
                    call_requires(*f, (m,)),
                forall|j: int|
                    i <= j < len ==> #[trigger] self.sorted_event_buffer_indices@[j] == sorted0[j],
                forall|j: int|
                    0 <= j < i ==> (#[trigger] self.sorted_event_buffer_indices@[j]).0
                        == sorted0[j].0 && synced(
                        transport,
                        (sorted0[j].1, arena[sorted0[j].0 as int]->0),
                        (
                            self.sorted_event_buffer_indices@[j].1,
                            arena[sorted0[j].0 as int]->0,
                        ),
                    ),
        {
            let (slot, time): (u32, i64) = self.sorted_event_buffer_indices[i];
            assert(sorted0[i as int] == (slot, time));
            if let Some(event) = &self.scheduled_event_arena[slot as usize] {
                if let Some(EventInstant::Musical(musical)) = event.time {
                    let new_time: i64 = match transport {
                        Some(musical_to_samples) => musical_to_samples(musical).0,
                        // Effectively de-schedule the event.
                        None => NEVER,
                    };
                    self.sorted_event_buffer_indices[i] = (slot, new_time);
                }
            }
        }
        self.scheduled_events_need_sorting = true;
        proof {
            let sorted = self.sorted_event_buffer_indices@;
            assert(sorted.skip(0) =~= sorted);
            assert(sorted0.skip(0) =~= sorted0);
            assert forall|i: int| 0 <= i < len implies sorted[i].0 == sorted0[i].0 by {
                assert(sorted[i].0 == self.sorted_event_buffer_indices@[i].0);
            }
            assert forall|i: int| 0 <= i < pending0.len() implies synced(
                transport,
                pending0[i],
                #[trigger] self@.pending[i],
            ) && self@.pending[i].1 == pending0[i].1 by {
                assert(sorted[i].0 == sorted0[i].0);
            }
            lemma_retimed(self1, *self);
            assert forall|k: u64, d: NodeEventSchedulerData|
                d.num_scheduled_events_this_block == 0 && #[trigger] old(self).node_ok(
                    k,
                    d,
                ) implies self.node_ok(k, d) by {
                assert(old(self).due(k, d) == self.due(k, d));
            }
        }
    }

    /// Converts the times of all events to another sample rate. `convert` must
    /// not change the order of times.
    pub fn sample_rate_changed<F: Fn(InstantSamples) -> InstantSamples>(&mut self, convert: &F)
        requires
            old(self).wf(),
            forall|t: InstantSamples| #[trigger] call_requires(*convert, (t,)),
            forall|a: InstantSamples, b: InstantSamples, ra: InstantSamples, rb: InstantSamples|
                a.0 <= b.0 && #[trigger] call_ensures(*convert, (a,), ra)
                    && #[trigger] call_ensures(*convert, (b,), rb) ==> ra.0 <= rb.0,
        ensures
            final(self).wf(),
            final(self).needs_sorting() == old(self).needs_sorting(),
            final(self)@ == (SchedulerView { pending: final(self)@.pending, ..old(self)@ }),
            final(self)@.pending.len() == old(self)@.pending.len(),
            forall|i: int|
                0 <= i < old(self)@.pending.len() ==> (#[trigger] final(self)@.pending[i]).1 == old(
                    self,
                )@.pending[i].1 && retimed(
                    *convert,
                    old(self)@.pending[i].0,
                    final(self)@.pending[i].0,
                ),
            forall|k: u64, d: NodeEventSchedulerData|
                d.num_scheduled_events_this_block == 0 && #[trigger] old(self).node_ok(k, d)
                    ==> final(self).node_ok(k, d),
    {
        let len: usize = self.sorted_event_buffer_indices.len();
        let ghost sorted0 = self.sorted_event_buffer_indices@;
        let ghost arena = self.scheduled_event_arena@;
        for i in 0..len
            invariant
                len == sorted0.len(),
                sorted0 == old(self).sorted_event_buffer_indices@,
                self.sorted_event_buffer_indices@.len() == len,
                self.scheduled_event_arena == old(self).scheduled_event_arena,
                self.scheduled_event_arena_free_slots == old(
                    self,
                ).scheduled_event_arena_free_slots,
                self.num_elapsed_sorted_events == old(self).num_elapsed_sorted_events,
                self.immediate_event_buffer == old(self).immediate_event_buffer,
                self.immediate_event_buffer_capacity == old(self).immediate_event_buffer_capacity,
                self.num_scheduled_musical_events == old(self).num_scheduled_musical_events,
                self.num_scheduled_non_musical_events == old(
                    self,
                ).num_scheduled_non_musical_events,
                self.buffer_out_of_space_mode == old(self).buffer_out_of_space_mode,
                self.scheduled_events_need_sorting == old(self).scheduled_events_need_sorting,
                forall|t: InstantSamples| #[trigger] call_requires(*convert, (t,)),
                forall|j: int|
                    i <= j < len ==> #[trigger] self.sorted_event_buffer_indices@[j] == sorted0[j],
                forall|j: int|
                    0 <= j < i ==> (#[trigger] self.sorted_event_buffer_indices@[j]).0
                        == sorted0[j].0 && retimed(
                        *convert,
                        sorted0[j].1,
                        self.sorted_event_buffer_indices@[j].1,
                    ),
        {
            let (slot, time): (u32, i64) = self.sorted_event_buffer_indices[i];
            if time != NEVER {
                let new_time: i64 = convert(InstantSamples(time)).0;
                self.sorted_event_buffer_indices[i] = (slot, new_time);
            }
        }
        proof {
            let sorted = self.sorted_event_buffer_indices@;
            let n = self.num_elapsed_sorted_events as int;
            if !self.scheduled_events_need_sorting {
                assert forall|i: int, j: int| 0 <= i <= j < sorted.len() implies (
                #[trigger] sorted[i]).1 <= (#[trigger] sorted[j]).1 by {
                    assert(sorted0[i].1 <= sorted0[j].1);
                    assert(retimed(*convert, sorted0[i].1, sorted[i].1));
                    assert(retimed(*convert, sorted0[j].1, sorted[j].1));
                    if sorted0[i].1 != NEVER && sorted0[j].1 != NEVER {
                        let a = InstantSamples(sorted0[i].1);
                        let b = InstantSamples(sorted0[j].1);
                        assert(call_ensures(*convert, (a,), InstantSamples(sorted[i].1)));
                        assert(call_ensures(*convert, (b,), InstantSamples(sorted[j].1)));
                    }
                }
            }
            assert forall|i: int| 0 <= i < old(self)@.pending.len() implies (
            #[trigger] self@.pending[i]).1 == old(self)@.pending[i].1 && retimed(
                *convert,
                old(self)@.pending[i].0,
                self@.pending[i].0,
            ) by {
                assert(sorted.skip(n)[i] == sorted[n + i]);
                assert(sorted0.skip(n)[i] == sorted0[n + i]);
            }
            lemma_retimed(*old(self), *self);
            assert forall|k: u64, d: NodeEventSchedulerData|
                d.num_scheduled_events_this_block == 0 && #[trigger] old(self).node_ok(
                    k,
                    d,
                ) implies self.node_ok(k, d) by {
                assert(old(self).due(k, d) == self.due(k, d));
            }
        }
    }

    /// Find scheduled events that have elapsed this processing block, which ends
    /// before `end_samples`.
    #[verifier::spinoff_prover]
    #[verifier::rlimit(80)]
    pub fn prepare_process_block<P>(
        &mut self,
        end_samples: InstantSamples,
        nodes: &mut IdTable<ProcNode<P>>,
    )
        requires
            old(self).wf(),
            old(nodes).wf(),
            old(self).nodes_idle(old(nodes)@),
        ensures
            final(self).wf(),
            !final(self).needs_sorting(),
            final(nodes).wf(),
            same_processors(old(nodes)@, final(nodes)@),
            final(self)@ == (SchedulerView { pending: final(self)@.pending, ..old(self)@ }),
            exists|elapsed: Seq<(i64, NodeEvent<E>)>| #[trigger]
                splits_at(old(self)@.pending, elapsed, final(self)@.pending, end_samples.0) && (
                !old(self).needs_sorting() ==> elapsed + final(self)@.pending == old(
                    self,
                )@.pending) && forall|k: u64| #[trigger]
                    final(nodes)@.contains_key(k) ==> final(self).node_ok(
                        k,
                        final(nodes)@[k].event_data,
                    ) && final(self).due(k, final(nodes)@[k].event_data) == elapsed.filter(
                        for_node(k),
                    ),
    {
        self.sort_events();
        let ghost self0 = *self;
        let ghost sorted = self.sorted_event_buffer_indices@;
        let ghost arena0 = self.scheduled_event_arena@;
        let ghost all = self@.pending;
        let ghost n0 = self.num_elapsed_sorted_events as int;
        let ghost nodes0 = nodes@;
        let ghost ids = nodes@.dom();
        proof {
            assert(all.skip(0) =~= all);
            assert(all.take(0) =~= Seq::<(i64, NodeEvent<E>)>::empty());
            reveal(Seq::filter);
            assert forall|k: u64| #[trigger] ids.contains(k) implies prepared(
                sorted,
                arena0,
                all,
                n0,
                n0,
                k,
                nodes0[k].event_data,
                nodes0[k].event_data,
            ) by {
                assert(all.take(0).filter(for_node(k)) =~= Seq::<(i64, NodeEvent<E>)>::empty());
            }
        }
        let len: usize = self.sorted_event_buffer_indices.len();
        let mut i: usize = self.num_elapsed_sorted_events;
        let mut done: bool = false;
        while !done && i < len
            invariant
                self0.wf(),
                sorted == self0.sorted_event_buffer_indices@,
                arena0 == self0.scheduled_event_arena@,
                all == self0@.pending,
                n0 == self0.num_elapsed_sorted_events,
                len == sorted.len(),
                nodes0.dom() == ids,
                nodes@.dom() == ids,
                nodes.wf(),
                same_processors(nodes0, nodes@),
                n0 <= i <= len,
                self.num_elapsed_sorted_events == i,
                self.sorted_event_buffer_indices == self0.sorted_event_buffer_indices,
                self.immediate_event_buffer == self0.immediate_event_buffer,
                self.immediate_event_buffer_capacity == self0.immediate_event_buffer_capacity,
                !self.scheduled_events_need_sorting,
                !self0.scheduled_events_need_sorting,
                self.buffer_out_of_space_mode == self0.buffer_out_of_space_mode,
                self.scheduled_event_arena@.len() == arena0.len(),
                forall|j: int|
                    i <= j < len ==> self.scheduled_event_arena@[(
                    #[trigger] sorted[j]).0 as int] == arena0[sorted[j].0 as int],
                forall|k: u64, s: int|
                    0 <= s < arena0.len() && ids.contains(k) ==> #[trigger] is_for(
                        self.scheduled_event_arena@,
                        s,
                        k,
                    ) == is_for(arena0, s, k),
                forall|s: int|
                    0 <= s < arena0.len() && #[trigger] self.scheduled_event_arena@[s] is Some
                        ==> self.scheduled_event_arena@[s] == arena0[s],
                self.scheduled_event_arena_free_slots@.len() + len - i == arena0.len(),
                self.scheduled_event_arena_free_slots@.no_duplicates(),
                forall|f: int|
                    0 <= f < self.scheduled_event_arena_free_slots@.len() ==> (
                    #[trigger] self.scheduled_event_arena_free_slots@[f]) < arena0.len(),
                forall|f: int, j: int|
                    0 <= f < self.scheduled_event_arena_free_slots@.len() && i <= j < len
                        ==> #[trigger] self.scheduled_event_arena_free_slots@[f] != (
                    #[trigger] sorted[j]).0,
                self.num_scheduled_musical_events == num_events(all.skip(i - n0), None, true),
                self.num_scheduled_non_musical_events == num_events(all.skip(i - n0), None, false),
                forall|j: int| n0 <= j < i ==> (#[trigger] sorted[j]).1 < end_samples.0,
                done ==> i < len && sorted[i as int].1 >= end_samples.0,
                forall|k: u64| #[trigger]
                    ids.contains(k) ==> prepared(
                        sorted,
                        self.scheduled_event_arena@,
                        all,
                        n0,
                        i as int,
                        k,
                        nodes0[k].event_data,
                        nodes@[k].event_data,
                    ),
            decreases len - i + (if done { 0int } else { 1 }),
        {
            let (slot, time): (u32, i64) = self.sorted_event_buffer_indices[i];
            if time < end_samples.0 {
                let ghost m = i - n0;
                let ghost x = all[m];
                let ghost free1 = self.scheduled_event_arena_free_slots@;
                let ghost arena1 = self.scheduled_event_arena@;
                let ghost nodes1 = nodes@;
                proof {
                    assert(sorted.skip(n0)[m] == sorted[i as int]);
                    assert(x == (time, arena0[slot as int]->0));
                    assert(all.skip(m) =~= seq![x] + all.skip(m + 1));
                    assert(all.take(m + 1) =~= all.take(m).push(x));
                    lemma_num_events_add(seq![x], all.skip(m + 1), None, true);
                    lemma_num_events_add(seq![x], all.skip(m + 1), None, false);
                    lemma_num_events_one(x, None, true);
                    lemma_num_events_one(x, None, false);
                }
                let (musical, node_id): (bool, u64) =
                    match &self.scheduled_event_arena[slot as usize] {
                    Some(event) => (
                        match event.time {
                            Some(instant) => instant.is_musical(),
                            None => false,
                        },
                        event.node_id.0,
                    ),
                    None => (false, 0),
                };
                assert(musical == is_musical(x.1) && node_id == x.1.node_id.0);
                if musical {
                    self.num_scheduled_musical_events = self.num_scheduled_musical_events - 1;
                } else {
                    self.num_scheduled_non_musical_events = self.num_scheduled_non_musical_events
                        - 1;
                }
                self.scheduled_event_arena_free_slots.push(slot);
                if let Some(entry) = nodes.get_mut(node_id) {
                    proof {
                        assert(ids.contains(node_id));
                        assert(prepared(
                            sorted,
                            arena1,
                            all,
                            n0,
                            i as int,
                            node_id,
                            nodes0[node_id].event_data,
                            nodes1[node_id].event_data,
                        ));
                        all.take(m).lemma_filter_len(for_node(node_id));
                    }
                    if entry.event_data.num_scheduled_events_this_block == 0 {
                        // Optimize the linear search a bit by starting at the index
                        // of the first known scheduled event for this node.
                        entry.event_data.first_sorted_event_index = i;
                    }
                    // Keep track of the number of elapsed scheduled events this
                    // block to further optimize the linear search.
                    entry.event_data.num_scheduled_events_this_block =
                        entry.event_data.num_scheduled_events_this_block + 1;
                } else {
                    self.scheduled_event_arena[slot as usize] = None;
                }
                self.num_elapsed_sorted_events = self.num_elapsed_sorted_events + 1;
                proof {
                    assert(nodes@.dom() =~= ids);
                    let free = self.scheduled_event_arena_free_slots@;
                    let arena = self.scheduled_event_arena@;
                    assert(!free1.contains(slot)) by {
                        if free1.contains(slot) {
                            let f = free1.index_of(slot);
                            assert(free1[f] != sorted[i as int].0);
                        }
                    }
                    assert forall|f: int, j: int| 0 <= f < free.len() && i + 1 <= j < len implies
                        #[trigger] free[f] != (#[trigger] sorted[j]).0 by {
                        if f < free1.len() {
                            assert(free1[f] != sorted[j].0);
                        } else {
                            assert(sorted[i as int].0 != sorted[j].0);
                        }
                    }
                    assert forall|j: int| i + 1 <= j < len implies arena[(
                    #[trigger] sorted[j]).0 as int] == arena0[sorted[j].0 as int] by {
                        assert(sorted[i as int].0 != sorted[j].0);
                    }
                    assert forall|k: u64, s: int|
                        0 <= s < arena0.len() && ids.contains(k) implies #[trigger] is_for(
                        arena,
                        s,
                        k,
                    ) == is_for(arena0, s, k) by {
                        assert(is_for(arena1, s, k) == is_for(arena0, s, k));
                    }
                    assert forall|k: u64| #[trigger] ids.contains(k) implies prepared(
                        sorted,
                        arena,
                        all,
                        n0,
                        i + 1,
                        k,
                        nodes0[k].event_data,
                        nodes@[k].event_data,
                    ) by {
                        assert(prepared(
                            sorted,
                            arena1,
                            all,
                            n0,
                            i as int,
                            k,
                            nodes0[k].event_data,
                            nodes1[k].event_data,
                        ));
                        all.take(m).lemma_filter_push(x, for_node(k));
                        let d1 = nodes1[k].event_data;
                        let d = nodes@[k].event_data;
                        if d1.num_scheduled_events_this_block > 0 {
                            let first = d1.first_sorted_event_index as int;
                            assert forall|j: int| first <= j < i implies #[trigger] is_for(
                                arena1,
                                sorted[j].0 as int,
                                k,
                            ) == is_for(arena, sorted[j].0 as int, k) by {
                                assert(is_for(arena, sorted[j].0 as int, k) == is_for(
                                    arena0,
                                    sorted[j].0 as int,
                                    k,
                                ));
                                assert(is_for(arena1, sorted[j].0 as int, k) == is_for(
                                    arena0,
                                    sorted[j].0 as int,
                                    k,
                                ));
                            }
                            lemma_due_scan_same(sorted, arena1, arena, k, first, i as int);
                            lemma_due_scan_push(sorted, arena, k, first, i as int);
                        } else {
                            lemma_due_scan_push(sorted, arena, k, i as int, i as int);
                            assert(all.take(m).filter(for_node(k)) =~= Seq::<
                                (i64, NodeEvent<E>),
                            >::empty());
                            assert(due_scan(sorted, arena, k, i as int, i as int) =~= Seq::<
                                (i64, NodeEvent<E>),
                            >::empty());
                        }
                        assert(all.take((i + 1) - n0) =~= all.take(m + 1));
                        assert(is_for(arena0, slot as int, k) == (k == node_id));
                        assert(is_for(arena, slot as int, k) == is_for(arena0, slot as int, k));
                        assert(sorted[i as int] == (slot, time));
                    }
                }
                i = i + 1;
            } else {
                // The event happens after this processing block, so we are done
                // searching.
                done = true;
            }
        }
        proof {
            let m = i - n0;
            let elapsed = all.take(m);
            let rest = all.skip(m);
            let arena = self.scheduled_event_arena@;
            assert(self@.pending =~= rest) by {
                assert forall|j: int| 0 <= j < rest.len() implies self@.pending[j] == rest[j] by {
                    assert(sorted.skip(i as int)[j] == sorted[i + j]);
                    assert(sorted.skip(n0)[m + j] == sorted[i + j]);
                }
            }
            assert(elapsed + rest =~= all);
            assert forall|j: int| 0 <= j < elapsed.len() implies (#[trigger] elapsed[j]).0
                < end_samples.0 by {
                assert(sorted.skip(n0)[j] == sorted[n0 + j]);
            }
            assert forall|j: int| 0 <= j < rest.len() implies (#[trigger] rest[j]).0
                >= end_samples.0 by {
                assert(sorted.skip(n0)[m + j] == sorted[i + j]);
                if done {
                    assert(sorted[i as int].1 <= sorted[i + j].1);
                }
            }
            assert(splits_at(old(self)@.pending, elapsed, self@.pending, end_samples.0));
            assert(self.wf());
            assert forall|k: u64| #[trigger] nodes@.contains_key(k) implies self.node_ok(
                k,
                nodes@[k].event_data,
            ) && self.due(k, nodes@[k].event_data) == elapsed.filter(for_node(k)) by {
                assert(ids.contains(k));
                let d0 = nodes0[k].event_data;
                let d = nodes@[k].event_data;
                assert(old(self).node_ok(k, d0));
                assert(old(self).due(k, d0) =~= Seq::<(i64, NodeEvent<E>)>::empty());
                assert(prepared(sorted, arena, all, n0, i as int, k, d0, d));
                assert(self.due(k, d) =~= elapsed.filter(for_node(k)));
                lemma_num_events_add(elapsed, rest, Some(k), true);
                lemma_num_events_add(elapsed, rest, Some(k), false);
                lemma_num_events_for_node(elapsed, k, true);
                lemma_num_events_for_node(elapsed, k, false);
            }
        }
    }

    /// Clean up event buffers
    pub fn cleanup_process_block(&mut self)
        requires
            old(self).wf(),
        ensures
            final(self).wf(),
            final(self)@ == (SchedulerView { immediate: Seq::empty(), ..old(self)@ }),
            final(self).needs_sorting() == old(self).needs_sorting(),
            forall|k: u64, d: NodeEventSchedulerData|
                d.num_immediate_events == 0 && d.immediate_event_clump_indices@.len() == 0
                    && #[trigger] old(self).node_ok(k, d) ==> final(self).node_ok(k, d)
                    && final(self).due(k, d) == old(self).due(k, d),
    {
        self.immediate_event_buffer.clear();
        assert(self@.pending =~= old(self)@.pending);
    }

    /// Takes an event out of its buffer.
    fn take_event(&mut self, index: ProcEventsIndex) -> (event: NodeEvent<E>)
        requires
            match index {
                ProcEventsIndex::Immediate(i) => old(self).immediate_event_buffer@.len() > i
                    && old(self).immediate_event_buffer@[i as int] is Some,
                ProcEventsIndex::Scheduled(i) => old(self).scheduled_event_arena@.len() > i
                    && old(self).scheduled_event_arena@[i as int] is Some,
            },
        ensures
            match index {
                ProcEventsIndex::Immediate(i) => {
                    &&& Some(event) == old(self).immediate_event_buffer@[i as int]
                    &&& final(self).immediate_event_buffer@
                        == old(self).immediate_event_buffer@.update(i as int, None)
                    &&& final(self).scheduled_event_arena == old(self).scheduled_event_arena
                },
                ProcEventsIndex::Scheduled(i) => {
                    &&& Some(event) == old(self).scheduled_event_arena@[i as int]
                    &&& final(self).scheduled_event_arena@
                        == old(self).scheduled_event_arena@.update(i as int, None)
                    &&& final(self).immediate_event_buffer == old(self).immediate_event_buffer
                },
            },
            same_but_buffers(*old(self), *final(self)),
    {
        let taken: Option<NodeEvent<E>> = match index {
            ProcEventsIndex::Immediate(i) => self.immediate_event_buffer[i as usize].take(),
            ProcEventsIndex::Scheduled(i) => self.scheduled_event_arena[i as usize].take(),
        };
        taken.unwrap()
    }

    /// Adds an event to the queue of a sub-chunk, if there is room for it.
    fn queue_event(&self, events: &mut Vec<NodeEvent<E>>, event: NodeEvent<E>, limit: usize, Ghost(
        all,
    ): Ghost<Seq<NodeEvent<E>>>) -> (result: Result<(), EventBufferFull>)
        requires
            old(events)@ == limited(self@.mode, limit as int, all),
            self@.mode == BufferOutOfSpaceMode::Panic ==> all.len() <= limit,
        ensures
            result is Err <==> self@.mode == BufferOutOfSpaceMode::Panic && all.len() + 1 > limit,
            result is Ok ==> final(events)@ == limited(self@.mode, limit as int, all.push(event)),
    {
        if events.len() >= limit {
            match self.buffer_out_of_space_mode {
                BufferOutOfSpaceMode::AllocateOnAudioThread => {},
                BufferOutOfSpaceMode::Panic => {
                    return Err(EventBufferFull);
                },
                BufferOutOfSpaceMode::DropEvents => {
                    assert(all.push(event).take(limit as int) =~= events@);
                    return Ok(());
                },
            }
        }
        events.push(event);
        Ok(())
    }

    /// Takes the scheduled events of a node that happen by `clock`, starting to
    /// search at position `cursor`. Returns where to go on, and the next event of
    /// the node, if it is due later in this block.
    #[verifier::spinoff_prover]
    #[verifier::rlimit(60)]
    fn take_scheduled_events(
        &mut self,
        node_id: NodeID,
        data: &mut NodeEventSchedulerData,
        cursor: usize,
        clock: i64,
        limit: usize,
        events: &mut Vec<NodeEvent<E>>,
        Ghost(all): Ghost<Seq<NodeEvent<E>>>,
    ) -> (result: Result<(usize, Option<(i64, NodeEvent<E>)>), EventBufferFull>)
        requires
            old(self).wf(),
            old(events)@ == limited(old(self)@.mode, limit as int, all),
            old(self)@.mode == BufferOutOfSpaceMode::Panic ==> all.len() <= limit,
            old(self).scan_ok(node_id.0, *old(data), cursor as int),
        ensures
            same_but_buffers(*old(self), *final(self)),
            final(self).immediate_event_buffer == old(self).immediate_event_buffer,
            final(self).wf(),
            final(self)@ == old(self)@,
            taken_for(
                old(self).scheduled_event_arena@,
                final(self).scheduled_event_arena@,
                node_id.0,
            ),
            ({
                let due = old(self).scan(node_id.0, cursor as int);
                let m = leading(due, clock as int);
                match result {
                    Ok((next, carry)) => {
                        &&& cursor <= next
                        &&& final(events)@ == limited(
                            old(self)@.mode,
                            limit as int,
                            all + events_in(due.take(m)),
                        )
                        &&& old(self)@.mode == BufferOutOfSpaceMode::Panic ==> all.len() + m
                            <= limit
                        &&& final(self).scan_ok(node_id.0, *final(data), next as int)
                        &&& match carry {
                            Some(x) => m < due.len() && x == due[m] && final(self).scan(
                                node_id.0,
                                next as int,
                            ) == due.skip(m + 1),
                            None => m == due.len() && final(self).scan(node_id.0, next as int).len()
                                == 0,
                        }
                        &&& *final(data) == (NodeEventSchedulerData {
                            num_scheduled_musical_events: final(data).num_scheduled_musical_events,
                            num_scheduled_non_musical_events:
                                final(data).num_scheduled_non_musical_events,
                            num_scheduled_events_this_block:
                                final(data).num_scheduled_events_this_block,
                            ..*old(data)
                        })
                        &&& final(data).num_scheduled_musical_events - num_events(
                            final(self).scan(node_id.0, next as int),
                            Some(node_id.0),
                            true,
                        ) == old(data).num_scheduled_musical_events - num_events(
                            due,
                            Some(node_id.0),
                            true,
                        )
                        &&& final(data).num_scheduled_non_musical_events - num_events(
                            final(self).scan(node_id.0, next as int),
                            Some(node_id.0),
                            false,
                        ) == old(data).num_scheduled_non_musical_events - num_events(
                            due,
                            Some(node_id.0),
                            false,
                        )
                    },
                    Err(_) => old(self)@.mode == BufferOutOfSpaceMode::Panic && all.len() + m
                        > limit,
                }
            }),
    {
        let ghost k = node_id.0;
        let ghost due = self.scan(k, cursor as int);
        let ghost sorted = self.sorted_event_buffer_indices@;
        let ghost arena0 = self.scheduled_event_arena@;
        let ghost n = self.num_elapsed_sorted_events as int;
        let mut next: usize = cursor;
        let mut carry: Option<(i64, NodeEvent<E>)> = None;
        let ghost mut m: int = 0;
        proof {
            assert(due.take(0) =~= Seq::<(i64, NodeEvent<E>)>::empty());
            assert(due.skip(0) =~= due);
            assert(all + events_in(due.take(0)) =~= all);
        }
        while carry.is_none() && data.num_scheduled_events_this_block > 0
            invariant
                old(self).wf(),
                self.wf(),
                same_but_buffers(*old(self), *self),
                self.immediate_event_buffer == old(self).immediate_event_buffer,
                self@ == old(self)@,
                k == node_id.0,
                sorted == old(self).sorted_event_buffer_indices@,
                arena0 == old(self).scheduled_event_arena@,
                n == self.num_elapsed_sorted_events,
                due == old(self).scan(k, cursor as int),
                taken_for(arena0, self.scheduled_event_arena@, k),
                cursor <= next,
                0 <= m <= due.len(),
                m == due.len() ==> carry is None,
                self.scan_ok(k, *data, next as int),
                self.scan(k, next as int) == (if carry is Some {
                    due.skip(m + 1)
                } else {
                    due.skip(m)
                }),
                carry matches Some(x) ==> m < due.len() && x == due[m] && due[m].0 > clock,
                forall|j: int| 0 <= j < m ==> (#[trigger] due[j]).0 <= clock,
                events@ == limited(self@.mode, limit as int, all + events_in(due.take(m))),
                self@.mode == BufferOutOfSpaceMode::Panic ==> all.len() + m <= limit,
                *data == (NodeEventSchedulerData {
                    num_scheduled_musical_events: data.num_scheduled_musical_events,
                    num_scheduled_non_musical_events: data.num_scheduled_non_musical_events,
                    num_scheduled_events_this_block: data.num_scheduled_events_this_block,
                    ..*old(data)
                }),
                data.num_scheduled_musical_events - num_events(
                    self.scan(k, next as int),
                    Some(k),
                    true,
                ) == old(data).num_scheduled_musical_events - num_events(due, Some(k), true),
                data.num_scheduled_non_musical_events - num_events(
                    self.scan(k, next as int),
                    Some(k),
                    false,
                ) == old(data).num_scheduled_non_musical_events - num_events(due, Some(k), false),
            decreases self.num_elapsed_sorted_events - next,
        {
            let ghost rest = self.scan(k, next as int);
            let ghost arena1 = self.scheduled_event_arena@;
            let ghost self1 = *self;
            let (slot, time): (u32, i64) = self.sorted_event_buffer_indices[next];
            let (found, musical): (bool, bool) = match &self.scheduled_event_arena[slot as usize] {
                Some(event) => (
                    event.node_id == node_id,
                    match event.time {
                        Some(instant) => instant.is_musical(),
                        None => false,
                    },
                ),
                None => (false, false),
            };
            assert(found == is_for(arena1, slot as int, k));
            if found {
                let ghost x = due[m];
                proof {
                    assert(rest == due.skip(m));
                    assert(rest[0] == due[m]);
                    assert(rest =~= seq![x] + due.skip(m + 1));
                    lemma_num_events_add(seq![x], due.skip(m + 1), Some(k), true);
                    lemma_num_events_add(seq![x], due.skip(m + 1), Some(k), false);
                    lemma_num_events_one(x, Some(k), true);
                    lemma_num_events_one(x, Some(k), false);
                    assert(x == (time, arena1[slot as int]->0));
                    assert(x.1.node_id.0 == k);
                }
                data.num_scheduled_events_this_block = data.num_scheduled_events_this_block - 1;
                if musical {
                    data.num_scheduled_musical_events = data.num_scheduled_musical_events - 1;
                } else {
                    data.num_scheduled_non_musical_events = data.num_scheduled_non_musical_events
                        - 1;
                }
                let event = self.take_event(ProcEventsIndex::Scheduled(slot));
                next = next + 1;
                proof {
                    let arena = self.scheduled_event_arena@;
                    assert forall|j: int| next <= j < n implies #[trigger] is_for(
                        arena1,
                        sorted[j].0 as int,
                        k,
                    ) == is_for(arena, sorted[j].0 as int, k) by {
                        assert(sorted[next - 1].0 != sorted[j].0);
                    }
                    assert forall|j: int| next <= j < n && #[trigger] is_for(
                        arena1,
                        sorted[j].0 as int,
                        k,
                    ) implies arena1[sorted[j].0 as int] == arena[sorted[j].0 as int] by {
                        assert(sorted[next - 1].0 != sorted[j].0);
                    }
                    lemma_due_scan_same(sorted, arena1, arena, k, next as int, n);
                    assert(due_scan(sorted, arena1, k, next as int, n) =~= due.skip(m + 1)) by {
                        assert(rest.skip(1) =~= due.skip(m + 1));
                        assert(rest.skip(1) =~= due_scan(sorted, arena1, k, next as int, n));
                    }
                    lemma_taken_elapsed(self1, *self, next - 1);
                }
                if time <= clock {
                    // If the scheduled event elapses on or before the start of this
                    // sub-chunk, add it to the processing queue.
                    proof {
                        assert(due.take(m + 1) =~= due.take(m).push(x));
                        assert(all + events_in(due.take(m + 1)) =~= (all + events_in(
                            due.take(m),
                        )).push(event));
                        lemma_leading(due, clock as int, m + 1);
                    }
                    let result = self.queue_event(
                        events,
                        event,
                        limit,
                        Ghost(all + events_in(due.take(m))),
                    );
                    if result.is_err() {
                        return Err(EventBufferFull);
                    }
                    proof {
                        m = m + 1;
                    }
                } else {
                    // Else process up to this event, and add it to the processing
                    // queue for the next sub-chunk.
                    carry = Some((time, event));
                }
            } else {
                next = next + 1;
            }
        }
        proof {
            lemma_leading(due, clock as int, m);
            if carry is None {
                assert(self.scan(k, next as int).len() == 0);
            }
        }
        Ok((next, carry))
    }

    /// Takes all immediate events of a node.
    #[verifier::spinoff_prover]
    #[verifier::rlimit(80)]
    fn take_immediate_events(
        &mut self,
        node_id: NodeID,
        data: &mut NodeEventSchedulerData,
        limit: usize,
        events: &mut Vec<NodeEvent<E>>,
        Ghost(all): Ghost<Seq<NodeEvent<E>>>,
    ) -> (result: Result<(), EventBufferFull>)
        requires
            old(self).wf(),
            old(self).immediate_event_buffer@.len() <= 0xFFFF_FFFF,
            old(events)@ == limited(old(self)@.mode, limit as int, all),
            old(self)@.mode == BufferOutOfSpaceMode::Panic ==> all.len() <= limit,
            old(data).num_immediate_events == events_for(
                old(self).immediate_event_buffer@,
                node_id.0,
                old(self).immediate_event_buffer@.len() as int,
            ).len(),
            clumps_ok(
                old(self).immediate_event_buffer@,
                node_id.0,
                old(data).immediate_event_clump_indices@,
            ),
        ensures
            same_but_buffers(*old(self), *final(self)),
            final(self).scheduled_event_arena == old(self).scheduled_event_arena,
            ({
                let buffer = old(self).immediate_event_buffer@;
                let mine = events_for(buffer, node_id.0, buffer.len() as int);
                match result {
                    Ok(_) => {
                        &&& final(self).immediate_event_buffer@ == without_events_for(
                            buffer,
                            node_id.0,
                            buffer.len() as int,
                        )
                        &&& final(events)@ == limited(old(self)@.mode, limit as int, all + mine)
                        &&& old(self)@.mode == BufferOutOfSpaceMode::Panic ==> all.len()
                            + mine.len() <= limit
                        &&& *final(data) == (NodeEventSchedulerData {
                            num_immediate_events: 0,
                            immediate_event_clump_indices:
                                final(data).immediate_event_clump_indices,
                            ..*old(data)
                        })
                        &&& final(data).immediate_event_clump_indices@.len() == 0
                    },
                    Err(_) => old(self)@.mode == BufferOutOfSpaceMode::Panic && all.len()
                        + mine.len() > limit,
                }
            }),
    {
        let ghost k = node_id.0;
        let ghost buffer = self.immediate_event_buffer@;
        let ghost clumps = data.immediate_event_clump_indices@;
        let ghost total = events_for(buffer, k, buffer.len() as int);
        let num_clumps: usize = data.immediate_event_clump_indices.len();
        let len: usize = self.immediate_event_buffer.len();
        // Every event for the node before this position was taken.
        let mut position: usize = 0;
        let mut clump_i: usize = 0;
        proof {
            assert(without_events_for(buffer, k, 0) =~= buffer);
            assert(all + events_for(buffer, k, 0) =~= all);
            lemma_no_event_between(buffer, k, clumps, -1, 0);
        }
        while clump_i < num_clumps && data.num_immediate_events > 0
            invariant
                same_but_buffers(*old(self), *self),
                self.scheduled_event_arena == old(self).scheduled_event_arena,
                self@.mode == old(self)@.mode,
                k == node_id.0,
                buffer == old(self).immediate_event_buffer@,
                len == buffer.len(),
                len <= 0xFFFF_FFFF,
                num_clumps == clumps.len(),
                clumps == data.immediate_event_clump_indices@,
                clumps_ok(buffer, k, clumps),
                total == events_for(buffer, k, len as int),
                0 <= clump_i <= num_clumps,
                position <= len,
                clump_i < num_clumps ==> position <= clumps[clump_i as int]
                    && no_event_between(buffer, k, position as int, clumps[clump_i as int] as int),
                clump_i == num_clumps ==> no_event_between(
                    buffer,
                    k,
                    position as int,
                    len as int,
                ),
                self.immediate_event_buffer@ == without_events_for(buffer, k, position as int),
                data.num_immediate_events + events_for(buffer, k, position as int).len()
                    == total.len(),
                *data == (NodeEventSchedulerData {
                    num_immediate_events: data.num_immediate_events,
                    ..*old(data)
                }),
                events@ == limited(
                    self@.mode,
                    limit as int,
                    all + events_for(buffer, k, position as int),
                ),
                self@.mode == BufferOutOfSpaceMode::Panic ==> all.len() + events_for(
                    buffer,
                    k,
                    position as int,
                ).len() <= limit,
            decreases num_clumps - clump_i,
        {
            let start: usize = data.immediate_event_clump_indices.get(clump_i) as usize;
            let last_clump = clump_i + 1 == num_clumps;
            proof {
                assert(is_clump_start(buffer, clumps[clump_i as int] as int, k));
                lemma_events_for_gap(buffer, k, position as int, start as int);
                lemma_without_gap(buffer, k, position as int, start as int);
            }
            position = start;
            let mut in_clump: bool = true;
            while in_clump && position < len && data.num_immediate_events > 0
                invariant
                    same_but_buffers(*old(self), *self),
                    self.scheduled_event_arena == old(self).scheduled_event_arena,
                    self@.mode == old(self)@.mode,
                    k == node_id.0,
                    buffer == old(self).immediate_event_buffer@,
                    len == buffer.len(),
                    len <= 0xFFFF_FFFF,
                    clumps == data.immediate_event_clump_indices@,
                    total == events_for(buffer, k, len as int),
                    start <= position <= len,
                    start < len,
                    is_for(buffer, start as int, k),
                    position == start ==> in_clump,
                    !last_clump ==> forall|i: int|
                        start <= i < position ==> #[trigger] is_for(buffer, i, k),
                    !in_clump ==> !last_clump && position < len && !is_for(
                        buffer,
                        position as int,
                        k,
                    ),
                    self.immediate_event_buffer@ == without_events_for(buffer, k, position as int),
                    data.num_immediate_events + events_for(buffer, k, position as int).len()
                        == total.len(),
                    *data == (NodeEventSchedulerData {
                        num_immediate_events: data.num_immediate_events,
                        ..*old(data)
                    }),
                    events@ == limited(
                        self@.mode,
                        limit as int,
                        all + events_for(buffer, k, position as int),
                    ),
                    self@.mode == BufferOutOfSpaceMode::Panic ==> all.len() + events_for(
                        buffer,
                        k,
                        position as int,
                    ).len() <= limit,
                decreases len - position, (if in_clump { 1int } else { 0 }),
            {
                let found = match &self.immediate_event_buffer[position] {
                    Some(event) => event.node_id == node_id,
                    None => false,
                };
                assert(found == is_for(buffer, position as int, k));
                if found {
                    let event = self.take_event(ProcEventsIndex::Immediate(position as u32));
                    proof {
                        lemma_events_for_monotonic(buffer, k, position + 1, len as int);
                        assert(all + events_for(buffer, k, position + 1) =~= (all + events_for(
                            buffer,
                            k,
                            position as int,
                        )).push(event));
                        assert(self.immediate_event_buffer@ =~= without_events_for(
                            buffer,
                            k,
                            position + 1,
                        ));
                    }
                    let result = self.queue_event(
                        events,
                        event,
                        limit,
                        Ghost(all + events_for(buffer, k, position as int)),
                    );
                    if result.is_err() {
                        return Err(EventBufferFull);
                    }
                    data.num_immediate_events = data.num_immediate_events - 1;
                    position = position + 1;
                } else if !last_clump {
                    in_clump = false;
                } else {
                    assert(self.immediate_event_buffer@ =~= without_events_for(
                        buffer,
                        k,
                        position + 1,
                    ));
                    position = position + 1;
                }
            }
            proof {
                if data.num_immediate_events > 0 {
                    lemma_no_event_between(buffer, k, clumps, clump_i as int, position as int);
                } else {
                    lemma_all_taken(buffer, k, position as int, len as int);
                    lemma_no_event_ahead(buffer, k, clumps, clump_i as int, position as int);
                }
            }
            clump_i = clump_i + 1;
        }
        proof {
            if data.num_immediate_events == 0 {
                lemma_all_taken(buffer, k, position as int, len as int);
            }
            lemma_events_for_gap(buffer, k, position as int, len as int);
            lemma_without_gap(buffer, k, position as int, len as int);
        }
        data.num_immediate_events = 0;
        data.immediate_event_clump_indices.clear();
        Ok(())
    }

    /// Process in sub-chunks for each new scheduled event (or process a single
    /// chunk if there are no scheduled events). Returns the sub-chunks of the
    /// block, each with the events of the node that happen at its start.
    #[verifier::spinoff_prover]
    #[verifier::rlimit(80)]
    pub fn process_node(
        &mut self,
        node_id: NodeID,
        data: &mut NodeEventSchedulerData,
        block_frames: usize,
        clock_samples: InstantSamples,
        event_queue_capacity: usize,
    ) -> (result: Result<Vec<SubChunk<E>>, EventBufferFull>)
        requires
            old(self).wf(),
            !old(self).needs_sorting(),
            old(self).node_ok(node_id.0, *old(data)),
            0 < block_frames <= 0x7FFF_FFFF_FFFF_FFFF,
            clock_samples.0 + block_frames <= 0x7FFF_FFFF_FFFF_FFFF,
            forall|i: int|
                0 <= i < old(self).due(node_id.0, *old(data)).len() ==> (#[trigger] old(self).due(
                    node_id.0,
                    *old(data),
                )[i]).0 < clock_samples.0 + block_frames,
        ensures
            ({
                let plan = chunk_plan(
                    old(self).due(node_id.0, *old(data)),
                    events_for(
                        old(self)@.immediate,
                        node_id.0,
                        old(self)@.immediate.len() as int,
                    ),
                    clock_samples.0 as int,
                    0,
                    block_frames as int,
                );
                let mode = old(self)@.mode;
                match result {
                    Ok(chunks) => {
                        &&& mode == BufferOutOfSpaceMode::Panic ==> forall|i: int|
                            0 <= i < plan.len() ==> (#[trigger] plan[i]).events.len()
                                <= event_queue_capacity
                        &&& chunks@.len() == plan.len()
                        &&& forall|i: int|
                            0 <= i < plan.len() ==> follows_plan(
                                #[trigger] chunks@[i],
                                plan[i],
                                mode,
                                event_queue_capacity as int,
                            )
                        &&& final(self).wf()
                        &&& !final(self).needs_sorting()
                        &&& final(self)@ == (SchedulerView {
                            immediate: without_events_for(
                                old(self)@.immediate,
                                node_id.0,
                                old(self)@.immediate.len() as int,
                            ),
                            ..old(self)@
                        })
                        &&& final(self).node_ok(node_id.0, *final(data))
                        &&& final(data).num_immediate_events == 0
                        &&& final(data).immediate_event_clump_indices@.len() == 0
                        &&& final(data).num_scheduled_events_this_block == 0
                        &&& forall|k: u64, d: NodeEventSchedulerData|
                            k != node_id.0 && #[trigger] old(self).node_ok(k, d)
                                ==> final(self).node_ok(k, d) && final(self).due(k, d) == old(
                                self,
                            ).due(k, d)
                    },
                    Err(_) => mode == BufferOutOfSpaceMode::Panic && exists|i: int|
                        0 <= i < plan.len() && (#[trigger] plan[i]).events.len()
                            > event_queue_capacity,
                }
            }),
    {
        let ghost k = node_id.0;
        let ghost due0 = self.due(k, *data);
        let ghost buffer0 = self.immediate_event_buffer@;
        let ghost arena0 = self.scheduled_event_arena@;
        let ghost mine = events_for(buffer0, k, buffer0.len() as int);
        let ghost plan = chunk_plan(due0, mine, clock_samples.0 as int, 0, block_frames as int);
        let ghost mode = self@.mode;
        let ghost base_musical = num_events(self@.pending, Some(k), true);
        let ghost base_other = num_events(self@.pending, Some(k), false);
        let limit: usize = event_queue_capacity;

        // Optimize the linear search a bit by starting at the index of the
        // first known scheduled event for this node.
        let mut cursor: usize = if data.num_scheduled_events_this_block == 0 {
            self.num_elapsed_sorted_events
        } else {
            data.first_sorted_event_index
        };
        let mut upcoming: Option<(i64, NodeEvent<E>)> = None;
        let ghost mut rem: Seq<(i64, NodeEvent<E>)> = due0;
        let mut chunks: Vec<SubChunk<E>> = Vec::new();
        let mut frames_processed: usize = 0;
        proof {
            assert(self.scan(k, cursor as int) =~= due0);
            lemma_due_in_time_order(*self, k, cursor as int);
            assert(plan.skip(0) =~= plan);
        }
        while frames_processed < block_frames
            invariant
                k == node_id.0,
                mode == old(self)@.mode,
                limit == event_queue_capacity,
                0 < block_frames <= 0x7FFF_FFFF_FFFF_FFFF,
                clock_samples.0 + block_frames <= 0x7FFF_FFFF_FFFF_FFFF,
                buffer0 == old(self)@.immediate,
                buffer0.len() <= 0xFFFF_FFFF,
                mine == events_for(buffer0, k, buffer0.len() as int),
                due0 == old(self).due(k, *old(data)),
                plan == chunk_plan(due0, mine, clock_samples.0 as int, 0, block_frames as int),
                old(self).wf(),
                old(self).node_ok(k, *old(data)),
                arena0 == old(self).scheduled_event_arena@,
                self.wf(),
                !self.needs_sorting(),
                same_but_buffers(*old(self), *self),
                taken_for(arena0, self.scheduled_event_arena@, k),
                self@ == (SchedulerView { immediate: self@.immediate, ..old(self)@ }),
                frames_processed <= block_frames,
                chunks@.len() <= plan.len(),
                plan.skip(chunks@.len() as int) == chunk_plan(
                    rem,
                    if frames_processed == 0 {
                        mine
                    } else {
                        Seq::empty()
                    },
                    clock_samples.0 + frames_processed,
                    frames_processed as int,
                    block_frames as int,
                ),
                forall|i: int|
                    0 <= i < chunks@.len() ==> follows_plan(
                        #[trigger] chunks@[i],
                        plan[i],
                        mode,
                        limit as int,
                    ),
                mode == BufferOutOfSpaceMode::Panic ==> forall|i: int|
                    0 <= i < chunks@.len() ==> (#[trigger] plan[i]).events.len() <= limit,
                in_time_order(rem),
                forall|i: int|
                    0 <= i < rem.len() ==> (#[trigger] rem[i]).0 < clock_samples.0 + block_frames,
                match upcoming {
                    Some(x) => rem.len() > 0 && x == rem[0] && x.0 == clock_samples.0
                        + frames_processed && frames_processed > 0 && self.scan(k, cursor as int)
                        == rem.drop_first(),
                    None => self.scan(k, cursor as int) == rem,
                },
                frames_processed > 0 && frames_processed == block_frames ==> upcoming is None
                    && rem.len() == 0,
                self.scan_ok(k, *data, cursor as int),
                data.num_scheduled_musical_events == base_musical + num_events(
                    self.scan(k, cursor as int),
                    Some(k),
                    true,
                ),
                data.num_scheduled_non_musical_events == base_other + num_events(
                    self.scan(k, cursor as int),
                    Some(k),
                    false,
                ),
                base_musical == num_events(old(self)@.pending, Some(k), true),
                base_other == num_events(old(self)@.pending, Some(k), false),
                frames_processed == 0 ==> self.immediate_event_buffer@ == buffer0
                    && data.num_immediate_events == mine.len() && clumps_ok(
                    buffer0,
                    k,
                    data.immediate_event_clump_indices@,
                ),
                frames_processed > 0 ==> self.immediate_event_buffer@ == without_events_for(
                    buffer0,
                    k,
                    buffer0.len() as int,
                ) && data.num_immediate_events == 0 && data.immediate_event_clump_indices@.len()
                    == 0,
            decreases block_frames - frames_processed,
        {
            let sub_clock_samples: i64 = clock_samples.0 + frames_processed as i64;
            let mut sub_chunk_frames: usize = block_frames - frames_processed;
            let mut events: Vec<NodeEvent<E>> = Vec::new();
            let ghost immediate = if frames_processed == 0 {
                mine
            } else {
                Seq::empty()
            };
            let ghost m = leading(rem, sub_clock_samples as int);
            let ghost here = chunk_plan(
                rem,
                immediate,
                sub_clock_samples as int,
                frames_processed as int,
                block_frames as int,
            );
            let ghost j = chunks@.len() as int;
            let ghost first = frames_processed == 0;
            let ghost has_upcoming = upcoming is Some;
            let ghost scan0 = self.scan(k, cursor as int);
            let ghost self1 = *self;
            proof {
                lemma_leading(rem, sub_clock_samples as int, 0);
                assert(here.len() > 0);
                assert(plan[j] == here[0]) by {
                    assert(plan.skip(j)[0] == here[0]);
                }
                assert(here[0].events == events_in(rem.take(m)) + immediate);
                assert(rem.take(0) =~= Seq::<(i64, NodeEvent<E>)>::empty());
                assert(events_in(rem.take(0)) =~= Seq::<NodeEvent<E>>::empty());
                assert(here[0].events.len() == m + immediate.len());
            }

            // If there was an upcoming scheduled event, add it to the processing queue.
            let ghost mut queued: Seq<NodeEvent<E>> = Seq::empty();
            assert(limited(mode, limit as int, queued) =~= queued);
            if let Some((_, event)) = upcoming {
                proof {
                    lemma_leading(rem, sub_clock_samples as int, 1);
                }
                let result = self.queue_event(&mut events, event, limit, Ghost(queued));
                if result.is_err() {
                    return Err(EventBufferFull);
                }
                proof {
                    queued = queued.push(event);
                }
            }
            proof {
                if has_upcoming {
                    assert(scan0 == rem.drop_first());
                    lemma_leading_skip(rem, sub_clock_samples as int);
                    assert(queued + events_in(scan0.take(m - 1)) =~= events_in(rem.take(m)));
                } else {
                    assert(queued + events_in(scan0.take(m)) =~= events_in(rem.take(m)));
                }
            }
            let ghost mm = leading(scan0, sub_clock_samples as int);
            assert(mm == if has_upcoming {
                m - 1
            } else {
                m
            });
            assert(queued + events_in(scan0.take(mm)) == events_in(rem.take(m)));
            assert(queued.len() + mm == m);

            // Add scheduled events to the processing queue.
            let taken = self.take_scheduled_events(
                node_id,
                data,
                cursor,
                sub_clock_samples,
                limit,
                &mut events,
                Ghost(queued),
            );
            let (next, carry): (usize, Option<(i64, NodeEvent<E>)>) = match taken {
                Ok(x) => x,
                Err(_) => {
                    return Err(EventBufferFull);
                },
            };
            cursor = next;
            proof {
                queued = events_in(rem.take(m));
            }

            // If this is the first (or only) sub-chunk, add all of the immediate events
            // to the processing queue.
            //
            // Note, this is done after the scheduled events because immediate events
            // take priority in determining the final state of a node's parameters.
            if frames_processed == 0 {
                let ghost self2 = *self;
                let ghost data2 = *data;
                let result = self.take_immediate_events(
                    node_id,
                    data,
                    limit,
                    &mut events,
                    Ghost(queued),
                );
                if result.is_err() {
                    return Err(EventBufferFull);
                }
                proof {
                    assert(self@.pending =~= self2@.pending);
                    assert(self.scan(k, cursor as int) == self2.scan(k, cursor as int));
                }
            } else {
                assert(queued + immediate =~= queued);
            }
            assert(events@ == limited(mode, limit as int, here[0].events));

            let ghost rest = rem.skip(m);
            if let Some((time, _)) = &carry {
                proof {
                    if has_upcoming {
                        assert(scan0[mm] == rem[m]);
                    }
                    assert(*time == rem[m].0);
                    lemma_leading_all(rem, sub_clock_samples as int);
                    assert(rest[0] == rem[m]);
                }
                sub_chunk_frames = (*time - sub_clock_samples) as usize;
            }
            proof {
                if carry is None {
                    assert(rest.len() == 0);
                } else {
                    assert(rest.len() > 0);
                    assert(rest.drop_first() =~= rem.skip(m + 1));
                    if has_upcoming {
                        assert(scan0.skip(mm + 1) =~= rem.skip(m + 1));
                    }
                }
                assert(here[0].end == frames_processed + sub_chunk_frames);
                assert(here == seq![here[0]] + chunk_plan(
                    rest,
                    Seq::empty(),
                    sub_clock_samples + sub_chunk_frames,
                    frames_processed + sub_chunk_frames,
                    block_frames as int,
                ));
            }
            let ghost chunks1 = chunks@;
            chunks.push(
                SubChunk {
                    start: frames_processed,
                    end: frames_processed + sub_chunk_frames,
                    clock_samples: InstantSamples(sub_clock_samples),
                    events,
                },
            );
            proof {
                assert(plan.skip(j + 1) =~= here.skip(1)) by {
                    assert(plan.skip(j).skip(1) =~= plan.skip(j + 1));
                }
                assert(here.skip(1) =~= chunk_plan(
                    rest,
                    Seq::empty(),
                    sub_clock_samples + sub_chunk_frames,
                    frames_processed + sub_chunk_frames,
                    block_frames as int,
                ));
                assert forall|i: int| 0 <= i < chunks@.len() implies follows_plan(
                    #[trigger] chunks@[i],
                    plan[i],
                    mode,
                    limit as int,
                ) by {
                    if i < j {
                        assert(chunks@[i] == chunks1[i]);
                    }
                }
                assert(in_time_order(rest));
                rem = rest;
            }

            // Advance to the next sub-chunk.
            upcoming = carry;
            frames_processed = frames_processed + sub_chunk_frames;
        }
        proof {
            assert(chunk_plan(
                rem,
                Seq::empty(),
                clock_samples.0 + frames_processed,
                frames_processed as int,
                block_frames as int,
            ) =~= Seq::<ChunkPlan<E>>::empty());
            assert(plan.skip(chunks@.len() as int).len() == 0);
            assert(self.due(k, *data) =~= Seq::<(i64, NodeEvent<E>)>::empty());
            let buffer = self.immediate_event_buffer@;
            lemma_without_none(buffer0, k);
            assert(self.node_ok(k, *data));
            assert forall|k2: u64, d: NodeEventSchedulerData|
                k2 != k && #[trigger] old(self).node_ok(k2, d) implies self.node_ok(k2, d)
                && self.due(k2, d) == old(self).due(k2, d) by {
                lemma_other_node(*old(self), *self, k, k2, d);
            }
        }
        Ok(chunks)
    }
}

/// [`slice::sort_unstable_by_key`], with the second component as the key: the
/// same entries, in ascending order of it.
#[verifier::external_body]
fn sort_by_time(entries: &mut Vec<(u32, i64)>)
    ensures
        final(entries)@.to_multiset() == old(entries)@.to_multiset(),
        forall|i: int, j: int|
            0 <= i <= j < final(entries)@.len() ==> (#[trigger] final(entries)@[i]).1 <= (
            #[trigger] final(entries)@[j]).1,
{
    entries.sort_unstable_by_key(|(_, time)| *time)
}

proof fn lemma_num_events_remove<E>(
    events: Seq<(i64, NodeEvent<E>)>,
    i: int,
    node: Option<u64>,
    musical: bool,
)
    requires
        0 <= i < events.len(),
    ensures
        num_events(events, node, musical) == num_events(events.remove(i), node, musical) + (
        if counts(events[i].1, node, musical) {
            1nat
        } else {
            0
        }),
    decreases events.len(),
{
    if i == events.len() - 1 {
        assert(events.remove(i) =~= events.drop_last());
    } else {
        lemma_num_events_remove(events.drop_last(), i, node, musical);
        assert(events.remove(i).drop_last() =~= events.drop_last().remove(i));
        assert(events.remove(i).last() == events.last());
    }
}

/// Events are counted alike in any order.
proof fn lemma_num_events_permutation<E>(
    a: Seq<(i64, NodeEvent<E>)>,
    b: Seq<(i64, NodeEvent<E>)>,
    node: Option<u64>,
    musical: bool,
)
    requires
        a.to_multiset() == b.to_multiset(),
    ensures
        num_events(a, node, musical) == num_events(b, node, musical),
    decreases a.len(),
{
    a.to_multiset_ensures();
    b.to_multiset_ensures();
    assert(a.len() == b.len());
    if a.len() > 0 {
        let x = a.last();
        assert(a.contains(x));
        assert(a.to_multiset().count(x) > 0);
        assert(b.contains(x));
        let i = b.index_of(x);
        vstd::seq_lib::to_multiset_remove(a, a.len() - 1);
        vstd::seq_lib::to_multiset_remove(b, i);
        assert(a.remove(a.len() - 1) =~= a.drop_last());
        lemma_num_events_permutation(a.drop_last(), b.remove(i), node, musical);
        lemma_num_events_remove(b, i, node, musical);
    }
}

/// A permutation stays one when each entry is mapped.
proof fn lemma_map_permutation<A, B>(a: Seq<A>, b: Seq<A>, f: spec_fn(A) -> B)
    requires
        a.to_multiset() == b.to_multiset(),
    ensures
        a.map_values(f).to_multiset() == b.map_values(f).to_multiset(),
    decreases a.len(),
{
    a.to_multiset_ensures();
    b.to_multiset_ensures();
    assert(a.len() == b.len());
    if a.len() > 0 {
        let x = a.last();
        assert(a.contains(x));
        assert(a.to_multiset().count(x) > 0);
        assert(b.contains(x));
        let i = b.index_of(x);
        let c = b.remove(i);
        vstd::seq_lib::to_multiset_remove(a, a.len() - 1);
        vstd::seq_lib::to_multiset_remove(b, i);
        assert(a.remove(a.len() - 1) =~= a.drop_last());
        lemma_map_permutation(a.drop_last(), c, f);
        assert(a.map_values(f) =~= a.drop_last().map_values(f).push(f(x)));
        assert(b.map_values(f) =~= c.map_values(f).insert(i, f(x)));
        vstd::seq_lib::to_multiset_build(a.drop_last().map_values(f), f(x));
        vstd::seq_lib::to_multiset_insert(c.map_values(f), i, f(x));
    } else {
        assert(a.map_values(f) =~= b.map_values(f));
    }
}

/// What holds of a permutation of entries with distinct slots.
proof fn lemma_sorted_permutation<E>(
    before: Seq<(u32, i64)>,
    after: Seq<(u32, i64)>,
    arena: Seq<Option<NodeEvent<E>>>,
)
    requires
        before.to_multiset() == after.to_multiset(),
        forall|i: int, j: int|
            0 <= i < j < before.len() ==> (#[trigger] before[i]).0 != (#[trigger] before[j]).0,
    ensures
        after.len() == before.len(),
        forall|i: int| 0 <= i < after.len() ==> before.contains(#[trigger] after[i]),
        forall|i: int, j: int|
            0 <= i < j < after.len() ==> (#[trigger] after[i]).0 != (#[trigger] after[j]).0,
        pending_of(after, arena, 0).to_multiset() == pending_of(before, arena, 0).to_multiset(),
        forall|node: Option<u64>, musical: bool|
            num_events(#[trigger] pending_of(after, arena, 0), node, musical) == #[trigger]
            num_events(pending_of(before, arena, 0), node, musical),
{
    before.to_multiset_ensures();
    after.to_multiset_ensures();
    assert forall|i: int| 0 <= i < after.len() implies before.contains(#[trigger] after[i]) by {
        assert(after.contains(after[i]));
        assert(after.to_multiset().count(after[i]) > 0);
    }
    assert(before.no_duplicates());
    before.lemma_multiset_has_no_duplicates();
    after.lemma_multiset_has_no_duplicates_conv();
    assert forall|i: int, j: int| 0 <= i < j < after.len() implies (#[trigger] after[i]).0 != (
    #[trigger] after[j]).0 by {
        let a = before.index_of(after[i]);
        let b = before.index_of(after[j]);
        assert(before[a] == after[i]);
        assert(before[b] == after[j]);
        assert(after[i] != after[j]);
        if a < b {
        } else {
        }
    }
    let f = |x: (u32, i64)| (x.1, arena[x.0 as int]->0);
    lemma_map_permutation(before, after, f);
    assert(before.skip(0) =~= before);
    assert(after.skip(0) =~= after);
    assert(pending_of(before, arena, 0) =~= before.map_values(f));
    assert(pending_of(after, arena, 0) =~= after.map_values(f));
    assert forall|node: Option<u64>, musical: bool|
        num_events(#[trigger] pending_of(after, arena, 0), node, musical) == #[trigger] num_events(
            pending_of(before, arena, 0),
            node,
            musical,
        ) by {
        lemma_num_events_permutation(
            pending_of(before, arena, 0),
            pending_of(after, arena, 0),
            node,
            musical,
        );
    }
}

/// Whether `time` is the time in samples of an event: the one that it names, or
/// the one that `convert` gives. An immediate event has no time.
pub open spec fn time_ok<E, F: Fn(EventInstant) -> InstantSamples>(
    convert: F,
    event: NodeEvent<E>,
    time: i64,
) -> bool {
    match event.time {
        Some(EventInstant::Samples(samples)) => time == samples.0,
        Some(instant) => call_ensures(convert, (instant,), InstantSamples(time)),
        None => time == 0,
    }
}

proof fn lemma_num_events_bound<E>(
    events: Seq<(i64, NodeEvent<E>)>,
    node: Option<u64>,
    musical: bool,
)
    ensures
        num_events(events, node, musical) <= events.len(),
    decreases events.len(),
{
    if events.len() > 0 {
        lemma_num_events_bound(events.drop_last(), node, musical);
    }
}

proof fn lemma_events_for_bound<E>(buffer: Seq<Option<NodeEvent<E>>>, k: u64, n: int)
    requires
        0 <= n,
    ensures
        events_for(buffer, k, n).len() <= n,
    decreases n,
{
    if n > 0 {
        lemma_events_for_bound(buffer, k, n - 1);
    }
}

proof fn lemma_events_for_prefix<E>(
    a: Seq<Option<NodeEvent<E>>>,
    b: Seq<Option<NodeEvent<E>>>,
    k: u64,
    n: int,
)
    requires
        n <= a.len(),
        n <= b.len(),
        forall|i: int| 0 <= i < n ==> #[trigger] is_for(a, i, k) == is_for(b, i, k),
        forall|i: int| 0 <= i < n && #[trigger] is_for(a, i, k) ==> a[i] == b[i],
    ensures
        events_for(a, k, n) == events_for(b, k, n),
    decreases n,
{
    if n > 0 {
        assert(is_for(a, n - 1, k) == is_for(b, n - 1, k));
        lemma_events_for_prefix(a, b, k, n - 1);
    }
}

/// The starts of the runs after an event was pushed.
proof fn lemma_clumps_push<E>(
    buffer: Seq<Option<NodeEvent<E>>>,
    event: NodeEvent<E>,
    clumps: Seq<u32>,
    clumps2: Seq<u32>,
)
    requires
        buffer.len() < 0xFFFF_FFFF,
        clumps_ok(buffer, event.node_id.0, clumps),
        clumps2 == (if (buffer.len() == 0 || !is_for(buffer, buffer.len() - 1, event.node_id.0))
            && clumps.len() < MAX_CLUMP_INDICES {
            clumps.push(buffer.len() as u32)
        } else {
            clumps
        }),
    ensures
        clumps_ok(buffer.push(Some(event)), event.node_id.0, clumps2),
{
    let k = event.node_id.0;
    let buffer2 = buffer.push(Some(event));
    let len = buffer.len() as int;
    assert forall|i: int| 0 <= i < len implies #[trigger] is_clump_start(buffer2, i, k)
        == is_clump_start(buffer, i, k) by {
        assert(buffer2[i] == buffer[i]);
        if i > 0 {
            assert(buffer2[i - 1] == buffer[i - 1]);
        }
    }
    assert(is_for(buffer2, len, k));
    if len > 0 {
        assert(buffer2[len - 1] == buffer[len - 1]);
    }
    assert forall|c: int| 0 <= c < clumps2.len() implies (#[trigger] clumps2[c]) < buffer2.len()
        && is_clump_start(buffer2, clumps2[c] as int, k) by {
        if c < clumps.len() {
            assert(clumps2[c] == clumps[c]);
            assert(is_clump_start(buffer, clumps[c] as int, k));
        }
    }
    assert forall|i: int|
        0 <= i < buffer2.len() && #[trigger] is_clump_start(buffer2, i, k) implies clumps2.contains(
        i as u32,
    ) || (clumps2.len() == MAX_CLUMP_INDICES && i > clumps2.last()) by {
        if i < len {
            assert(is_clump_start(buffer, i, k));
            if clumps.contains(i as u32) {
                let c = clumps.index_of(i as u32);
                assert(clumps2[c] == i as u32);
            }
        } else {
            if clumps.len() < MAX_CLUMP_INDICES {
                assert(clumps2[clumps.len() as int] == len as u32);
            } else {
                assert(clumps[clumps.len() - 1] < buffer.len());
            }
        }
    }
}

/// Whether the same nodes exist, with the same processors.
pub open spec fn same_processors<P>(a: Map<u64, ProcNode<P>>, b: Map<u64, ProcNode<P>>) -> bool {
    &&& a.dom() == b.dom()
    &&& forall|k: u64| #[trigger] a.contains_key(k) ==> a[k].processor == b[k].processor
}

/// Whether `times` are the times of the first events that are for a node that
/// exists.
pub open spec fn times_ok<E, F: Fn(EventInstant) -> InstantSamples>(
    convert: F,
    events: Seq<NodeEvent<E>>,
    nodes: Set<u64>,
    times: Seq<i64>,
) -> bool {
    &&& times.len() <= events.len()
    &&& forall|i: int|
        0 <= i < times.len() && nodes.contains((#[trigger] events[i]).node_id.0) ==> time_ok(
            convert,
            events[i],
            times[i],
        )
}

/// What becomes of a scheduler when as many events of a group are pushed as
/// there are times: `None` if one of them cannot be pushed.
pub open spec fn push_all<E>(
    view: SchedulerView<E>,
    events: Seq<NodeEvent<E>>,
    nodes: Set<u64>,
    times: Seq<i64>,
) -> Option<SchedulerView<E>>
    decreases times.len(),
{
    if times.len() == 0 {
        Some(view)
    } else {
        match push_all(view, events, nodes, times.drop_last()) {
            Some(before) => {
                let event = events[times.len() - 1];
                if nodes.contains(event.node_id.0) {
                    push_one(before, event, times.last())
                } else {
                    Some(before)
                }
            },
            None => None,
        }
    }
}

proof fn lemma_push_all_step<E>(
    view: SchedulerView<E>,
    events: Seq<NodeEvent<E>>,
    nodes: Set<u64>,
    times: Seq<i64>,
    time: i64,
)
    ensures
        push_all(view, events, nodes, times.push(time)) == match push_all(
            view,
            events,
            nodes,
            times,
        ) {
            Some(before) => {
                let event = events[times.len() as int];
                if nodes.contains(event.node_id.0) {
                    push_one(before, event, time)
                } else {
                    Some(before)
                }
            },
            None => None,
        },
{
    assert(times.push(time).drop_last() =~= times);
}

/// A set of scheduled events.
#[derive(Clone, Copy)]
pub enum EventFilter {
    /// The events of nodes that do not exist.
    MissingNodes,
    /// The events that a message clears.
    Clear(ClearScheduledEventsEvent),
}

impl EventFilter {
    /// Whether an event is in the set, where the nodes `ids` exist.
    pub open spec fn selects<E>(self, event: NodeEvent<E>, ids: Set<u64>) -> bool {
        match self {
            EventFilter::MissingNodes => !ids.contains(event.node_id.0),
            EventFilter::Clear(msg) => msg.clears(event),
        }
    }

    /// Whether an entry is not in the set.
    pub open spec fn keeps<E>(self, ids: Set<u64>) -> spec_fn((i64, NodeEvent<E>)) -> bool {
        |x: (i64, NodeEvent<E>)| !self.selects(x.1, ids)
    }

    fn selects_event<E, P>(&self, event: &NodeEvent<E>, nodes: &IdTable<ProcNode<P>>) -> (selected:
        bool)
        requires
            nodes.wf(),
        ensures
            selected == self.selects(*event, nodes@.dom()),
    {
        match self {
            EventFilter::MissingNodes => !nodes.contains(event.node_id.0),
            EventFilter::Clear(msg) => {
                if let Some(node_id) = msg.node_id {
                    if event.node_id != node_id {
                        return false;
                    }
                }
                let musical = match event.time {
                    Some(instant) => instant.is_musical(),
                    None => false,
                };
                match msg.event_type {
                    ClearScheduledEventsType::All => true,
                    ClearScheduledEventsType::MusicalOnly => musical,
                    ClearScheduledEventsType::NonMusicalOnly => !musical,
                }
            },
        }
    }
}

impl ClearScheduledEventsEvent {
    /// Whether the message clears an event.
    pub open spec fn clears<E>(self, event: NodeEvent<E>) -> bool {
        &&& self.node_id matches Some(n) ==> event.node_id == n
        &&& match self.event_type {
            ClearScheduledEventsType::All => true,
            ClearScheduledEventsType::MusicalOnly => is_musical(event),
            ClearScheduledEventsType::NonMusicalOnly => !is_musical(event),
        }
    }
}

/// The events that are left after some messages were handled. A message for a
/// node that does not exist is ignored.
pub open spec fn clear_all<E>(
    pending: Seq<(i64, NodeEvent<E>)>,
    msgs: Seq<ClearScheduledEventsEvent>,
    ids: Set<u64>,
) -> Seq<(i64, NodeEvent<E>)>
    decreases msgs.len(),
{
    if msgs.len() == 0 {
        pending
    } else {
        let before = clear_all(pending, msgs.drop_last(), ids);
        let msg = msgs.last();
        if msg.node_id matches Some(n) && !ids.contains(n.0) {
            before
        } else {
            before.filter(EventFilter::Clear(msg).keeps(ids))
        }
    }
}

proof fn lemma_num_events_add<E>(
    a: Seq<(i64, NodeEvent<E>)>,
    b: Seq<(i64, NodeEvent<E>)>,
    node: Option<u64>,
    musical: bool,
)
    ensures
        num_events(a + b, node, musical) == num_events(a, node, musical) + num_events(
            b,
            node,
            musical,
        ),
    decreases b.len(),
{
    if b.len() == 0 {
        assert(a + b =~= a);
    } else {
        lemma_num_events_add(a, b.drop_last(), node, musical);
        assert((a + b).drop_last() =~= a + b.drop_last());
        assert((a + b).last() == b.last());
    }
}

proof fn lemma_num_events_one<E>(x: (i64, NodeEvent<E>), node: Option<u64>, musical: bool)
    ensures
        num_events(seq![x], node, musical) == (if counts(x.1, node, musical) {
            1nat
        } else {
            0
        }),
{
    assert(seq![x].drop_last() =~= Seq::<(i64, NodeEvent<E>)>::empty());
    assert(seq![x].last() == x);
    assert(num_events(seq![x].drop_last(), node, musical) == 0);
}

/// No event is counted where none counts.
proof fn lemma_num_events_zero<E>(
    events: Seq<(i64, NodeEvent<E>)>,
    node: Option<u64>,
    musical: bool,
)
    ensures
        num_events(events, node, musical) == 0 <==> forall|i: int|
            0 <= i < events.len() ==> !counts((#[trigger] events[i]).1, node, musical),
    decreases events.len(),
{
    if events.len() > 0 {
        let rest = events.drop_last();
        lemma_num_events_zero(rest, node, musical);
        if num_events(events, node, musical) == 0 {
            assert forall|i: int| 0 <= i < events.len() implies !counts(
                (#[trigger] events[i]).1,
                node,
                musical,
            ) by {
                if i < rest.len() {
                    assert(rest[i] == events[i]);
                }
            }
        }
        if forall|i: int|
            0 <= i < events.len() ==> !counts((#[trigger] events[i]).1, node, musical) {
            assert forall|i: int| 0 <= i < rest.len() implies !counts(
                (#[trigger] rest[i]).1,
                node,
                musical,
            ) by {
                assert(rest[i] == events[i]);
            }
            assert(!counts(events[events.len() - 1].1, node, musical));
        }
    }
}

pub proof fn lemma_filter_all<A>(s: Seq<A>, p: spec_fn(A) -> bool)
    requires
        forall|i: int| 0 <= i < s.len() ==> p(#[trigger] s[i]),
    ensures
        s.filter(p) == s,
    decreases s.len(),
{
    reveal(Seq::filter);
    if s.len() > 0 {
        assert forall|i: int| 0 <= i < s.drop_last().len() implies p(
            #[trigger] s.drop_last()[i],
        ) by {
            assert(s[i] == s.drop_last()[i]);
        }
        lemma_filter_all(s.drop_last(), p);
        assert(p(s[s.len() - 1]));
        assert(s =~= s.drop_last().push(s.last()));
    } else {
        assert(s.filter(p) =~= s);
    }
}

/// Nodes stay idle when elapsed entries are dropped.
proof fn lemma_idle_truncated<E, P>(
    before: EventScheduler<E>,
    after: EventScheduler<E>,
    nodes: Map<u64, ProcNode<P>>,
)
    requires
        before.nodes_idle(nodes),
        after@ == before@,
        after.immediate_event_buffer == before.immediate_event_buffer,
    ensures
        after.nodes_idle(nodes),
{
    assert forall|k: u64| #[trigger] nodes.contains_key(k) implies after.node_ok(
        k,
        nodes[k].event_data,
    ) by {
        assert(before.node_ok(k, nodes[k].event_data));
        assert(after.due(k, nodes[k].event_data) == before.due(k, nodes[k].event_data));
    }
}

/// Whether an event at a musical time was moved to where the transport puts it,
/// and another one was not.
pub open spec fn synced<E, F: Fn(InstantMusical) -> InstantSamples>(
    transport: Option<&F>,
    before: (i64, NodeEvent<E>),
    after: (i64, NodeEvent<E>),
) -> bool {
    &&& after.1 == before.1
    &&& match before.1.time {
        Some(EventInstant::Musical(m)) => match transport {
            Some(f) => call_ensures(*f, (m,), InstantSamples(after.0)),
            None => after.0 == NEVER,
        },
        _ => after.0 == before.0,
    }
}

/// Whether a time was converted, unless it never comes.
pub open spec fn retimed<F: Fn(InstantSamples) -> InstantSamples>(
    convert: F,
    before: i64,
    after: i64,
) -> bool {
    if before == NEVER {
        after == NEVER
    } else {
        call_ensures(convert, (InstantSamples(before),), InstantSamples(after))
    }
}

/// Whether some events, in the order of their times, are those before `end`
/// followed by the others.
pub open spec fn splits_at<E>(
    all: Seq<(i64, NodeEvent<E>)>,
    before: Seq<(i64, NodeEvent<E>)>,
    after: Seq<(i64, NodeEvent<E>)>,
    end: i64,
) -> bool {
    &&& (before + after).to_multiset() == all.to_multiset()
    &&& in_time_order(before + after)
    &&& forall|i: int| 0 <= i < before.len() ==> (#[trigger] before[i]).0 < end
    &&& forall|i: int| 0 <= i < after.len() ==> (#[trigger] after[i]).0 >= end
}

/// The predicate of being an event for node `k`.
pub open spec fn for_node<E>(k: u64) -> spec_fn((i64, NodeEvent<E>)) -> bool {
    |x: (i64, NodeEvent<E>)| x.1.node_id.0 == k
}

/// The data of node `k` when the entries `n0..n` of a sorted list are found to be
/// due.
spec fn prepared<E>(
    sorted: Seq<(u32, i64)>,
    arena: Seq<Option<NodeEvent<E>>>,
    all: Seq<(i64, NodeEvent<E>)>,
    n0: int,
    n: int,
    k: u64,
    before: NodeEventSchedulerData,
    data: NodeEventSchedulerData,
) -> bool {
    let due = all.take(n - n0).filter(for_node(k));
    &&& before.num_scheduled_events_this_block == 0
    &&& data == (NodeEventSchedulerData {
        num_scheduled_events_this_block: data.num_scheduled_events_this_block,
        first_sorted_event_index: data.first_sorted_event_index,
        ..before
    })
    &&& data.num_scheduled_events_this_block == due.len()
    &&& due.len() > 0 ==> n0 <= data.first_sorted_event_index < n && due_scan(
        sorted,
        arena,
        k,
        data.first_sorted_event_index as int,
        n,
    ) == due
}

proof fn lemma_due_scan_same<E>(
    sorted: Seq<(u32, i64)>,
    a: Seq<Option<NodeEvent<E>>>,
    b: Seq<Option<NodeEvent<E>>>,
    k: u64,
    from: int,
    to: int,
)
    requires
        forall|i: int|
            from <= i < to ==> #[trigger] is_for(a, sorted[i].0 as int, k) == is_for(
                b,
                sorted[i].0 as int,
                k,
            ),
        forall|i: int|
            from <= i < to && #[trigger] is_for(a, sorted[i].0 as int, k)
                ==> a[sorted[i].0 as int] == b[sorted[i].0 as int],
    ensures
        due_scan(sorted, a, k, from, to) == due_scan(sorted, b, k, from, to),
    decreases to - from,
{
    if from < to {
        assert(is_for(a, sorted[from].0 as int, k) == is_for(b, sorted[from].0 as int, k));
        lemma_due_scan_same(sorted, a, b, k, from + 1, to);
    }
}

proof fn lemma_due_scan_push<E>(
    sorted: Seq<(u32, i64)>,
    arena: Seq<Option<NodeEvent<E>>>,
    k: u64,
    from: int,
    to: int,
)
    requires
        from <= to,
    ensures
        due_scan(sorted, arena, k, from, to + 1) == if is_for(arena, sorted[to].0 as int, k) {
            due_scan(sorted, arena, k, from, to).push(
                (sorted[to].1, arena[sorted[to].0 as int]->0),
            )
        } else {
            due_scan(sorted, arena, k, from, to)
        },
    decreases to - from,
{
    if from < to {
        lemma_due_scan_push(sorted, arena, k, from + 1, to);
        assert(due_scan(sorted, arena, k, from, to + 1) =~= if is_for(
            arena,
            sorted[to].0 as int,
            k,
        ) {
            due_scan(sorted, arena, k, from, to).push(
                (sorted[to].1, arena[sorted[to].0 as int]->0),
            )
        } else {
            due_scan(sorted, arena, k, from, to)
        });
    } else {
        assert(due_scan(sorted, arena, k, from + 1, to + 1) =~= Seq::<
            (i64, NodeEvent<E>),
        >::empty());
        assert(due_scan(sorted, arena, k, from, to) =~= Seq::<(i64, NodeEvent<E>)>::empty());
        assert(due_scan(sorted, arena, k, from, to + 1) =~= if is_for(
            arena,
            sorted[to].0 as int,
            k,
        ) {
            Seq::<(i64, NodeEvent<E>)>::empty().push(
                (sorted[to].1, arena[sorted[to].0 as int]->0),
            )
        } else {
            Seq::<(i64, NodeEvent<E>)>::empty()
        });
    }
}

/// Only the events of a node count for it.
proof fn lemma_num_events_for_node<E>(
    events: Seq<(i64, NodeEvent<E>)>,
    k: u64,
    musical: bool,
)
    ensures
        num_events(events.filter(for_node(k)), Some(k), musical) == num_events(
            events,
            Some(k),
            musical,
        ),
    decreases events.len(),
{
    reveal(Seq::filter);
    if events.len() > 0 {
        let rest = events.drop_last();
        lemma_num_events_for_node(rest, k, musical);
        rest.lemma_filter_push(events.last(), for_node(k));
        assert(events =~= rest.push(events.last()));
        let f = rest.filter(for_node(k));
        assert(f.push(events.last()).drop_last() =~= f);
    }
}

/// Events are counted alike where only their times differ.
proof fn lemma_num_events_same<E>(
    a: Seq<(i64, NodeEvent<E>)>,
    b: Seq<(i64, NodeEvent<E>)>,
    node: Option<u64>,
    musical: bool,
)
    requires
        a.len() == b.len(),
        forall|i: int| 0 <= i < a.len() ==> (#[trigger] a[i]).1 == b[i].1,
    ensures
        num_events(a, node, musical) == num_events(b, node, musical),
    decreases a.len(),
{
    if a.len() > 0 {
        assert(a[a.len() - 1].1 == b[b.len() - 1].1);
        assert forall|i: int| 0 <= i < a.drop_last().len() implies (
        #[trigger] a.drop_last()[i]).1 == b.drop_last()[i].1 by {
            assert(a[i].1 == b[i].1);
        }
        lemma_num_events_same(a.drop_last(), b.drop_last(), node, musical);
    }
}

/// Events are counted alike in two schedulers where only their times differ.
proof fn lemma_retimed<E>(before: EventScheduler<E>, after: EventScheduler<E>)
    requires
        after@.pending.len() == before@.pending.len(),
        forall|i: int|
            0 <= i < before@.pending.len() ==> (#[trigger] after@.pending[i]).1
                == before@.pending[i].1,
    ensures
        forall|node: Option<u64>, musical: bool| #[trigger]
            num_events(after@.pending, node, musical) == num_events(
                before@.pending,
                node,
                musical,
            ),
{
    assert forall|node: Option<u64>, musical: bool| #[trigger]
        num_events(after@.pending, node, musical) == num_events(
            before@.pending,
            node,
            musical,
        ) by {
        lemma_num_events_same(after@.pending, before@.pending, node, musical);
    }
}

/// Whether two schedulers differ at most in the events of their buffers.
spec fn same_but_buffers<E>(a: EventScheduler<E>, b: EventScheduler<E>) -> bool {
    &&& a.immediate_event_buffer_capacity == b.immediate_event_buffer_capacity
    &&& a.immediate_event_buffer@.len() == b.immediate_event_buffer@.len()
    &&& a.scheduled_event_arena@.len() == b.scheduled_event_arena@.len()
    &&& a.scheduled_event_arena_free_slots == b.scheduled_event_arena_free_slots
    &&& a.sorted_event_buffer_indices == b.sorted_event_buffer_indices
    &&& a.scheduled_events_need_sorting == b.scheduled_events_need_sorting
    &&& a.num_elapsed_sorted_events == b.num_elapsed_sorted_events
    &&& a.num_scheduled_musical_events == b.num_scheduled_musical_events
    &&& a.num_scheduled_non_musical_events == b.num_scheduled_non_musical_events
    &&& a.buffer_out_of_space_mode == b.buffer_out_of_space_mode
}

/// Whether `b` is `a` with some events for node `k` taken out.
spec fn taken_for<E>(
    a: Seq<Option<NodeEvent<E>>>,
    b: Seq<Option<NodeEvent<E>>>,
    k: u64,
) -> bool {
    &&& a.len() == b.len()
    &&& forall|s: int|
        0 <= s < a.len() ==> #[trigger] b[s] == a[s] || (b[s] is None && is_for(a, s, k))
}

/// What fits in the queue of a sub-chunk: the first `limit` events where others
/// are to be dropped, or else all.
pub open spec fn limited<E>(
    mode: BufferOutOfSpaceMode,
    limit: int,
    events: Seq<NodeEvent<E>>,
) -> Seq<NodeEvent<E>> {
    if mode == BufferOutOfSpaceMode::DropEvents && events.len() > limit {
        events.take(limit)
    } else {
        events
    }
}

/// The events of entries with times.
pub open spec fn events_in<E>(entries: Seq<(i64, NodeEvent<E>)>) -> Seq<NodeEvent<E>> {
    entries.map_values(|x: (i64, NodeEvent<E>)| x.1)
}

/// The number of events at the start of a list that happen by `clock`.
pub open spec fn leading<E>(due: Seq<(i64, NodeEvent<E>)>, clock: int) -> int
    decreases due.len(),
{
    if due.len() == 0 || due[0].0 > clock {
        0
    } else {
        1 + leading(due.drop_first(), clock)
    }
}

proof fn lemma_leading<E>(due: Seq<(i64, NodeEvent<E>)>, clock: int, m: int)
    requires
        0 <= m <= due.len(),
        forall|j: int| 0 <= j < m ==> (#[trigger] due[j]).0 <= clock,
    ensures
        m <= leading(due, clock) <= due.len(),
        m == due.len() || due[m].0 > clock ==> leading(due, clock) == m,
    decreases due.len(),
{
    if due.len() > 0 && due[0].0 <= clock {
        let rest = due.drop_first();
        let n = if m > 0 {
            m - 1
        } else {
            0
        };
        assert forall|j: int| 0 <= j < n implies (#[trigger] rest[j]).0 <= clock by {
            assert(rest[j] == due[j + 1]);
        }
        lemma_leading(rest, clock, n);
        if m > 0 && m < due.len() {
            assert(rest[n] == due[m]);
        }
    } else if m > 0 {
        assert(due[0].0 <= clock);
    }
}

/// A buffer of which the events for node `k` before position `n` were taken.
pub open spec fn without_events_for<E>(
    buffer: Seq<Option<NodeEvent<E>>>,
    k: u64,
    n: int,
) -> Seq<Option<NodeEvent<E>>> {
    Seq::new(
        buffer.len(),
        |i: int|
            if i < n && is_for(buffer, i, k) {
                None
            } else {
                buffer[i]
            },
    )
}

/// Whether there is no event for node `k` at the positions `from..to`.
spec fn no_event_between<E>(
    buffer: Seq<Option<NodeEvent<E>>>,
    k: u64,
    from: int,
    to: int,
) -> bool {
    forall|i: int| from <= i < to ==> !#[trigger] is_for(buffer, i, k)
}

proof fn lemma_events_for_gap<E>(
    buffer: Seq<Option<NodeEvent<E>>>,
    k: u64,
    from: int,
    to: int,
)
    requires
        0 <= from <= to,
        no_event_between(buffer, k, from, to),
    ensures
        events_for(buffer, k, from) == events_for(buffer, k, to),
    decreases to - from,
{
    if from < to {
        assert(!is_for(buffer, to - 1, k));
        lemma_events_for_gap(buffer, k, from, to - 1);
    }
}

proof fn lemma_without_gap<E>(
    buffer: Seq<Option<NodeEvent<E>>>,
    k: u64,
    from: int,
    to: int,
)
    requires
        0 <= from <= to <= buffer.len(),
        no_event_between(buffer, k, from, to),
    ensures
        without_events_for(buffer, k, from) == without_events_for(buffer, k, to),
{
    assert(without_events_for(buffer, k, from) =~= without_events_for(buffer, k, to));
}

proof fn lemma_events_for_monotonic<E>(
    buffer: Seq<Option<NodeEvent<E>>>,
    k: u64,
    from: int,
    to: int,
)
    requires
        0 <= from <= to,
    ensures
        events_for(buffer, k, from).len() <= events_for(buffer, k, to).len(),
    decreases to - from,
{
    if from < to {
        lemma_events_for_monotonic(buffer, k, from, to - 1);
    }
}

/// Where as many events were found as there are, no more are ahead.
proof fn lemma_all_taken<E>(buffer: Seq<Option<NodeEvent<E>>>, k: u64, from: int, to: int)
    requires
        0 <= from <= to,
        events_for(buffer, k, from).len() == events_for(buffer, k, to).len(),
    ensures
        no_event_between(buffer, k, from, to),
{
    assert forall|i: int| from <= i < to implies !#[trigger] is_for(buffer, i, k) by {
        if is_for(buffer, i, k) {
            lemma_events_for_monotonic(buffer, k, from, i);
            lemma_events_for_monotonic(buffer, k, i + 1, to);
        }
    }
}

/// Between the end of a run of events and the start of the next run, or before
/// the first run, there is no event for the node; after the last run of the
/// list, the search went on to the end.
proof fn lemma_no_event_between<E>(
    buffer: Seq<Option<NodeEvent<E>>>,
    k: u64,
    clumps: Seq<u32>,
    c: int,
    position: int,
)
    requires
        buffer.len() <= 0xFFFF_FFFF,
        clumps_ok(buffer, k, clumps),
        -1 <= c < clumps.len() || (c == -1 && clumps.len() == 0),
        c == -1 ==> position == 0,
        c >= 0 ==> clumps[c] < position <= buffer.len(),
        0 <= c < clumps.len() - 1 ==> position == buffer.len() || !is_for(buffer, position, k),
        0 <= c == clumps.len() - 1 ==> position == buffer.len(),
        0 <= c < clumps.len() - 1 ==> forall|i: int|
            clumps[c] <= i < position ==> #[trigger] is_for(buffer, i, k),
    ensures
        c + 1 < clumps.len() ==> position <= clumps[c + 1] && no_event_between(
            buffer,
            k,
            position,
            clumps[c + 1] as int,
        ),
        c + 1 == clumps.len() ==> no_event_between(buffer, k, position, buffer.len() as int),
{
    let to = if c + 1 < clumps.len() {
        clumps[c + 1] as int
    } else {
        buffer.len() as int
    };
    if c + 1 < clumps.len() {
        assert(clumps[c + 1] < buffer.len());
        assert(is_clump_start(buffer, clumps[c + 1] as int, k));
        if c >= 0 {
            assert(clumps[c] < clumps[c + 1]);
            if clumps[c + 1] < position {
                assert(is_for(buffer, clumps[c + 1] - 1, k));
            }
        }
    }
    if !no_event_between(buffer, k, position, to) {
        let i = choose|i: int| position <= i < to && #[trigger] is_for(buffer, i, k);
        let s = lemma_run_start(buffer, k, position, i);
        assert(is_clump_start(buffer, s, k));
        if clumps.contains(s as u32) {
            let d = clumps.index_of(s as u32);
            assert(clumps[d] == s);
            if d <= c {
                if d < c {
                    assert(clumps[d] < clumps[c]);
                }
            } else if d > c + 1 {
                assert(clumps[c + 1] < clumps[d]);
            }
        } else {
            assert(s > clumps.last());
            if c + 1 < clumps.len() - 1 {
                assert(clumps[c + 1] < clumps[clumps.len() - 1]);
            }
        }
    }
}

/// Where no event is ahead, no run of the list is.
proof fn lemma_no_event_ahead<E>(
    buffer: Seq<Option<NodeEvent<E>>>,
    k: u64,
    clumps: Seq<u32>,
    c: int,
    position: int,
)
    requires
        clumps_ok(buffer, k, clumps),
        0 <= c < clumps.len(),
        clumps[c] < position <= buffer.len(),
        no_event_between(buffer, k, position, buffer.len() as int),
        c + 1 < clumps.len() ==> forall|i: int|
            clumps[c] <= i < position ==> #[trigger] is_for(buffer, i, k),
    ensures
        c + 1 == clumps.len(),
{
    if c + 1 < clumps.len() {
        let s = clumps[c + 1] as int;
        assert(clumps[c] < clumps[c + 1]);
        assert(is_clump_start(buffer, s, k));
        if s < position {
            assert(is_for(buffer, s - 1, k));
        }
    }
}

/// The run of events for node `k` at position `i` starts no earlier than a
/// position without one.
proof fn lemma_run_start<E>(
    buffer: Seq<Option<NodeEvent<E>>>,
    k: u64,
    from: int,
    i: int,
) -> (s: int)
    requires
        0 <= from <= i < buffer.len(),
        is_for(buffer, i, k),
        from == 0 || !is_for(buffer, from, k),
    ensures
        from <= s <= i,
        is_clump_start(buffer, s, k),
    decreases i - from,
{
    if i == 0 || !is_for(buffer, i - 1, k) {
        i
    } else {
        lemma_run_start(buffer, k, from, i - 1)
    }
}

/// Taking an elapsed event changes nothing that is pending.
proof fn lemma_taken_elapsed<E>(before: EventScheduler<E>, after: EventScheduler<E>, i: int)
    requires
        before.wf(),
        same_but_buffers(before, after),
        after.immediate_event_buffer == before.immediate_event_buffer,
        0 <= i < before.num_elapsed_sorted_events,
        after.scheduled_event_arena@ == before.scheduled_event_arena@.update(
            before.sorted_event_buffer_indices@[i].0 as int,
            None,
        ),
    ensures
        after.wf(),
        after@ == before@,
{
    let sorted = before.sorted_event_buffer_indices@;
    let n = before.num_elapsed_sorted_events as int;
    assert forall|j: int| n <= j < sorted.len() implies
        after.scheduled_event_arena@[(#[trigger] sorted[j]).0 as int]
        == before.scheduled_event_arena@[sorted[j].0 as int] by {
        assert(sorted[i].0 != sorted[j].0);
    }
    assert(after@.pending =~= before@.pending) by {
        assert forall|j: int| 0 <= j < before@.pending.len() implies after@.pending[j]
            == before@.pending[j] by {
            assert(sorted.skip(n)[j] == sorted[n + j]);
        }
    }
}

/// One sub-chunk of a block, as planned.
pub struct ChunkPlan<E> {
    /// The first frame.
    pub start: int,
    /// The frame after the last one.
    pub end: int,
    /// The time of the first frame.
    pub clock: int,
    /// The events that happen at its start.
    pub events: Seq<NodeEvent<E>>,
}

/// The sub-chunks of a block from `frame` to `total`, where `clock` is the time
/// of `frame`. A sub-chunk starts at the first frame and wherever an event of
/// `due` happens; it has the events of `due` that happen by then, and the first
/// one also has the immediate events.
pub open spec fn chunk_plan<E>(
    due: Seq<(i64, NodeEvent<E>)>,
    immediate: Seq<NodeEvent<E>>,
    clock: int,
    frame: int,
    total: int,
) -> Seq<ChunkPlan<E>>
    decreases total - frame,
{
    if frame >= total {
        Seq::empty()
    } else {
        let m = leading(due, clock);
        let rest = due.skip(m);
        let frames = if rest.len() > 0 && clock < rest[0].0 < clock + total - frame {
            rest[0].0 - clock
        } else {
            total - frame
        };
        seq![
            ChunkPlan {
                start: frame,
                end: frame + frames,
                clock,
                events: events_in(due.take(m)) + immediate,
            },
        ] + chunk_plan(rest, Seq::empty(), clock + frames, frame + frames, total)
    }
}

/// Whether a sub-chunk is as planned, with the events for which there is room.
pub open spec fn follows_plan<E>(
    chunk: SubChunk<E>,
    plan: ChunkPlan<E>,
    mode: BufferOutOfSpaceMode,
    limit: int,
) -> bool {
    &&& chunk.start == plan.start
    &&& chunk.end == plan.end
    &&& chunk.clock_samples.0 == plan.clock
    &&& chunk.events@ == limited(mode, limit, plan.events)
}

proof fn lemma_leading_skip<E>(due: Seq<(i64, NodeEvent<E>)>, clock: int)
    requires
        due.len() > 0,
        due[0].0 <= clock,
    ensures
        leading(due, clock) == 1 + leading(due.drop_first(), clock),
        1 <= leading(due, clock) <= due.len(),
        0 <= leading(due.drop_first(), clock),
{
    lemma_leading(due, clock, 1);
    lemma_leading(due.drop_first(), clock, 0);
}

/// The events counted by [`leading`] happen by then, and the next one does not.
pub proof fn lemma_leading_all<E>(due: Seq<(i64, NodeEvent<E>)>, clock: int)
    ensures
        0 <= leading(due, clock) <= due.len(),
        forall|j: int| 0 <= j < leading(due, clock) ==> (#[trigger] due[j]).0 <= clock,
        leading(due, clock) < due.len() ==> due[leading(due, clock)].0 > clock,
    decreases due.len(),
{
    if due.len() > 0 && due[0].0 <= clock {
        let rest = due.drop_first();
        lemma_leading_all(rest, clock);
        assert forall|j: int| 0 <= j < leading(due, clock) implies (#[trigger] due[j]).0
            <= clock by {
            if j > 0 {
                assert(rest[j - 1] == due[j]);
            }
        }
        if leading(due, clock) < due.len() {
            assert(rest[leading(rest, clock)] == due[leading(due, clock)]);
        }
    }
}

/// Due events are found in the order of their times.
proof fn lemma_due_in_time_order<E>(scheduler: EventScheduler<E>, k: u64, from: int)
    requires
        scheduler.wf(),
        !scheduler.needs_sorting(),
        0 <= from,
    ensures
        in_time_order(scheduler.scan(k, from)),
        forall|i: int|
            0 <= i < scheduler.scan(k, from).len() ==> from
                < scheduler.sorted_event_buffer_indices@.len()
                && scheduler.sorted_event_buffer_indices@[from].1 <= (#[trigger] scheduler.scan(
                k,
                from,
            )[i]).0,
    decreases scheduler.num_elapsed_sorted_events - from,
{
    let sorted = scheduler.sorted_event_buffer_indices@;
    if from < scheduler.num_elapsed_sorted_events {
        lemma_due_in_time_order(scheduler, k, from + 1);
        let here = scheduler.scan(k, from);
        let next = scheduler.scan(k, from + 1);
        assert forall|i: int| 0 <= i < here.len() implies sorted[from].1 <= (
        #[trigger] here[i]).0 by {
            if is_for(scheduler.scheduled_event_arena@, sorted[from].0 as int, k) {
                if i > 0 {
                    assert(here[i] == next[i - 1]);
                    assert(sorted[from].1 <= sorted[from + 1].1);
                }
            } else {
                assert(here[i] == next[i]);
                assert(sorted[from].1 <= sorted[from + 1].1);
            }
        }
        if is_for(scheduler.scheduled_event_arena@, sorted[from].0 as int, k) {
            assert forall|i: int, j: int| 0 <= i <= j < here.len() implies (
            #[trigger] here[i]).0 <= (#[trigger] here[j]).0 by {
                if i > 0 {
                    assert(here[i] == next[i - 1]);
                    assert(here[j] == next[j - 1]);
                }
            }
        }
    }
}

/// Nothing is left for a node whose events were taken.
proof fn lemma_without_none<E>(buffer: Seq<Option<NodeEvent<E>>>, k: u64)
    ensures
        ({
            let rest = without_events_for(buffer, k, buffer.len() as int);
            &&& events_for(rest, k, rest.len() as int).len() == 0
            &&& clumps_ok(rest, k, Seq::empty())
        }),
{
    let rest = without_events_for(buffer, k, buffer.len() as int);
    assert forall|i: int| 0 <= i < rest.len() implies !#[trigger] is_for(rest, i, k) by {}
    assert(no_event_between(rest, k, 0, rest.len() as int));
    lemma_events_for_gap(rest, k, 0, rest.len() as int);
}

/// What belongs to another node is not changed where the events of node `k` are
/// taken.
proof fn lemma_other_node<E>(
    before: EventScheduler<E>,
    after: EventScheduler<E>,
    k: u64,
    other: u64,
    data: NodeEventSchedulerData,
)
    requires
        k != other,
        same_but_buffers(before, after),
        after@.pending == before@.pending,
        taken_for(before.scheduled_event_arena@, after.scheduled_event_arena@, k),
        before.wf(),
        after.immediate_event_buffer@ == without_events_for(
            before.immediate_event_buffer@,
            k,
            before.immediate_event_buffer@.len() as int,
        ),
        before.node_ok(other, data),
    ensures
        after.node_ok(other, data),
        after.due(other, data) == before.due(other, data),
{
    let a = before.immediate_event_buffer@;
    let b = after.immediate_event_buffer@;
    assert forall|i: int| 0 <= i < a.len() implies #[trigger] is_for(a, i, other) == is_for(
        b,
        i,
        other,
    ) by {}
    assert forall|i: int| 0 <= i < a.len() && #[trigger] is_for(a, i, other) implies a[i]
        == b[i] by {}
    lemma_events_for_prefix(a, b, other, a.len() as int);
    assert forall|i: int| 0 <= i < a.len() implies #[trigger] is_clump_start(b, i, other)
        == is_clump_start(a, i, other) by {
        assert(is_for(a, i, other) == is_for(b, i, other));
        if i > 0 {
            assert(is_for(a, i - 1, other) == is_for(b, i - 1, other));
        }
    }
    let sorted = before.sorted_event_buffer_indices@;
    let n = before.num_elapsed_sorted_events as int;
    let first = data.first_sorted_event_index as int;
    assert forall|i: int| first <= i < n implies #[trigger] is_for(
        before.scheduled_event_arena@,
        sorted[i].0 as int,
        other,
    ) == is_for(after.scheduled_event_arena@, sorted[i].0 as int, other) by {
        let s = sorted[i].0 as int;
        assert(after.scheduled_event_arena@[s] == before.scheduled_event_arena@[s] || (
        after.scheduled_event_arena@[s] is None && is_for(before.scheduled_event_arena@, s, k)));
    }
    assert forall|i: int|
        first <= i < n && #[trigger] is_for(
            before.scheduled_event_arena@,
            sorted[i].0 as int,
            other,
        ) implies before.scheduled_event_arena@[sorted[i].0 as int]
        == after.scheduled_event_arena@[sorted[i].0 as int] by {
        let s = sorted[i].0 as int;
        assert(after.scheduled_event_arena@[s] == before.scheduled_event_arena@[s] || (
        after.scheduled_event_arena@[s] is None && is_for(before.scheduled_event_arena@, s, k)));
    }
    lemma_due_scan_same(
        sorted,
        before.scheduled_event_arena@,
        after.scheduled_event_arena@,
        other,
        first,
        n,
    );
}

impl<E> EventScheduler<E> {
    /// Whether there is an immediate event for a node.
    pub fn has_immediate_event(&self, node_id: NodeID) -> (found: bool)
        ensures
            found == exists|i: int|
                0 <= i < self@.immediate.len() && #[trigger] is_for(
                    self@.immediate,
                    i,
                    node_id.0,
                ),
    {
        let len: usize = self.immediate_event_buffer.len();
        for i in 0..len
            invariant
                len == self@.immediate.len(),
                self@.immediate == self.immediate_event_buffer@,
                forall|j: int|
                    0 <= j < i ==> !#[trigger] is_for(self@.immediate, j, node_id.0),
        {
            if let Some(event) = &self.immediate_event_buffer[i] {
                if event.node_id == node_id {
                    assert(is_for(self@.immediate, i as int, node_id.0));
                    return true;
                }
            }
            assert(!is_for(self@.immediate, i as int, node_id.0));
        }
        false
    }

    /// The data of a node that has pending events alone.
    pub fn idle_data(&self, k: u64) -> (data: NodeEventSchedulerData)
        requires
            self.wf(),
            self@.immediate.len() == 0,
        ensures
            self.node_ok(k, data),
            data.num_immediate_events == 0,
            data.immediate_event_clump_indices@.len() == 0,
            data.num_scheduled_events_this_block == 0,
    {
        let mut data = NodeEventSchedulerData::new();
        let ghost pending = self@.pending;
        let start: usize = self.num_elapsed_sorted_events;
        let len: usize = self.sorted_event_buffer_indices.len();
        assert(pending.take(0) =~= Seq::<(i64, NodeEvent<E>)>::empty());
        for i in start..len
            invariant
                self.wf(),
                pending == self@.pending,
                start == self.num_elapsed_sorted_events,
                len == self.sorted_event_buffer_indices@.len(),
                pending.len() == len - start,
                data.num_immediate_events == 0,
                data.immediate_event_clump_indices@.len() == 0,
                data.num_scheduled_events_this_block == 0,
                data.num_scheduled_musical_events <= i - start,
                data.num_scheduled_non_musical_events <= i - start,
                data.num_scheduled_musical_events == num_events(
                    pending.take(i - start),
                    Some(k),
                    true,
                ),
                data.num_scheduled_non_musical_events == num_events(
                    pending.take(i - start),
                    Some(k),
                    false,
                ),
        {
            let slot: usize = self.sorted_event_buffer_indices[i].0 as usize;
            proof {
                let n = i - start;
                assert(pending.take(n + 1).drop_last() =~= pending.take(n));
                assert(pending.take(n + 1).last() == pending[n]);
                assert(pending[n].1 == self.scheduled_event_arena@[slot as int]->0);
            }
            if let Some(event) = &self.scheduled_event_arena[slot] {
                if event.node_id.0 == k {
                    match &event.time {
                        Some(EventInstant::Musical(_)) => {
                            data.num_scheduled_musical_events =
                                data.num_scheduled_musical_events + 1;
                        },
                        _ => {
                            data.num_scheduled_non_musical_events =
                                data.num_scheduled_non_musical_events + 1;
                        },
                    }
                }
            }
        }
        proof {
            let buffer = self.immediate_event_buffer@;
            assert(pending.take(len - start) =~= pending);
            assert(self.due(k, data) =~= Seq::<(i64, NodeEvent<E>)>::empty());
            assert(events_for(buffer, k, buffer.len() as int).len() == 0);
        }
        data
    }

    /// The data of a node without events agrees with a scheduler that has none
    /// for it.
    pub proof fn lemma_no_events(&self, k: u64, data: NodeEventSchedulerData)
        requires
            forall|i: int|
                0 <= i < self@.immediate.len() ==> !#[trigger] is_for(self@.immediate, i, k),
            forall|i: int|
                0 <= i < self@.pending.len() ==> (#[trigger] self@.pending[i]).1.node_id.0 != k,
            data.num_immediate_events == 0,
            data.immediate_event_clump_indices@.len() == 0,
            data.num_scheduled_musical_events == 0,
            data.num_scheduled_non_musical_events == 0,
            data.num_scheduled_events_this_block == 0,
        ensures
            self.node_ok(k, data),
    {
        let buffer = self.immediate_event_buffer@;
        assert(self@.immediate == buffer);
        assert forall|i: int| 0 <= i < buffer.len() implies !#[trigger] is_for(buffer, i, k) by {
            assert(!is_for(self@.immediate, i, k));
        }
        assert(no_event_between(buffer, k, 0, buffer.len() as int));
        lemma_events_for_gap(buffer, k, 0, buffer.len() as int);
        assert forall|i: int| 0 <= i < buffer.len() implies !#[trigger] is_clump_start(
            buffer,
            i,
            k,
        ) by {
            assert(!is_for(self@.immediate, i, k));
        }
        lemma_num_events_zero(self@.pending, Some(k), true);
        lemma_num_events_zero(self@.pending, Some(k), false);
        assert(self.due(k, data) =~= Seq::<(i64, NodeEvent<E>)>::empty());
    }
}

} // verus!
