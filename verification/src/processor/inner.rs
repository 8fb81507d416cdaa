//! The state of the audio thread, and what messages from the main thread do to
//! it.

use crate::clock::{EventInstant, InstantMusical, InstantSamples, NEVER};
use crate::event::NodeEvent;
use crate::graph::compiler::CompiledSchedule;
use crate::id_table::{are_table_ids, is_id, slot_of, slot_order, IdTable};
use crate::node::NodeID;
use crate::processor::event_scheduler::{
    chunk_plan, clear_all, events_for, follows_plan, for_node, is_for, lemma_filter_all, push_all,
    same_processors, splits_at, synced, times_ok, without_events_for, ChunkPlan,
    EventBufferFull, EventFilter, EventScheduler, NodeEventSchedulerData, ProcNode, SchedulerView,
    SubChunk, retimed,
};
use crate::processor::{BufferOutOfSpaceMode, ClearScheduledEventsEvent};
use vstd::prelude::*;

verus! {

/// The processor of a node on its way between the threads.
pub struct NodeHeapData<P> {
    /// The node.
    pub id: NodeID,
    /// What processes it.
    pub processor: P,
}

/// A schedule with what changes on the audio thread when it comes into use.
pub struct ProcSchedule<P> {
    /// The schedule.
    pub schedule: CompiledSchedule,
    /// The nodes to remove.
    pub nodes_to_remove: Vec<NodeID>,
    /// The processors that were removed, to be dropped on the main thread.
    pub removed_nodes: Vec<NodeHeapData<P>>,
    /// The processors of new nodes.
    pub new_node_processors: Vec<NodeHeapData<P>>,
    /// An empty table with room for more nodes, if it is needed.
    pub new_node_arena: Option<IdTable<ProcNode<P>>>,
}

/// A message from the main thread to the audio thread. `T` is the state of the musical
/// transport.
pub enum ContextToProcessorMsg<P, E, T> {
    EventGroup(Vec<NodeEvent<E>>),
    NewSchedule(ProcSchedule<P>),
    HardClipOutputs(bool),
    SetTransportState(T),
    ClearScheduledEvents(Vec<ClearScheduledEventsEvent>),
}

/// A message from the audio thread to the main thread, which gives back what
/// must not be dropped on the audio thread.
pub enum ProcessorToContextMsg<P, E, T> {
    ReturnEventGroup(Vec<NodeEvent<E>>),
    ReturnSchedule(ProcSchedule<P>),
    ReturnTransportState(T),
    ReturnClearScheduledEvents(Vec<ClearScheduledEventsEvent>),
}

/// The state of the audio thread.
pub struct FirewheelProcessorInner<P, E> {
    nodes: IdTable<ProcNode<P>>,
    schedule_data: Option<ProcSchedule<P>>,
    event_scheduler: EventScheduler<E>,
    node_event_buffer_capacity: usize,
    sample_rate: u32,
    max_block_frames: usize,
    clock_samples: InstantSamples,
    hard_clip_outputs: bool,
    /// If a panic occurs while processing, this flag is set to let the
    /// main thread know that it shouldn't try spawning a new audio stream
    /// with the shared object.
    poisoned: bool,
    debug_force_clear_buffers: bool,
}

/// What the audio thread works with.
#[verifier::ext_equal]
pub struct ProcessorView<P, E> {
    /// The processors of the nodes.
    pub processors: Map<u64, P>,
    /// The schedule in use.
    pub schedule: Option<ProcSchedule<P>>,
    /// The events.
    pub events: SchedulerView<E>,
    /// The number of events for which there is room in the queue of a node.
    pub node_event_capacity: int,
    /// The sample rate.
    pub sample_rate: int,
    /// The largest number of frames in a block.
    pub max_block_frames: int,
    /// The time of the next frame.
    pub clock: int,
    /// Whether outputs are clipped.
    pub hard_clip: bool,
    /// Whether processing has failed.
    pub poisoned: bool,
    /// Whether buffers are cleared before each use.
    pub force_clear: bool,
}

impl<P, E> View for FirewheelProcessorInner<P, E> {
    type V = ProcessorView<P, E>;

    closed spec fn view(&self) -> ProcessorView<P, E> {
        ProcessorView {
            processors: processors_of(self.nodes@),
            schedule: self.schedule_data,
            events: self.event_scheduler@,
            node_event_capacity: self.node_event_buffer_capacity as int,
            sample_rate: self.sample_rate as int,
            max_block_frames: self.max_block_frames as int,
            clock: self.clock_samples.0 as int,
            hard_clip: self.hard_clip_outputs,
            poisoned: self.poisoned,
            force_clear: self.debug_force_clear_buffers,
        }
    }
}

spec fn processors_of<P>(nodes: Map<u64, ProcNode<P>>) -> Map<u64, P> {
    nodes.map_values(|n: ProcNode<P>| n.processor)
}

proof fn lemma_same_processors<P>(a: Map<u64, ProcNode<P>>, b: Map<u64, ProcNode<P>>)
    requires
        same_processors(a, b),
    ensures
        processors_of(a) == processors_of(b),
{
    assert(processors_of(a) =~= processors_of(b));
}

/// Whether a schedule is one for given nodes: it processes some of them, each once.
/// Without a schedule there is no node.
pub open spec fn schedule_fits<P>(schedule: Option<ProcSchedule<P>>, ids: Set<u64>) -> bool {
    match schedule {
        Some(data) => data.schedule.order().no_duplicates()
            && data.schedule.order().to_set().subset_of(ids),
        None => ids == Set::<u64>::empty(),
    }
}

/// Whether all pending events are for given nodes.
pub open spec fn events_within<E>(events: SchedulerView<E>, ids: Set<u64>) -> bool {
    forall|i: int|
        0 <= i < events.pending.len() ==> ids.contains((#[trigger] events.pending[i]).1.node_id.0)
}

/// The processors that are left when nodes are removed.
pub open spec fn without_nodes<P>(processors: Map<u64, P>, ids: Seq<NodeID>) -> Map<u64, P> {
    Map::new(
        |k: u64| processors.contains_key(k) && !ids.contains(NodeID(k)),
        |k: u64| processors[k],
    )
}

/// The processors of the nodes that are removed, each once, in order.
pub open spec fn removed_from<P>(processors: Map<u64, P>, ids: Seq<NodeID>) -> Seq<NodeHeapData<P>>
    decreases ids.len(),
{
    if ids.len() == 0 {
        Seq::empty()
    } else {
        let before = removed_from(processors, ids.drop_last());
        let id = ids.last();
        if processors.contains_key(id.0) && !ids.drop_last().contains(id) {
            before.push(NodeHeapData { id, processor: processors[id.0] })
        } else {
            before
        }
    }
}

/// The processors together with new ones.
pub open spec fn with_nodes<P>(processors: Map<u64, P>, added: Seq<NodeHeapData<P>>) -> Map<u64, P>
    decreases added.len(),
{
    if added.len() == 0 {
        processors
    } else {
        with_nodes(
            processors.insert(added.last().id.0, added.last().processor),
            added.drop_last(),
        )
    }
}

/// The nodes of processors.
pub open spec fn ids_of<P>(added: Seq<NodeHeapData<P>>) -> Seq<u64> {
    added.map_values(|n: NodeHeapData<P>| n.id.0)
}

/// The processors that are left when a schedule comes into use. Without one before it,
/// none is removed.
pub open spec fn left_by<P, E>(view: ProcessorView<P, E>, update: ProcSchedule<P>) -> Map<u64, P> {
    if view.schedule is Some {
        without_nodes(view.processors, update.nodes_to_remove@)
    } else {
        view.processors
    }
}

/// Whether a schedule can come into use: it is made for blocks of the right
/// size, it processes nodes that are left or new, each once, these can be held in one
/// table, and there is neither a processor nor an event for a new one yet.
pub open spec fn update_fits<P, E>(view: ProcessorView<P, E>, update: ProcSchedule<P>) -> bool {
    let order = update.schedule.order();
    let added = ids_of(update.new_node_processors@);
    let all = left_by(view, update).dom().union(added.to_set());
    &&& update.schedule.max_block_frames == view.max_block_frames
    &&& update.new_node_arena matches Some(arena) ==> arena.fresh()
    &&& order.no_duplicates()
    &&& order.to_set().subset_of(all)
    &&& new_nodes_ok(view, added)
    &&& are_table_ids(all)
}

/// Whether new nodes are distinct, and there is neither a processor nor an event for
/// one of them yet.
pub open spec fn new_nodes_ok<P, E>(view: ProcessorView<P, E>, added: Seq<u64>) -> bool {
    &&& added.no_duplicates()
    &&& forall|i: int|
        0 <= i < added.len() ==> !view.processors.contains_key(#[trigger] added[i])
    &&& forall|j: int, k: u64|
        0 <= j < view.events.immediate.len() && #[trigger] is_for(view.events.immediate, j, k)
            ==> !added.contains(k)
}

/// The state after a schedule has come into use, but for the schedule itself.
pub open spec fn updated<P, E>(
    view: ProcessorView<P, E>,
    update: ProcSchedule<P>,
    schedule: Option<ProcSchedule<P>>,
) -> ProcessorView<P, E> {
    let processors = with_nodes(left_by(view, update), update.new_node_processors@);
    ProcessorView {
        processors,
        schedule,
        events: SchedulerView {
            pending: view.events.pending.filter(
                EventFilter::MissingNodes.keeps(processors.dom()),
            ),
            ..view.events
        },
        ..view
    }
}

/// What is in use after a schedule has come into use: it took over the list of
/// removed processors from the one before, its new processors were taken, and
/// its table for them is empty.
pub open spec fn in_use<P>(
    before: Option<ProcSchedule<P>>,
    update: ProcSchedule<P>,
    after: ProcSchedule<P>,
) -> bool {
    &&& after.schedule == update.schedule
    &&& after.nodes_to_remove == update.nodes_to_remove
    &&& after.removed_nodes == match before {
        Some(before) => before.removed_nodes,
        None => update.removed_nodes,
    }
    &&& after.new_node_processors@.len() == 0
    &&& after.new_node_arena is Some <==> update.new_node_arena is Some
    &&& after.new_node_arena matches Some(arena) ==> arena.wf() && arena@.dom() == Set::<
        u64,
    >::empty()
}

/// What is returned for the schedule that was in use before: itself, with the
/// processors that were removed.
pub open spec fn returned<P>(
    before: ProcSchedule<P>,
    processors: Map<u64, P>,
    update: ProcSchedule<P>,
    reply: ProcSchedule<P>,
) -> bool {
    &&& reply.schedule == before.schedule
    &&& reply.nodes_to_remove == before.nodes_to_remove
    &&& reply.removed_nodes@ == update.removed_nodes@ + removed_from(
        processors,
        update.nodes_to_remove@,
    )
    &&& reply.new_node_processors == before.new_node_processors
    &&& reply.new_node_arena == before.new_node_arena
}

impl<P, E> FirewheelProcessorInner<P, E> {
    /// Well-formedness: the schedule processes some of the nodes, the nodes agree with
    /// the scheduler, and every event is for a node.
    pub closed spec fn wf(&self) -> bool {
        let ids = self.nodes@.dom();
        &&& self.max_block_frames > 0
        &&& self.nodes.wf()
        &&& self.event_scheduler.wf()
        &&& self.event_scheduler.nodes_idle(self.nodes@)
        &&& schedule_fits(self.schedule_data, ids)
        &&& events_within(self.event_scheduler@, ids)
    }

    /// A state without nodes. Note, this method gets called on the main thread,
    /// not the audio thread.
    pub fn new(
        immediate_event_buffer_capacity: usize,
        scheduled_event_buffer_capacity: usize,
        node_event_buffer_capacity: usize,
        sample_rate: u32,
        max_block_frames: u32,
        hard_clip_outputs: bool,
        buffer_out_of_space_mode: BufferOutOfSpaceMode,
        debug_force_clear_buffers: bool,
    ) -> (processor: Self)
        requires
            scheduled_event_buffer_capacity <= 0xFFFF_FFFF,
            max_block_frames > 0,
        ensures
            processor.wf(),
            processor@ == (ProcessorView::<P, E> {
                processors: Map::empty(),
                schedule: None,
                events: SchedulerView {
                    immediate: Seq::empty(),
                    immediate_capacity: immediate_event_buffer_capacity as int,
                    pending: Seq::empty(),
                    scheduled_capacity: scheduled_event_buffer_capacity as int,
                    mode: buffer_out_of_space_mode,
                },
                node_event_capacity: node_event_buffer_capacity as int,
                sample_rate: sample_rate as int,
                max_block_frames: max_block_frames as int,
                clock: 0,
                hard_clip: hard_clip_outputs,
                poisoned: false,
                force_clear: debug_force_clear_buffers,
            }),
    {
        let processor = FirewheelProcessorInner {
            nodes: IdTable::with_capacity(0),
            schedule_data: None,
            event_scheduler: EventScheduler::new(
                immediate_event_buffer_capacity,
                scheduled_event_buffer_capacity,
                buffer_out_of_space_mode,
            ),
            node_event_buffer_capacity,
            sample_rate,
            max_block_frames: max_block_frames as usize,
            clock_samples: InstantSamples(0),
            hard_clip_outputs,
            poisoned: false,
            debug_force_clear_buffers,
        };
        assert(processor@.processors =~= Map::<u64, P>::empty());
        assert(processor.nodes@.dom() =~= Set::<u64>::empty());
        processor
    }
}

impl<P, E> FirewheelProcessorInner<P, E> {
    /// Moves the nodes to a table with a larger allocated capacity. Returns the
    /// old one, which is empty.
    fn move_nodes(&mut self, mut new_arena: IdTable<ProcNode<P>>) -> (old_arena: IdTable<
        ProcNode<P>,
    >)
        requires
            old(self).nodes.wf(),
            new_arena.wf(),
            new_arena@.dom() == Set::<u64>::empty(),
        ensures
            final(self).nodes.wf(),
            final(self).nodes@ == old(self).nodes@,
            *final(self) == (FirewheelProcessorInner {
                nodes: final(self).nodes,
                ..*old(self)
            }),
            old_arena.wf(),
            old_arena@.dom() == Set::<u64>::empty(),
    {
        let ids = self.nodes.ids();
        let len: usize = ids.len();
        let ghost all = self.nodes@;
        proof {
            self.nodes.lemma_ids();
            assert(new_arena@ =~= all.restrict(ids@.take(0).to_set()));
            assert(self.nodes@ =~= all.remove_keys(ids@.take(0).to_set()));
        }
        for i in 0..len
            invariant
                len == ids@.len(),
                ids@.no_duplicates(),
                ids@.to_set() == all.dom(),
                ids@.len() == all.len(),
                all.dom().finite(),
                all.len() <= 0xFFFF_FFFF,
                forall|k: u64| #[trigger] all.contains_key(k) ==> is_id(k),
                forall|k1: u64, k2: u64| #[trigger]
                    all.contains_key(k1) && #[trigger] all.contains_key(k2) && k1 != k2
                        ==> slot_of(k1) != slot_of(k2),
                self.nodes.wf(),
                new_arena.wf(),
                self.nodes@ == all.remove_keys(ids@.take(i as int).to_set()),
                new_arena@ == all.restrict(ids@.take(i as int).to_set()),
                *self == (FirewheelProcessorInner { nodes: self.nodes, ..*old(self) }),
        {
            let id: u64 = ids[i];
            proof {
                assert(ids@.to_set().contains(ids@[i as int]));
                assert(all.contains_key(id));
                assert(!ids@.take(i as int).to_set().contains(id));
                assert(ids@.take(i + 1) =~= ids@.take(i as int).push(id));
                assert(new_arena@.dom().subset_of(all.dom().remove(id)));
                vstd::set_lib::lemma_len_subset(new_arena@.dom(), all.dom().remove(id));
                assert forall|k: u64| #[trigger] new_arena@.contains_key(k) implies slot_of(k)
                    != slot_of(id) by {
                    assert(all.contains_key(k));
                }
            }
            if let Some(node) = self.nodes.remove(id) {
                new_arena.insert_at(id, node);
            }
            proof {
                assert(ids@.take(i + 1).to_set() =~= ids@.take(i as int).to_set().insert(id)) by {
                    ids@.take(i as int).lemma_push_to_set_commute(id);
                }
                assert(self.nodes@ =~= all.remove_keys(ids@.take(i + 1).to_set()));
                assert(new_arena@ =~= all.restrict(ids@.take(i + 1).to_set()));
            }
        }
        proof {
            assert(ids@.take(len as int) =~= ids@);
            assert(new_arena@ =~= all);
            assert(self.nodes@.dom() =~= Set::<u64>::empty());
        }
        std::mem::swap(&mut self.nodes, &mut new_arena);
        new_arena
    }

    /// Removes nodes. Returns whether one of them has events that are pending.
    fn remove_nodes(&mut self, ids: &Vec<NodeID>, removed_nodes: &mut Vec<NodeHeapData<P>>) -> (had_events:
        bool)
        requires
            old(self).nodes.wf(),
            old(self).event_scheduler.nodes_idle(old(self).nodes@),
        ensures
            final(self).nodes.wf(),
            final(self).event_scheduler.nodes_idle(final(self).nodes@),
            final(self).nodes@.dom().subset_of(old(self).nodes@.dom()),
            processors_of(final(self).nodes@) == without_nodes(
                processors_of(old(self).nodes@),
                ids@,
            ),
            *final(self) == (FirewheelProcessorInner {
                nodes: final(self).nodes,
                ..*old(self)
            }),
            final(removed_nodes)@ == old(removed_nodes)@ + removed_from(
                processors_of(old(self).nodes@),
                ids@,
            ),
            !had_events ==> forall|i: int, j: int|
                0 <= i < ids@.len() && 0 <= j < old(self).event_scheduler@.pending.len() && old(
                    self,
                ).nodes@.contains_key((#[trigger] ids@[i]).0) ==> (
                #[trigger] old(self).event_scheduler@.pending[j]).1.node_id != ids@[i],
    {
        let mut had_events = false;
        let len: usize = ids.len();
        let ghost nodes0 = self.nodes@;
        let ghost pending = self.event_scheduler@.pending;
        proof {
            assert(ids@.take(0) =~= Seq::<NodeID>::empty());
            assert(processors_of(self.nodes@) =~= without_nodes(
                processors_of(nodes0),
                ids@.take(0),
            ));
            assert(removed_nodes@ =~= old(removed_nodes)@ + removed_from(
                processors_of(nodes0),
                ids@.take(0),
            ));
        }
        for i in 0..len
            invariant
                len == ids@.len(),
                nodes0 == old(self).nodes@,
                pending == old(self).event_scheduler@.pending,
                self.nodes.wf(),
                self.event_scheduler.nodes_idle(self.nodes@),
                self.nodes@.dom().subset_of(nodes0.dom()),
                forall|k: u64| #[trigger]
                    self.nodes@.contains_key(k) ==> self.nodes@[k] == nodes0[k],
                processors_of(self.nodes@) == without_nodes(
                    processors_of(nodes0),
                    ids@.take(i as int),
                ),
                *self == (FirewheelProcessorInner { nodes: self.nodes, ..*old(self) }),
                removed_nodes@ == old(removed_nodes)@ + removed_from(
                    processors_of(nodes0),
                    ids@.take(i as int),
                ),
                !had_events ==> forall|a: int, j: int|
                    0 <= a < i && 0 <= j < pending.len() && nodes0.contains_key(
                        (#[trigger] ids@[a]).0,
                    ) ==> (#[trigger] pending[j]).1.node_id != ids@[a],
        {
            let node_id = ids[i];
            let ghost before = self.nodes@;
            proof {
                assert(ids@.take(i + 1).drop_last() =~= ids@.take(i as int));
                assert(ids@.take(i + 1).last() == node_id);
                assert(processors_of(before).contains_key(node_id.0) == before.contains_key(
                    node_id.0,
                ));
                assert(node_id == NodeID(node_id.0));
            }
            if let Some(node) = self.nodes.remove(node_id.0) {
                proof {
                    assert(before.contains_key(node_id.0));
                    assert(self.event_scheduler.node_ok(node_id.0, node.event_data));
                }
                if self.event_scheduler.node_has_scheduled_events(&node.event_data) {
                    had_events = true;
                }
                removed_nodes.push(NodeHeapData { id: node_id, processor: node.processor });
            }
            proof {
                lemma_without_step(processors_of(nodes0), ids@, i as int);
                assert(processors_of(self.nodes@) =~= processors_of(before).remove(node_id.0));
                if !had_events {
                    assert forall|a: int, j: int|
                        0 <= a < i + 1 && 0 <= j < pending.len() && nodes0.contains_key(
                            (#[trigger] ids@[a]).0,
                        ) implies (#[trigger] pending[j]).1.node_id != ids@[a] by {
                        if a == i {
                            if before.contains_key(node_id.0) {
                                assert(pending[j].1.node_id.0 != node_id.0);
                            } else {
                                assert(ids@.take(i as int).contains(node_id));
                                let b = ids@.take(i as int).index_of(node_id);
                                assert(ids@[b] == node_id);
                            }
                        }
                    }
                }
            }
        }
        assert(ids@.take(len as int) =~= ids@);
        had_events
    }
}

impl<P, E> FirewheelProcessorInner<P, E> {
    /// Forgets the events of a block that were for nodes which the schedule does not
    /// process.
    fn drop_unscheduled_events(&mut self, schedule: &CompiledSchedule)
        requires
            old(self).nodes.wf(),
            old(self).event_scheduler.wf(),
            old(self).event_scheduler@.immediate.len() == 0,
            schedule.order().no_duplicates(),
            schedule.order().to_set().subset_of(old(self).nodes@.dom()),
            forall|i: int|
                0 <= i < schedule.order().len() ==> old(self).event_scheduler.node_ok(
                    #[trigger] schedule.order()[i],
                    old(self).nodes@[schedule.order()[i]].event_data,
                ) && old(self).nodes@[schedule.order()[i]].event_data.num_scheduled_events_this_block
                    == 0,
        ensures
            *final(self) == (FirewheelProcessorInner { nodes: final(self).nodes, ..*old(self) }),
            final(self).nodes.wf(),
            final(self).nodes@.dom() == old(self).nodes@.dom(),
            processors_of(final(self).nodes@) == processors_of(old(self).nodes@),
            forall|k: u64| #[trigger]
                final(self).nodes@.contains_key(k) ==> final(self).event_scheduler.node_ok(
                    k,
                    final(self).nodes@[k].event_data,
                ) && final(self).nodes@[k].event_data.num_scheduled_events_this_block == 0,
    {
        let ghost order = schedule.order();
        let ghost nodes0 = self.nodes@;
        let ids = self.nodes.ids();
        let num: usize = ids.len();
        if num == schedule.schedule.len() {
            proof {
                order.unique_seq_to_set();
                assert(order.to_set() == nodes0.dom()) by {
                    vstd::set_lib::lemma_subset_equality(order.to_set(), nodes0.dom());
                }
                assert forall|k: u64| #[trigger]
                    nodes0.contains_key(k) implies self.event_scheduler.node_ok(
                    k,
                    nodes0[k].event_data,
                ) && nodes0[k].event_data.num_scheduled_events_this_block == 0 by {
                    assert(order.to_set().contains(k));
                    let i = order.index_of(k);
                    assert(order[i] == k);
                }
            }
            return;
        }
        for i in 0..num
            invariant
                order == schedule.order(),
                num == ids@.len(),
                ids@.no_duplicates(),
                ids@.to_set() == nodes0.dom(),
                nodes0 == old(self).nodes@,
                *self == (FirewheelProcessorInner { nodes: self.nodes, ..*old(self) }),
                self.nodes.wf(),
                self.event_scheduler.wf(),
                self.event_scheduler@.immediate.len() == 0,
                self.nodes@.dom() == nodes0.dom(),
                processors_of(self.nodes@) == processors_of(nodes0),
                forall|j: int|
                    0 <= j < order.len() ==> self.event_scheduler.node_ok(
                        #[trigger] order[j],
                        self.nodes@[order[j]].event_data,
                    ) && self.nodes@[order[j]].event_data.num_scheduled_events_this_block == 0,
                forall|j: int|
                    0 <= j < i ==> self.event_scheduler.node_ok(
                        #[trigger] ids@[j],
                        self.nodes@[ids@[j]].event_data,
                    ) && self.nodes@[ids@[j]].event_data.num_scheduled_events_this_block == 0,
        {
            let id: u64 = ids[i];
            let ghost nodes1 = self.nodes@;
            if !Self::is_scheduled(schedule, id) {
                let data = self.event_scheduler.idle_data(id);
                if let Some(node) = self.nodes.get_mut(id) {
                    node.event_data = data;
                }
                proof {
                    assert(ids@.to_set().contains(id));
                    assert(nodes1.contains_key(id));
                    assert(processors_of(self.nodes@) =~= processors_of(nodes1));
                    assert forall|j: int| 0 <= j < order.len() implies #[trigger] order[j] != id by {
                        assert(order.contains(order[j]));
                    }
                }
            } else {
                assert(order.contains(id));
                let ghost j = order.index_of(id);
                assert(order[j] == id);
            }
        }
        assert forall|k: u64| #[trigger]
            self.nodes@.contains_key(k) implies self.event_scheduler.node_ok(
            k,
            self.nodes@[k].event_data,
        ) && self.nodes@[k].event_data.num_scheduled_events_this_block == 0 by {
            assert(ids@.to_set().contains(k));
            let j = ids@.index_of(k);
            assert(ids@[j] == k);
        }
    }

    /// Whether a schedule processes a node.
    fn is_scheduled(schedule: &CompiledSchedule, id: u64) -> (found: bool)
        ensures
            found == schedule.order().contains(id),
    {
        let ghost order = schedule.order();
        let len: usize = schedule.schedule.len();
        for i in 0..len
            invariant
                order == schedule.order(),
                len == order.len(),
                forall|j: int| 0 <= j < i ==> #[trigger] order[j] != id,
        {
            assert(order[i as int] == schedule.schedule@[i as int].id.0);
            if schedule.schedule[i].id.0 == id {
                return true;
            }
        }
        false
    }

    /// Adds the processors of new nodes, for which there is no event.
    fn insert_nodes(&mut self, added: &mut Vec<NodeHeapData<P>>, Ghost(all): Ghost<Set<u64>>)
        requires
            old(self).nodes.wf(),
            old(self).event_scheduler.nodes_idle(old(self).nodes@),
            are_table_ids(all),
            all == old(self).nodes@.dom().union(ids_of(old(added)@).to_set()),
            ids_of(old(added)@).no_duplicates(),
            forall|i: int|
                0 <= i < old(added)@.len() ==> !old(self).nodes@.contains_key(
                    (#[trigger] old(added)@[i]).id.0,
                ),
            forall|i: int, j: int|
                0 <= i < old(added)@.len() && 0 <= j < old(self).event_scheduler@.pending.len()
                    ==> (#[trigger] old(added)@[i]).id != (
                #[trigger] old(self).event_scheduler@.pending[j]).1.node_id,
            forall|i: int, j: int|
                0 <= i < old(added)@.len() && 0 <= j < old(self).event_scheduler@.immediate.len()
                    ==> !#[trigger] is_for(
                    old(self).event_scheduler@.immediate,
                    j,
                    (#[trigger] old(added)@[i]).id.0,
                ),
        ensures
            final(self).nodes.wf(),
            final(self).event_scheduler.nodes_idle(final(self).nodes@),
            final(self).nodes@.dom() == all,
            processors_of(final(self).nodes@) == with_nodes(
                processors_of(old(self).nodes@),
                old(added)@,
            ),
            *final(self) == (FirewheelProcessorInner {
                nodes: final(self).nodes,
                ..*old(self)
            }),
            final(added)@.len() == 0,
    {
        let ghost added0 = added@;
        while added.len() > 0
            invariant
                added0 == old(added)@,
                added@ == added0.take(added@.len() as int),
                added@.len() <= added0.len(),
                self.nodes.wf(),
                self.event_scheduler.nodes_idle(self.nodes@),
                are_table_ids(all),
                all == self.nodes@.dom().union(ids_of(added@).to_set()),
                ids_of(added@).no_duplicates(),
                forall|i: int|
                    0 <= i < added@.len() ==> !self.nodes@.contains_key(
                        (#[trigger] added@[i]).id.0,
                    ),
                forall|i: int, j: int|
                    0 <= i < added0.len() && 0 <= j < old(self).event_scheduler@.pending.len()
                        ==> (#[trigger] added0[i]).id != (
                    #[trigger] old(self).event_scheduler@.pending[j]).1.node_id,
                forall|i: int, j: int|
                    0 <= i < added0.len() && 0 <= j < old(self).event_scheduler@.immediate.len()
                        ==> !#[trigger] is_for(
                        old(self).event_scheduler@.immediate,
                        j,
                        (#[trigger] added0[i]).id.0,
                    ),
                *self == (FirewheelProcessorInner { nodes: self.nodes, ..*old(self) }),
                with_nodes(processors_of(self.nodes@), added@) == with_nodes(
                    processors_of(old(self).nodes@),
                    added0,
                ),
            decreases added.len(),
        {
            let ghost before = self.nodes@;
            let ghost added1 = added@;
            if let Some(n) = added.pop() {
                let ghost k = n.id.0;
                let ghost l = added1.len() - 1;
                proof {
                    assert(added1.last() == n);
                    assert(added1[l] == n);
                    assert(added0[l] == n);
                    assert(ids_of(added1)[l] == k);
                    assert(ids_of(added1).to_set().contains(k));
                    assert(ids_of(added1) =~= ids_of(added@).push(k));
                    ids_of(added@).lemma_push_to_set_commute(k);
                    assert(!before.contains_key(k));
                    assert(before.dom().subset_of(all.remove(k)));
                    vstd::set_lib::lemma_len_subset(before.dom(), all.remove(k));
                    assert forall|x: u64| #[trigger] before.contains_key(x) implies slot_of(x)
                        != slot_of(k) by {
                        assert(all.contains(x));
                    }
                }
                let data = NodeEventSchedulerData::new();
                proof {
                    assert(n.id == NodeID(k));
                    self.event_scheduler.lemma_no_events(k, data);
                }
                self.nodes.insert_at(n.id.0, ProcNode { processor: n.processor, event_data: data });
                proof {
                    assert(processors_of(self.nodes@) =~= processors_of(before).insert(
                        k,
                        n.processor,
                    ));
                    assert(added@ =~= added1.drop_last());
                    assert forall|i: int| 0 <= i < added@.len() implies !self.nodes@.contains_key(
                        (#[trigger] added@[i]).id.0,
                    ) by {
                        assert(added1[i] == added@[i]);
                        assert(ids_of(added1)[i] == added@[i].id.0);
                    }
                    assert forall|i: int, j: int|
                        0 <= i < j < added@.len() implies ids_of(added@)[i] != ids_of(added@)[j] by {
                        assert(ids_of(added1)[i] == ids_of(added@)[i]);
                        assert(ids_of(added1)[j] == ids_of(added@)[j]);
                    }
                    assert(all =~= self.nodes@.dom().union(ids_of(added@).to_set()));
                }
            }
        }
        assert(ids_of(added@).to_set() =~= Set::<u64>::empty());
        assert(self.nodes@.dom() =~= all);
    }

    /// A schedule comes into use. Returns the one before.
    #[verifier::spinoff_prover]
    pub fn new_schedule(&mut self, new_schedule_data: ProcSchedule<P>) -> (reply: Option<
        ProcSchedule<P>,
    >)
        requires
            old(self).wf(),
            update_fits(old(self)@, new_schedule_data),
        ensures
            final(self).wf(),
            final(self)@ == updated(old(self)@, new_schedule_data, final(self)@.schedule),
            final(self)@.schedule is Some,
            in_use(old(self)@.schedule, new_schedule_data, final(self)@.schedule->0),
            match old(self)@.schedule {
                Some(before) => reply is Some && returned(
                    before,
                    old(self)@.processors,
                    new_schedule_data,
                    reply->0,
                ),
                None => reply is None,
            },
    {
        let ghost view0 = self@;
        let ghost nodes0 = self.nodes@;
        let ghost update = new_schedule_data;
        let ghost added = ids_of(update.new_node_processors@);
        let ghost all = left_by(view0, update).dom().union(added.to_set());
        let mut new_schedule_data = new_schedule_data;
        if let Some(new_arena) = new_schedule_data.new_node_arena.take() {
            // A new arena with a larger allocated capacity was sent.
            proof {
                new_arena.lemma_fresh();
                assert(new_arena@.dom() =~= Set::<u64>::empty());
            }
            let old_arena = self.move_nodes(new_arena);
            new_schedule_data.new_node_arena = Some(old_arena);
        }
        let mut remove_old_scheduled_events = false;
        let mut reply: Option<ProcSchedule<P>> = None;
        let ghost self1 = *self;
        proof {
            assert(processors_of(self.nodes@) == view0.processors);
        }
        if let Some(old_schedule_data) = self.schedule_data.take() {
            let mut old_schedule_data = old_schedule_data;
            std::mem::swap(
                &mut old_schedule_data.removed_nodes,
                &mut new_schedule_data.removed_nodes,
            );
            remove_old_scheduled_events =
            self.remove_nodes(
                &new_schedule_data.nodes_to_remove,
                &mut old_schedule_data.removed_nodes,
            );
            reply = Some(old_schedule_data);
        }
        let ghost kept = left_by(view0, update);
        proof {
            assert(processors_of(self.nodes@) =~= kept);
            assert(self.nodes@.dom() =~= kept.dom());
            assert(self.nodes@.dom().subset_of(nodes0.dom()));
            assert forall|i: int| 0 <= i < update.new_node_processors@.len() implies
                !nodes0.contains_key((#[trigger] update.new_node_processors@[i]).id.0) && added.contains(
                update.new_node_processors@[i].id.0,
            ) by {
                assert(added[i] == update.new_node_processors@[i].id.0);
                assert(!view0.processors.contains_key(added[i]));
            }
        }
        self.insert_nodes(&mut new_schedule_data.new_node_processors, Ghost(all));
        proof {
            let keeps = EventFilter::MissingNodes.keeps::<E>(all);
            if !remove_old_scheduled_events {
                let pending = view0.events.pending;
                assert forall|j: int| 0 <= j < pending.len() implies keeps(
                    #[trigger] pending[j],
                ) by {
                    let k = pending[j].1.node_id.0;
                    assert(nodes0.contains_key(k));
                    assert(view0.schedule is Some);
                    if update.nodes_to_remove@.contains(NodeID(k)) {
                        let i = update.nodes_to_remove@.index_of(NodeID(k));
                        assert(update.nodes_to_remove@[i].0 == k);
                        assert(pending[j].1.node_id == NodeID(k));
                        assert(false);
                    }
                    assert(kept.contains_key(k));
                }
                lemma_filter_all(pending, keeps);
            }
        }
        if remove_old_scheduled_events {
            let ghost nodes1 = self.nodes@;
            self.event_scheduler.remove_events_from_removed_nodes(&mut self.nodes);
            proof {
                lemma_same_processors(nodes1, self.nodes@);
            }
        }
        self.schedule_data = Some(new_schedule_data);
        proof {
            let pending = view0.events.pending;
            assert(self@.processors.dom() =~= all);
            assert forall|i: int| 0 <= i < self.event_scheduler@.pending.len() implies all.contains(
                (#[trigger] self.event_scheduler@.pending[i]).1.node_id.0,
            ) by {
                let keeps = EventFilter::MissingNodes.keeps::<E>(all);
                assert(self.event_scheduler@.pending == pending.filter(keeps));
                pending.lemma_filter_pred(keeps, i);
            }
        }
        reply
    }
}

/// Events that are pushed are for nodes that exist.
proof fn lemma_push_all_within<E>(
    view: SchedulerView<E>,
    events: Seq<NodeEvent<E>>,
    nodes: Set<u64>,
    times: Seq<i64>,
)
    requires
        events_within(view, nodes),
        push_all(view, events, nodes, times) is Some,
    ensures
        events_within(push_all(view, events, nodes, times)->0, nodes),
    decreases times.len(),
{
    if times.len() > 0 {
        lemma_push_all_within(view, events, nodes, times.drop_last());
        let before = push_all(view, events, nodes, times.drop_last())->0;
        let event = events[times.len() - 1];
        let after = push_all(view, events, nodes, times)->0;
        if nodes.contains(event.node_id.0) {
            assert forall|i: int| 0 <= i < after.pending.len() implies nodes.contains(
                (#[trigger] after.pending[i]).1.node_id.0,
            ) by {
                if i < before.pending.len() {
                    assert(after.pending[i] == before.pending[i]);
                }
            }
        }
    }
}

/// Events that are left after clearing are events that were there.
proof fn lemma_clear_all_within<E>(
    pending: Seq<(i64, NodeEvent<E>)>,
    msgs: Seq<ClearScheduledEventsEvent>,
    ids: Set<u64>,
)
    requires
        forall|i: int|
            0 <= i < pending.len() ==> ids.contains((#[trigger] pending[i]).1.node_id.0),
    ensures
        forall|i: int|
            0 <= i < clear_all(pending, msgs, ids).len() ==> ids.contains(
                (#[trigger] clear_all(pending, msgs, ids)[i]).1.node_id.0,
            ),
    decreases msgs.len(),
{
    if msgs.len() > 0 {
        lemma_clear_all_within(pending, msgs.drop_last(), ids);
        let before = clear_all(pending, msgs.drop_last(), ids);
        let keeps = EventFilter::Clear(msgs.last()).keeps::<E>(ids);
        assert forall|i: int| 0 <= i < before.filter(keeps).len() implies ids.contains(
            (#[trigger] before.filter(keeps)[i]).1.node_id.0,
        ) by {
            before.lemma_filter_contains_rev(keeps, before.filter(keeps)[i]);
            let j = before.index_of(before.filter(keeps)[i]);
            assert(ids.contains(before[j].1.node_id.0));
        }
    }
}

/// Whether a message can be handled: a schedule has to fit.
pub open spec fn msg_ok<P, E, T>(
    view: ProcessorView<P, E>,
    msg: ContextToProcessorMsg<P, E, T>,
) -> bool {
    match msg {
        ContextToProcessorMsg::NewSchedule(update) => update_fits(view, update),
        _ => true,
    }
}

/// Whether `samples` is where a transport puts a time: what `convert` gives, or never if
/// it gives none.
pub open spec fn put_at<Q, F: Fn(&Q, EventInstant) -> Option<InstantSamples>>(
    convert: F,
    transport: &Q,
    time: EventInstant,
    samples: i64,
) -> bool {
    exists|found: Option<InstantSamples>| #[trigger]
        call_ensures(convert, (transport, time), found) && samples == match found {
            Some(at) => at.0,
            None => NEVER,
        }
}

/// Whether `times` are the times in samples of the first events that are for a node that
/// exists. An immediate event has no time.
pub open spec fn times_at<E, Q, F: Fn(&Q, EventInstant) -> Option<InstantSamples>>(
    convert: F,
    transport: Q,
    events: Seq<NodeEvent<E>>,
    nodes: Set<u64>,
    times: Seq<i64>,
) -> bool {
    &&& times.len() <= events.len()
    &&& forall|i: int|
        0 <= i < times.len() && nodes.contains((#[trigger] events[i]).node_id.0) ==> match events[i].time {
            Some(EventInstant::Samples(samples)) => times[i] == samples.0,
            Some(instant) => put_at(convert, &transport, instant, times[i]),
            None => times[i] == 0,
        }
}

/// Whether pending events stayed, and those at a musical time were moved to where the
/// transport puts them.
pub open spec fn moved_with<E, Q, F: Fn(&Q, EventInstant) -> Option<InstantSamples>>(
    convert: F,
    transport: Q,
    before: Seq<(i64, NodeEvent<E>)>,
    after: Seq<(i64, NodeEvent<E>)>,
) -> bool {
    &&& after.len() == before.len()
    &&& forall|i: int|
        0 <= i < before.len() ==> (#[trigger] after[i]).1 == before[i].1
            && match before[i].1.time {
            Some(EventInstant::Musical(m)) => put_at(
                convert,
                &transport,
                EventInstant::Musical(m),
                after[i].0,
            ),
            _ => after[i].0 == before[i].0,
        }
}

/// What handling a message does to the audio thread and its transport: a group of events
/// is pushed and its list returned empty, a schedule comes into use and the one before is
/// returned, a transport state comes into use, the events at musical times are moved and
/// the state before is returned, events are cleared and the list of requests is returned.
pub open spec fn msg_handled<
    P,
    E,
    T,
    Q,
    G: Fn(Q, T, InstantSamples) -> (Q, T),
    F: Fn(&Q, EventInstant) -> Option<InstantSamples>,
>(
    set: G,
    convert: F,
    before: (ProcessorView<P, E>, Q),
    msg: ContextToProcessorMsg<P, E, T>,
    after: (ProcessorView<P, E>, Q),
    result: Result<Option<ProcessorToContextMsg<P, E, T>>, EventBufferFull>,
) -> bool {
    let ids = before.0.processors.dom();
    &&& msg is SetTransportState || after.1 == before.1
    &&& match msg {
        ContextToProcessorMsg::EventGroup(events) => exists|times: Seq<i64>| #[trigger]
            times_at(convert, before.1, events@, ids, times) && match result {
                Ok(reply) => {
                    &&& times.len() == events@.len()
                    &&& push_all(before.0.events, events@, ids, times) == Some(after.0.events)
                    &&& after.0 == (ProcessorView { events: after.0.events, ..before.0 })
                    &&& reply matches Some(ProcessorToContextMsg::ReturnEventGroup(list))
                        && list@.len() == 0
                },
                Err(_) => {
                    &&& push_all(before.0.events, events@, ids, times) is None
                    &&& after.0.poisoned
                },
            },
        ContextToProcessorMsg::NewSchedule(update) => {
            &&& after.0 == updated(before.0, update, after.0.schedule)
            &&& after.0.schedule is Some
            &&& in_use(before.0.schedule, update, after.0.schedule->0)
            &&& match before.0.schedule {
                Some(old) => result matches Ok(Some(ProcessorToContextMsg::ReturnSchedule(reply)))
                    && returned(old, before.0.processors, update, reply),
                None => result matches Ok(None),
            }
        },
        ContextToProcessorMsg::HardClipOutputs(hard_clip) => {
            &&& after.0 == (ProcessorView { hard_clip, ..before.0 })
            &&& result matches Ok(None)
        },
        ContextToProcessorMsg::SetTransportState(state) => {
            &&& result matches Ok(Some(ProcessorToContextMsg::ReturnTransportState(reply)))
                && call_ensures(
                set,
                (before.1, state, InstantSamples(before.0.clock as i64)),
                (after.1, reply),
            )
            &&& after.0 == (ProcessorView {
                events: SchedulerView { pending: after.0.events.pending, ..before.0.events },
                ..before.0
            })
            &&& moved_with(convert, after.1, before.0.events.pending, after.0.events.pending)
        },
        ContextToProcessorMsg::ClearScheduledEvents(msgs) => {
            &&& after.0 == (ProcessorView {
                events: SchedulerView {
                    pending: clear_all(before.0.events.pending, msgs@, ids),
                    ..before.0.events
                },
                ..before.0
            })
            &&& result == Ok::<_, EventBufferFull>(
                Some(ProcessorToContextMsg::<P, E, T>::ReturnClearScheduledEvents(msgs)),
            )
        },
    }
}

impl<P, E> FirewheelProcessorInner<P, E> {
    /// Handles a message from the main thread. Returns what is to be sent back, and the
    /// transport. `set` has the transport use a new state at a time, and gives the state
    /// before; `convert` gives the time in samples of an event at another time, if there is
    /// one.
    pub fn handle_message<
        T,
        Q,
        G: Fn(Q, T, InstantSamples) -> (Q, T),
        F: Fn(&Q, EventInstant) -> Option<InstantSamples>,
    >(
        &mut self,
        msg: ContextToProcessorMsg<P, E, T>,
        transport: Q,
        set: &G,
        convert: &F,
    ) -> (handled: (Result<Option<ProcessorToContextMsg<P, E, T>>, EventBufferFull>, Q))
        requires
            old(self).wf(),
            msg_ok(old(self)@, msg),
            forall|q: Q, state: T, at: InstantSamples| #[trigger] call_requires(*set, (q, state, at)),
            forall|q: &Q, i: EventInstant| #[trigger] call_requires(*convert, (q, i)),
        ensures
            handled.0 is Ok ==> final(self).wf(),
            msg_handled(
                *set,
                *convert,
                (old(self)@, transport),
                msg,
                (final(self)@, handled.1),
                handled.0,
            ),
    {
        let ghost nodes0 = self.nodes@;
        let ghost view0 = self@;
        proof {
            assert(view0.processors.dom() =~= nodes0.dom());
        }
        match msg {
            ContextToProcessorMsg::EventGroup(event_group) => {
                let mut event_group = event_group;
                let ghost events = event_group@;
                let to_samples = |t: EventInstant| -> (s: InstantSamples)
                    ensures
                        put_at(*convert, &transport, t, s.0),
                    {
                        match convert(&transport, t) {
                            Some(s) => s,
                            None => InstantSamples(NEVER),
                        }
                    };
                let result = self.event_scheduler.push_event_group(
                    &mut event_group,
                    &mut self.nodes,
                    &to_samples,
                );
                proof {
                    lemma_same_processors(nodes0, self.nodes@);
                    assert(self.nodes@.dom() =~= nodes0.dom());
                    assert forall|times: Seq<i64>| #[trigger]
                        times_ok(to_samples, events, nodes0.dom(), times) implies times_at(
                        *convert,
                        transport,
                        events,
                        nodes0.dom(),
                        times,
                    ) by {}
                }
                match result {
                    Ok(_) => {
                        proof {
                            let times = choose|times: Seq<i64>| #[trigger]
                                times_ok(to_samples, events, nodes0.dom(), times) && times.len()
                                    == events.len() && push_all(
                                    view0.events,
                                    events,
                                    nodes0.dom(),
                                    times,
                                ) == Some(self.event_scheduler@);
                            lemma_push_all_within(
                                view0.events,
                                events,
                                nodes0.dom(),
                                times,
                            );
                        }
                        (Ok(Some(ProcessorToContextMsg::ReturnEventGroup(event_group))), transport)
                    },
                    Err(error) => {
                        self.poisoned = true;
                        (Err(error), transport)
                    },
                }
            },
            ContextToProcessorMsg::NewSchedule(new_schedule_data) => {
                match self.new_schedule(new_schedule_data) {
                    Some(reply) => (Ok(Some(ProcessorToContextMsg::ReturnSchedule(reply))), transport),
                    None => (Ok(None), transport),
                }
            },
            ContextToProcessorMsg::HardClipOutputs(hard_clip_outputs) => {
                self.hard_clip_outputs = hard_clip_outputs;
                (Ok(None), transport)
            },
            ContextToProcessorMsg::SetTransportState(state) => {
                let (transport, reply) = set(transport, state, self.clock_samples);
                let to_samples = |m: InstantMusical| -> (s: InstantSamples)
                    ensures
                        put_at(*convert, &transport, EventInstant::Musical(m), s.0),
                    {
                        match convert(&transport, EventInstant::Musical(m)) {
                            Some(s) => s,
                            None => InstantSamples(NEVER),
                        }
                    };
                self.set_transport_state(Some(&to_samples));
                proof {
                    let pending = self@.events.pending;
                    assert forall|i: int| 0 <= i < pending.len() implies (#[trigger] pending[i]).1
                        == view0.events.pending[i].1 && match view0.events.pending[i].1.time {
                        Some(EventInstant::Musical(m)) => put_at(
                            *convert,
                            &transport,
                            EventInstant::Musical(m),
                            pending[i].0,
                        ),
                        _ => pending[i].0 == view0.events.pending[i].0,
                    } by {
                        assert(synced(Some(&to_samples), view0.events.pending[i], pending[i]));
                    }
                }
                (Ok(Some(ProcessorToContextMsg::ReturnTransportState(reply))), transport)
            },
            ContextToProcessorMsg::ClearScheduledEvents(msgs) => {
                self.event_scheduler.handle_clear_scheduled_events_event(
                    msgs.as_slice(),
                    &mut self.nodes,
                );
                proof {
                    lemma_same_processors(nodes0, self.nodes@);
                    lemma_clear_all_within(view0.events.pending, msgs@, nodes0.dom());
                }
                (Ok(Some(ProcessorToContextMsg::ReturnClearScheduledEvents(msgs))), transport)
            },
        }
    }
}

/// What a node has to process in a block.
pub struct NodeBlock<E> {
    /// The node.
    pub id: NodeID,
    /// The sub-chunks of the block.
    pub chunks: Vec<SubChunk<E>>,
}

/// The sub-chunks of a block for a node: one for each scheduled event of the node
/// that has elapsed, in the order of their times, and at the start the immediate
/// events of the node.
pub open spec fn node_plan<E>(
    elapsed: Seq<(i64, NodeEvent<E>)>,
    immediate: Seq<Option<NodeEvent<E>>>,
    k: u64,
    clock: int,
    frames: int,
) -> Seq<ChunkPlan<E>> {
    chunk_plan(
        elapsed.filter(for_node(k)),
        events_for(immediate, k, immediate.len() as int),
        clock,
        0,
        frames,
    )
}

/// Whether sub-chunks are as planned, with the events for which there is room.
pub open spec fn chunks_follow<E>(
    chunks: Seq<SubChunk<E>>,
    plan: Seq<ChunkPlan<E>>,
    mode: BufferOutOfSpaceMode,
    limit: int,
) -> bool {
    &&& chunks.len() == plan.len()
    &&& forall|i: int|
        0 <= i < plan.len() ==> follows_plan(#[trigger] chunks[i], plan[i], mode, limit)
}

/// Whether some sub-chunk has more events than there is room for.
pub open spec fn plan_overflows<E>(plan: Seq<ChunkPlan<E>>, limit: int) -> bool {
    exists|i: int| 0 <= i < plan.len() && (#[trigger] plan[i]).events.len() > limit
}

/// Whether what a node has to process is as planned.
pub open spec fn node_block_ok<E>(
    block: NodeBlock<E>,
    k: u64,
    plan: Seq<ChunkPlan<E>>,
    mode: BufferOutOfSpaceMode,
    limit: int,
) -> bool {
    &&& block.id.0 == k
    &&& chunks_follow(block.chunks@, plan, mode, limit)
    &&& mode == BufferOutOfSpaceMode::Panic ==> !plan_overflows(plan, limit)
}

/// What processing a block does: the scheduled events up to its end elapse, each
/// node of the schedule gets its sub-chunks, and no immediate event is left.
pub open spec fn block_processed<P, E>(
    before: ProcessorView<P, E>,
    frames: int,
    clock: int,
    elapsed: Seq<(i64, NodeEvent<E>)>,
    after: ProcessorView<P, E>,
    result: Result<Vec<NodeBlock<E>>, EventBufferFull>,
) -> bool {
    let order = before.schedule->0.schedule.order();
    let mode = before.events.mode;
    let limit = before.node_event_capacity;
    match result {
        Ok(blocks) => {
            &&& after == (ProcessorView {
                events: SchedulerView {
                    immediate: Seq::empty(),
                    pending: after.events.pending,
                    ..before.events
                },
                ..before
            })
            &&& blocks@.len() == order.len()
            &&& forall|i: int|
                0 <= i < order.len() ==> node_block_ok(
                    #[trigger] blocks@[i],
                    order[i],
                    node_plan(elapsed, before.events.immediate, order[i], clock, frames),
                    mode,
                    limit,
                )
        },
        Err(_) => {
            &&& after.poisoned
            &&& mode == BufferOutOfSpaceMode::Panic
            &&& exists|i: int|
                0 <= i < order.len() && plan_overflows(
                    node_plan(elapsed, before.events.immediate, #[trigger] order[i], clock, frames),
                    limit,
                )
        },
    }
}

/// The events for a node are not changed where those of another are taken.
proof fn lemma_events_for_others<E>(
    buffer: Seq<Option<NodeEvent<E>>>,
    k: u64,
    other: u64,
    n: int,
)
    requires
        k != other,
        0 <= n <= buffer.len(),
    ensures
        events_for(without_events_for(buffer, k, buffer.len() as int), other, n) == events_for(
            buffer,
            other,
            n,
        ),
    decreases n,
{
    if n > 0 {
        lemma_events_for_others(buffer, k, other, n - 1);
        let rest = without_events_for(buffer, k, buffer.len() as int);
        assert(is_for(rest, n - 1, other) == is_for(buffer, n - 1, other));
    }
}

impl<P, E> FirewheelProcessorInner<P, E> {
    /// Hands out what each node of the schedule has to process in a block, in
    /// order.
    #[verifier::spinoff_prover]
    #[verifier::rlimit(40)]
    pub fn process_block(&mut self, block_frames: usize, clock_samples: InstantSamples) -> (result:
        Result<Vec<NodeBlock<E>>, EventBufferFull>)
        requires
            old(self).wf(),
            0 < block_frames <= 0x7FFF_FFFF_FFFF_FFFF,
            clock_samples.0 + block_frames <= 0x7FFF_FFFF_FFFF_FFFF,
        ensures
            result is Ok ==> final(self).wf(),
            old(self)@.schedule is None ==> final(self)@ == old(self)@ && (result matches Ok(
                blocks,
            ) && blocks@.len() == 0),
            old(self)@.schedule is Some ==> exists|
                elapsed: Seq<(i64, NodeEvent<E>)>,
                rest: Seq<(i64, NodeEvent<E>)>,
            | #[trigger]
                splits_at(
                    old(self)@.events.pending,
                    elapsed,
                    rest,
                    (clock_samples.0 + block_frames) as i64,
                ) && (result is Ok ==> rest == final(self)@.events.pending) && block_processed(
                    old(self)@,
                    block_frames as int,
                    clock_samples.0 as int,
                    elapsed,
                    final(self)@,
                    result,
                ),
    {
        let ghost view0 = self@;
        let ghost nodes0 = self.nodes@;
        let schedule_data = match self.schedule_data.take() {
            Some(schedule_data) => schedule_data,
            None => {
                return Ok(Vec::new());
            },
        };
        let end = InstantSamples(clock_samples.0 + block_frames as i64);

        // -- Find scheduled events that have elapsed this block
        self.event_scheduler.prepare_process_block(end, &mut self.nodes);
        let ghost pending = self.event_scheduler@.pending;
        let ghost elapsed = choose|elapsed: Seq<(i64, NodeEvent<E>)>| #[trigger]
            splits_at(view0.events.pending, elapsed, pending, end.0) && forall|k: u64| #[trigger]
                self.nodes@.contains_key(k) ==> self.event_scheduler.node_ok(
                    k,
                    self.nodes@[k].event_data,
                ) && self.event_scheduler.due(k, self.nodes@[k].event_data) == elapsed.filter(
                    for_node(k),
                );
        let ghost immediate = view0.events.immediate;
        let limit: usize = self.node_event_buffer_capacity;
        let ghost order = schedule_data.schedule.order();
        let len: usize = schedule_data.schedule.schedule.len();
        let mut blocks: Vec<NodeBlock<E>> = Vec::with_capacity(len);
        let ghost self1 = *self;
        proof {
            assert(self.nodes@.dom() =~= nodes0.dom());
            lemma_same_processors(nodes0, self.nodes@);
            assert(order.len() == len);
            assert forall|i: int| 0 <= i < len implies self.nodes@.contains_key(
                #[trigger] order[i],
            ) by {
                assert(order.to_set().contains(order[i]));
            }
        }
        for n in 0..len
            invariant
                len == order.len(),
                order == schedule_data.schedule.order(),
                order.no_duplicates(),
                view0 == old(self)@,
                view0.schedule is Some,
                order == view0.schedule->0.schedule.order(),
                splits_at(view0.events.pending, elapsed, pending, end.0),
                limit == view0.node_event_capacity,
                end.0 == clock_samples.0 + block_frames,
                0 < block_frames <= 0x7FFF_FFFF_FFFF_FFFF,
                immediate == view0.events.immediate,
                forall|i: int| 0 <= i < elapsed.len() ==> (#[trigger] elapsed[i]).0 < end.0,
                self.nodes.wf(),
                self.event_scheduler.wf(),
                !self.event_scheduler.needs_sorting(),
                self.nodes@.dom() == nodes0.dom(),
                processors_of(self.nodes@) == processors_of(nodes0),
                *self == (FirewheelProcessorInner {
                    nodes: self.nodes,
                    event_scheduler: self.event_scheduler,
                    ..self1
                }),
                self.event_scheduler@ == (SchedulerView {
                    immediate: self.event_scheduler@.immediate,
                    pending,
                    ..view0.events
                }),
                self.event_scheduler@.immediate.len() == immediate.len(),
                forall|i: int| 0 <= i < len ==> self.nodes@.contains_key(#[trigger] order[i]),
                forall|i: int|
                    0 <= i < len ==> self.event_scheduler.node_ok(
                        #[trigger] order[i],
                        self.nodes@[order[i]].event_data,
                    ),
                forall|i: int|
                    n <= i < len ==> self.event_scheduler.due(
                        #[trigger] order[i],
                        self.nodes@[order[i]].event_data,
                    ) == elapsed.filter(for_node(order[i])) && events_for(
                        self.event_scheduler@.immediate,
                        order[i],
                        immediate.len() as int,
                    ) == events_for(immediate, order[i], immediate.len() as int),
                forall|i: int|
                    0 <= i < n ==> {
                        let d = self.nodes@[#[trigger] order[i]].event_data;
                        &&& d.num_immediate_events == 0
                        &&& d.immediate_event_clump_indices@.len() == 0
                        &&& d.num_scheduled_events_this_block == 0
                    },
                blocks@.len() == n,
                forall|i: int|
                    0 <= i < n ==> node_block_ok(
                        #[trigger] blocks@[i],
                        order[i],
                        node_plan(
                            elapsed,
                            immediate,
                            order[i],
                            clock_samples.0 as int,
                            block_frames as int,
                        ),
                        view0.events.mode,
                        limit as int,
                    ),
        {
            let node_id = schedule_data.schedule.schedule[n].id;
            let ghost k = node_id.0;
            let ghost before = *self;
            let ghost plan = node_plan(
                elapsed,
                immediate,
                k,
                clock_samples.0 as int,
                block_frames as int,
            );
            proof {
                assert(order[n as int] == k);
                let due = elapsed.filter(for_node(k));
                assert forall|i: int| 0 <= i < due.len() implies (#[trigger] due[i]).0 < end.0 by {
                    elapsed.lemma_filter_contains_rev(for_node(k), due[i]);
                    let j = elapsed.index_of(due[i]);
                    assert(elapsed[j].0 < end.0);
                }
            }
            if let Some(node) = self.nodes.get_mut(node_id.0) {
                let result = self.event_scheduler.process_node(
                    node_id,
                    &mut node.event_data,
                    block_frames,
                    clock_samples,
                    limit,
                );
                match result {
                    Ok(chunks) => {
                        assert(chunks_follow(chunks@, plan, view0.events.mode, limit as int));
                        assert(view0.events.mode == BufferOutOfSpaceMode::Panic ==> !plan_overflows(
                            plan,
                            limit as int,
                        ));
                        let block = NodeBlock { id: node_id, chunks };
                        assert(node_block_ok(
                            block,
                            order[n as int],
                            plan,
                            view0.events.mode,
                            limit as int,
                        ));
                        blocks.push(block);
                    },
                    Err(error) => {
                        proof {
                            assert(plan_overflows(plan, limit as int));
                            assert(plan_overflows(
                                node_plan(
                                    elapsed,
                                    immediate,
                                    order[n as int],
                                    clock_samples.0 as int,
                                    block_frames as int,
                                ),
                                limit as int,
                            ));
                        }
                        self.poisoned = true;
                        assert(splits_at(
                            view0.events.pending,
                            elapsed,
                            pending,
                            (clock_samples.0 + block_frames) as i64,
                        ));
                        assert(block_processed(
                            view0,
                            block_frames as int,
                            clock_samples.0 as int,
                            elapsed,
                            self@,
                            Err(error),
                        ));
                        return Err(error);
                    },
                }
            }
            proof {
                assert(processors_of(self.nodes@) =~= processors_of(before.nodes@));
                assert forall|i: int| 0 <= i < len && i != n implies #[trigger] order[i] != k by {}
                assert forall|i: int| n < i < len implies events_for(
                    self.event_scheduler@.immediate,
                    #[trigger] order[i],
                    immediate.len() as int,
                ) == events_for(immediate, order[i], immediate.len() as int) by {
                    lemma_events_for_others(
                        before.event_scheduler@.immediate,
                        k,
                        order[i],
                        immediate.len() as int,
                    );
                }
            }
        }
        let ghost before = *self;

        // -- Clean up event buffers
        self.event_scheduler.cleanup_process_block();
        proof {
            assert forall|i: int| 0 <= i < len implies self.event_scheduler.node_ok(
                #[trigger] order[i],
                self.nodes@[order[i]].event_data,
            ) by {
                assert(before.event_scheduler.node_ok(order[i], self.nodes@[order[i]].event_data));
            }
        }
        self.drop_unscheduled_events(&schedule_data.schedule);
        self.schedule_data = Some(schedule_data);
        proof {
            assert forall|i: int| 0 <= i < pending.len() implies nodes0.dom().contains(
                (#[trigger] pending[i]).1.node_id.0,
            ) by {
                let all = elapsed + pending;
                assert(all[elapsed.len() + i] == pending[i]);
                vstd::seq_lib::to_multiset_contains(all, pending[i]);
                vstd::seq_lib::to_multiset_contains(view0.events.pending, pending[i]);
                let j = view0.events.pending.index_of(pending[i]);
                assert(view0.events.pending[j] == pending[i]);
            }
            assert(self@.processors =~= view0.processors);
            assert(self@.events =~= (SchedulerView {
                immediate: Seq::empty(),
                pending,
                ..view0.events
            }));
            assert(splits_at(
                view0.events.pending,
                elapsed,
                pending,
                (clock_samples.0 + block_frames) as i64,
            ));
            assert(block_processed(
                view0,
                block_frames as int,
                clock_samples.0 as int,
                elapsed,
                self@,
                Ok(blocks),
            ));
        }
        Ok(blocks)
    }
}

/// The part of a call of the audio backend that is left to process, in blocks.
pub struct BlockLoop {
    /// The number of frames of the call.
    pub frames: usize,
    /// The number of frames that were processed.
    pub frames_processed: usize,
    /// The largest number of frames in a block.
    pub max_block_frames: usize,
    /// The time of the next frame.
    pub clock_samples: InstantSamples,
    /// The flags of the status of the output stream, for the next block.
    pub stream_status: u32,
    /// The number of dropped frames, for the next block.
    pub dropped_frames: u32,
}

impl BlockLoop {
    /// Well-formedness: time does not run out.
    pub open spec fn wf(&self) -> bool {
        &&& self.frames_processed <= self.frames <= 0x7FFF_FFFF_FFFF_FFFF
        &&& self.max_block_frames > 0
        &&& self.clock_samples.0 + (self.frames - self.frames_processed) <= 0x7FFF_FFFF_FFFF_FFFF
    }

    /// The number of frames of the next block, or `None` if all were processed.
    pub fn next_block(&self) -> (frames: Option<usize>)
        requires
            self.wf(),
        ensures
            match frames {
                Some(n) => {
                    &&& 0 < n <= self.max_block_frames
                    &&& n <= self.frames - self.frames_processed
                    &&& n == self.max_block_frames || n == self.frames - self.frames_processed
                },
                None => self.frames_processed == self.frames,
            },
    {
        if self.frames_processed >= self.frames {
            return None;
        }
        let left: usize = self.frames - self.frames_processed;
        if left < self.max_block_frames {
            Some(left)
        } else {
            Some(self.max_block_frames)
        }
    }

    /// Advances to the next block. Only the first one has the status of the
    /// stream and its dropped frames.
    pub fn advance(&mut self, block_frames: usize)
        requires
            old(self).wf(),
            block_frames <= old(self).frames - old(self).frames_processed,
        ensures
            final(self).wf(),
            *final(self) == (BlockLoop {
                frames_processed: (old(self).frames_processed + block_frames) as usize,
                clock_samples: InstantSamples((old(self).clock_samples.0 + block_frames) as i64),
                stream_status: 0,
                dropped_frames: 0,
                ..*old(self)
            }),
    {
        self.frames_processed = self.frames_processed + block_frames;
        self.clock_samples = InstantSamples(self.clock_samples.0 + block_frames as i64);
        self.stream_status = 0;
        self.dropped_frames = 0;
    }
}

impl<P, E> FirewheelProcessorInner<P, E> {
    /// Starts to process `frames` frames: increments the clock for the next
    /// process cycle. Returns the blocks to process, or `None` if the output is
    /// to be filled with silence.
    pub fn begin_process(
        &mut self,
        frames: usize,
        stream_status: u32,
        dropped_frames: u32,
    ) -> (blocks: Option<BlockLoop>)
        requires
            old(self).wf(),
            frames <= 0x7FFF_FFFF_FFFF_FFFF,
            old(self)@.clock + frames <= 0x7FFF_FFFF_FFFF_FFFF,
        ensures
            final(self).wf(),
            final(self)@ == (ProcessorView { clock: old(self)@.clock + frames, ..old(self)@ }),
            match blocks {
                Some(blocks) => {
                    &&& old(self)@.schedule is Some && frames > 0
                    &&& blocks.wf()
                    &&& blocks.frames == frames
                    &&& blocks.frames_processed == 0
                    &&& blocks.max_block_frames == old(self)@.max_block_frames
                    &&& blocks.clock_samples.0 == old(self)@.clock
                    &&& blocks.stream_status == stream_status
                    &&& blocks.dropped_frames == dropped_frames
                },
                None => old(self)@.schedule is None || frames == 0,
            },
    {
        let clock_samples = self.clock_samples;
        self.clock_samples = InstantSamples(self.clock_samples.0 + frames as i64);
        if self.schedule_data.is_none() || frames == 0 {
            return None;
        }
        Some(
            BlockLoop {
                frames,
                frames_processed: 0,
                max_block_frames: self.max_block_frames,
                clock_samples,
                stream_status,
                dropped_frames,
            },
        )
    }

    /// The transport has changed: moves the events at musical times to where it
    /// puts them, or to never if there is none.
    pub fn set_transport_state<F: Fn(InstantMusical) -> InstantSamples>(
        &mut self,
        transport: Option<&F>,
    )
        requires
            old(self).wf(),
            transport matches Some(f) ==> forall|m: InstantMusical| #[trigger]
                call_requires(*f, (m,)),
        ensures
            final(self).wf(),
            final(self)@ == (ProcessorView {
                events: SchedulerView {
                    pending: final(self)@.events.pending,
                    ..old(self)@.events
                },
                ..old(self)@
            }),
            final(self)@.events.pending.len() == old(self)@.events.pending.len(),
            forall|i: int|
                0 <= i < old(self)@.events.pending.len() ==> synced(
                    transport,
                    old(self)@.events.pending[i],
                    #[trigger] final(self)@.events.pending[i],
                ),
    {
        let ghost view0 = self@;
        self.event_scheduler.sync_scheduled_events_to_transport(transport);
        proof {
            assert forall|i: int|
                0 <= i < self.event_scheduler@.pending.len() implies self.nodes@.dom().contains(
                (#[trigger] self.event_scheduler@.pending[i]).1.node_id.0,
            ) by {
                assert(synced(
                    transport,
                    view0.events.pending[i],
                    self.event_scheduler@.pending[i],
                ));
                assert(self.nodes@.dom().contains(view0.events.pending[i].1.node_id.0));
            }
        }
    }

    /// Called when a new audio stream has been started to replace the old one.
    /// If the sample rate has changed, the times are converted with `convert`,
    /// which must not change their order. Returns whether the sample rate and
    /// whether the largest number of frames in a block have changed.
    ///
    /// Note, this method gets called on the main thread, not the audio thread.
    pub fn new_stream<F: Fn(InstantSamples) -> InstantSamples>(
        &mut self,
        sample_rate: u32,
        max_block_frames: u32,
        convert: &F,
    ) -> (changed: (bool, bool))
        requires
            old(self).wf(),
            max_block_frames > 0,
            forall|t: InstantSamples| #[trigger] call_requires(*convert, (t,)),
            forall|a: InstantSamples, b: InstantSamples, ra: InstantSamples, rb: InstantSamples|
                a.0 <= b.0 && #[trigger] call_ensures(*convert, (a,), ra)
                    && #[trigger] call_ensures(*convert, (b,), rb) ==> ra.0 <= rb.0,
        ensures
            final(self).wf(),
            changed.0 == (sample_rate != old(self)@.sample_rate),
            changed.1 == (max_block_frames != old(self)@.max_block_frames),
            final(self)@ == (ProcessorView {
                clock: final(self)@.clock,
                sample_rate: sample_rate as int,
                max_block_frames: max_block_frames as int,
                events: SchedulerView {
                    pending: final(self)@.events.pending,
                    ..old(self)@.events
                },
                ..old(self)@
            }),
            final(self)@.events.pending.len() == old(self)@.events.pending.len(),
            if changed.0 {
                &&& call_ensures(
                    *convert,
                    (InstantSamples(old(self)@.clock as i64),),
                    InstantSamples(final(self)@.clock as i64),
                )
                &&& forall|i: int|
                    0 <= i < old(self)@.events.pending.len() ==> (
                    #[trigger] final(self)@.events.pending[i]).1 == old(self)@.events.pending[i].1
                        && retimed(
                        *convert,
                        old(self)@.events.pending[i].0,
                        final(self)@.events.pending[i].0,
                    )
            } else {
                &&& final(self)@.clock == old(self)@.clock
                &&& final(self)@.events.pending == old(self)@.events.pending
            },
    {
        let ghost view0 = self@;
        let rate_changed = self.sample_rate != sample_rate;
        if rate_changed {
            assert(self.clock_samples == InstantSamples(view0.clock as i64));
            self.clock_samples = convert(self.clock_samples);
            assert(self.clock_samples == InstantSamples(self@.clock as i64));
            self.event_scheduler.sample_rate_changed(convert);
            self.sample_rate = sample_rate;
            proof {
                assert forall|i: int|
                    0 <= i < self.event_scheduler@.pending.len() implies self.nodes@.dom().contains(
                    (#[trigger] self.event_scheduler@.pending[i]).1.node_id.0,
                ) by {
                    assert(self.event_scheduler@.pending[i].1 == view0.events.pending[i].1);
                    assert(self.nodes@.dom().contains(view0.events.pending[i].1.node_id.0));
                }
            }
        }
        let frames_changed = self.max_block_frames != max_block_frames as usize;
        if frames_changed {
            self.max_block_frames = max_block_frames as usize;
        }
        (rate_changed, frames_changed)
    }

    /// The processor of a node.
    pub fn processor_mut(&mut self, id: NodeID) -> (processor: Option<&mut P>)
        requires
            old(self).wf(),
        ensures
            match processor {
                Some(p) => {
                    &&& old(self)@.processors.contains_key(id.0)
                    &&& *p == old(self)@.processors[id.0]
                    &&& final(self)@ == (ProcessorView {
                        processors: old(self)@.processors.insert(id.0, *final(p)),
                        ..old(self)@
                    })
                },
                None => !old(self)@.processors.contains_key(id.0) && final(self)@ == old(self)@,
            },
            final(self).wf(),
    {
        broadcast use {lemma_processors_insert, lemma_insert_dom};

        match self.nodes.get_mut(id.0) {
            Some(node) => Some(&mut node.processor),
            None => None,
        }
    }

    /// The nodes, in the order of their slots.
    pub fn node_ids(&self) -> (ids: Vec<u64>)
        requires
            self.wf(),
        ensures
            ids@ == slot_order(self@.processors.dom()),
            ids@.to_set() == self@.processors.dom(),
            ids@.no_duplicates(),
    {
        assert(self@.processors.dom() =~= self.nodes@.dom());
        self.nodes.ids()
    }

    /// Whether the new nodes of a schedule are distinct, and there is neither a
    /// processor nor an event for one of them yet.
    fn new_nodes_fit(&self, update: &ProcSchedule<P>) -> (fits: bool)
        requires
            self.wf(),
        ensures
            fits == new_nodes_ok(self@, ids_of(update.new_node_processors@)),
    {
        let added = &update.new_node_processors;
        let ghost ids = ids_of(added@);
        let len: usize = added.len();
        for i in 0..len
            invariant
                self.wf(),
                *added == update.new_node_processors,
                ids == ids_of(added@),
                len == added@.len(),
                forall|a: int, b: int|
                    0 <= a < b < len && a < i ==> #[trigger] ids[a] != #[trigger] ids[b],
                forall|a: int| 0 <= a < i ==> !self@.processors.contains_key(#[trigger] ids[a]),
                forall|a: int, k: int|
                    0 <= a < i && 0 <= k < self@.events.immediate.len() ==> !#[trigger] is_for(
                        self@.events.immediate,
                        k,
                        #[trigger] ids[a],
                    ),
        {
            let id = added[i].id;
            assert(ids[i as int] == id.0);
            if self.nodes.contains(id.0) {
                assert(self@.processors.contains_key(ids[i as int]));
                return false;
            }
            assert(!self@.processors.contains_key(ids[i as int]));
            if self.event_scheduler.has_immediate_event(id) {
                assert(ids.contains(id.0));
                return false;
            }
            for j in i + 1..len
                invariant
                    self.wf(),
                    *added == update.new_node_processors,
                    ids == ids_of(added@),
                    len == added@.len(),
                    i < len,
                    id == added@[i as int].id,
                    forall|b: int| i < b < j ==> id.0 != #[trigger] ids[b],
            {
                assert(ids[j as int] == added@[j as int].id.0);
                if added[j].id == id {
                    assert(ids[i as int] == ids[j as int]);
                    assert(!ids.no_duplicates());
                    return false;
                }
            }
        }
        assert(ids.no_duplicates());
        assert forall|j: int, k: u64|
            0 <= j < self@.events.immediate.len() && #[trigger] is_for(
                self@.events.immediate,
                j,
                k,
            ) implies !ids.contains(k) by {
            if ids.contains(k) {
                let a = ids.index_of(k);
                assert(ids[a] == k);
                assert(!is_for(self@.events.immediate, j, ids[a]));
            }
        }
        true
    }

    /// Whether a schedule processes each of its nodes once.
    fn order_fits(schedule: &CompiledSchedule) -> (fits: bool)
        ensures
            fits == schedule.order().no_duplicates(),
    {
        let nodes = &schedule.schedule;
        let ghost order = schedule.order();
        let len: usize = nodes.len();
        for i in 0..len
            invariant
                *nodes == schedule.schedule,
                order == schedule.order(),
                len == nodes@.len(),
                forall|a: int, b: int|
                    0 <= a < b < len && a < i ==> #[trigger] order[a] != #[trigger] order[b],
        {
            let id: u64 = nodes[i].id.0;
            assert(order[i as int] == id);
            for j in i + 1..len
                invariant
                    *nodes == schedule.schedule,
                    order == schedule.order(),
                    len == nodes@.len(),
                    i < len,
                    id == order[i as int],
                    forall|b: int| i < b < j ==> id != #[trigger] order[b],
            {
                assert(order[j as int] == nodes@[j as int].id.0);
                if nodes[j].id.0 == id {
                    assert(order[i as int] == order[j as int]);
                    return false;
                }
            }
        }
        true
    }

    /// Whether a schedule removes a node.
    fn removes(update: &ProcSchedule<P>, id: u64) -> (removed: bool)
        ensures
            removed == update.nodes_to_remove@.contains(NodeID(id)),
    {
        let len: usize = update.nodes_to_remove.len();
        for i in 0..len
            invariant
                len == update.nodes_to_remove@.len(),
                forall|j: int| 0 <= j < i ==> #[trigger] update.nodes_to_remove@[j] != NodeID(id),
        {
            if update.nodes_to_remove[i].0 == id {
                assert(update.nodes_to_remove@[i as int] == NodeID(id));
                return true;
            }
        }
        false
    }

    /// Whether a schedule adds a node.
    fn adds(update: &ProcSchedule<P>, id: u64) -> (added: bool)
        ensures
            added == ids_of(update.new_node_processors@).contains(id),
    {
        let ghost ids = ids_of(update.new_node_processors@);
        let len: usize = update.new_node_processors.len();
        for i in 0..len
            invariant
                ids == ids_of(update.new_node_processors@),
                len == update.new_node_processors@.len(),
                forall|j: int| 0 <= j < i ==> #[trigger] ids[j] != id,
        {
            assert(ids[i as int] == update.new_node_processors@[i as int].id.0);
            if update.new_node_processors[i].id.0 == id {
                return true;
            }
        }
        false
    }

    /// Whether a node is left when a schedule comes into use.
    fn stays(&self, update: &ProcSchedule<P>, id: u64) -> (stays: bool)
        requires
            self.wf(),
        ensures
            stays == left_by(self@, *update).contains_key(id),
    {
        assert(self@.processors.contains_key(id) == self.nodes@.contains_key(id));
        self.nodes.contains(id) && (self.schedule_data.is_none() || !Self::removes(update, id))
    }

    /// Whether a schedule only processes nodes that are left or new.
    fn nodes_match(&self, update: &ProcSchedule<P>) -> (fits: bool)
        requires
            self.wf(),
        ensures
            fits == update.schedule.order().to_set().subset_of(
                left_by(self@, *update).dom().union(ids_of(update.new_node_processors@).to_set()),
            ),
    {
        let ghost order = update.schedule.order();
        let ghost left = left_by(self@, *update).dom();
        let ghost added = ids_of(update.new_node_processors@);
        let ghost all = left.union(added.to_set());
        let len: usize = update.schedule.schedule.len();
        for i in 0..len
            invariant
                self.wf(),
                order == update.schedule.order(),
                left == left_by(self@, *update).dom(),
                added == ids_of(update.new_node_processors@),
                all == left.union(added.to_set()),
                len == order.len(),
                forall|j: int| 0 <= j < i ==> all.contains(#[trigger] order[j]),
        {
            let id: u64 = update.schedule.schedule[i].id.0;
            assert(order[i as int] == id);
            if !self.stays(update, id) && !Self::adds(update, id) {
                assert(order.to_set().contains(id));
                assert(!all.contains(id));
                return false;
            }
        }
        assert forall|k: u64| order.to_set().contains(k) implies all.contains(k) by {
            let j = order.index_of(k);
            assert(order[j] == k);
        }
        true
    }

    /// Whether the nodes that are left and the new ones can be held in one table.
    fn nodes_share_table(&self, update: &ProcSchedule<P>) -> (fits: bool)
        requires
            self.wf(),
            new_nodes_ok(self@, ids_of(update.new_node_processors@)),
        ensures
            fits == are_table_ids(
                left_by(self@, *update).dom().union(ids_of(update.new_node_processors@).to_set()),
            ),
    {
        let ghost left = left_by(self@, *update).dom();
        let ghost added = ids_of(update.new_node_processors@);
        let ghost all = left.union(added.to_set());
        proof {
            self.nodes.lemma_ids();
            assert(self@.processors.dom() =~= self.nodes@.dom());
            assert(left.subset_of(self@.processors.dom()));
            vstd::set_lib::lemma_len_subset(left, self@.processors.dom());
            added.unique_seq_to_set();
            assert forall|k: u64| #[trigger] left.contains(k) implies !added.to_set().contains(
                k,
            ) by {
                if added.contains(k) {
                    let j = added.index_of(k);
                    assert(!self@.processors.contains_key(added[j]));
                }
            }
            assert(left.disjoint(added.to_set()));
            vstd::set_lib::lemma_set_disjoint_lens(left, added.to_set());
        }
        let ids = self.node_ids();
        let num: usize = ids.len();
        let mut left_ids: Vec<u64> = Vec::new();
        for i in 0..num
            invariant
                self.wf(),
                left == left_by(self@, *update).dom(),
                num == ids@.len(),
                ids@.no_duplicates(),
                left_ids@.len() <= i,
                left_ids@.no_duplicates(),
                forall|k: u64| #[trigger]
                    left_ids@.contains(k) <==> left.contains(k) && ids@.take(i as int).contains(k),
        {
            let id: u64 = ids[i];
            let ghost before = left_ids@;
            proof {
                assert(ids@.take(i + 1) =~= ids@.take(i as int).push(id));
                assert(!ids@.take(i as int).contains(id)) by {
                    if ids@.take(i as int).contains(id) {
                        let j = ids@.take(i as int).index_of(id);
                        assert(ids@[j] == id);
                    }
                }
                assert forall|k: u64| #[trigger] ids@.take(i + 1).contains(k) <==> ids@.take(
                    i as int,
                ).contains(k) || k == id by {
                    lemma_take_contains(ids@, i as int, k);
                }
            }
            if self.stays(update, id) {
                assert(!before.contains(id));
                left_ids.push(id);
                proof {
                    assert forall|k: u64| #[trigger] left_ids@.contains(k) <==> before.contains(k)
                        || k == id by {
                        assert(left_ids@.take(before.len() as int) =~= before);
                        lemma_take_contains(left_ids@, before.len() as int, k);
                        assert(left_ids@.take(before.len() as int + 1) =~= left_ids@);
                    }
                }
            }
        }
        proof {
            assert(ids@.take(num as int) =~= ids@);
            assert(left_ids@.to_set() =~= left) by {
                assert forall|k: u64| left_ids@.to_set().contains(k) == left.contains(k) by {
                    assert(ids@.to_set().contains(k) == self@.processors.dom().contains(k));
                    assert(left_ids@.contains(k) == left_ids@.to_set().contains(k));
                }
            }
            left_ids@.unique_seq_to_set();
        }
        let num_left: usize = left_ids.len();
        let num_added: usize = update.new_node_processors.len();
        if num_left as u64 > 0xFFFF_FFFF || num_added as u64 > 0xFFFF_FFFF - num_left as u64 {
            return false;
        }
        for i in 0..num_added
            invariant
                left == left_by(self@, *update).dom(),
                num_added == added.len(),
                num_left == left_ids@.len(),
                added == ids_of(update.new_node_processors@),
                added.no_duplicates(),
                left_ids@.to_set() == left,
                all == left.union(added.to_set()),
                left.disjoint(added.to_set()),
                forall|j: int| 0 <= j < i ==> is_id(#[trigger] added[j]),
                forall|j: int, l: int|
                    0 <= j < i && 0 <= l < num_left ==> slot_of(#[trigger] added[j]) != slot_of(
                        #[trigger] left_ids@[l],
                    ),
                forall|j: int, l: int|
                    0 <= j < l < num_added && j < i ==> slot_of(#[trigger] added[j]) != slot_of(
                        #[trigger] added[l],
                    ),
        {
            let id: u64 = update.new_node_processors[i].id.0;
            assert(added[i as int] == id);
            assert(added.to_set().contains(id));
            assert(all.contains(id));
            let slot: u64 = id % 0x1_0000_0000;
            if id < 0x1_0000_0000 || slot >= 0xFFFF_FFFF {
                assert(!is_id(id));
                return false;
            }
            for l in 0..num_left
                invariant
                    left == left_by(self@, *update).dom(),
                    added == ids_of(update.new_node_processors@),
                    num_left == left_ids@.len(),
                    left_ids@.to_set() == left,
                    all == left.union(added.to_set()),
                    left.disjoint(added.to_set()),
                    added.to_set().contains(id),
                    all.contains(id),
                    slot == slot_of(id),
                    forall|m: int| 0 <= m < l ==> slot != slot_of(#[trigger] left_ids@[m]),
            {
                if left_ids[l] % 0x1_0000_0000 == slot {
                    let ghost other = left_ids@[l as int];
                    assert(left_ids@.to_set().contains(other));
                    assert(all.contains(other) && other != id);
                    return false;
                }
            }
            for l in i + 1..num_added
                invariant
                    left == left_by(self@, *update).dom(),
                    i < num_added,
                    num_added == added.len(),
                    added == ids_of(update.new_node_processors@),
                    added.no_duplicates(),
                    all == left.union(added.to_set()),
                    id == added[i as int],
                    all.contains(id),
                    slot == slot_of(id),
                    forall|m: int| i < m < l ==> slot != slot_of(#[trigger] added[m]),
            {
                assert(added[l as int] == update.new_node_processors@[l as int].id.0);
                if update.new_node_processors[l].id.0 % 0x1_0000_0000 == slot {
                    assert(added.to_set().contains(added[l as int]));
                    assert(all.contains(added[l as int]));
                    assert(added[l as int] != added[i as int]);
                    return false;
                }
            }
        }
        proof {
            assert forall|k: u64| #[trigger] all.contains(k) implies is_id(k) by {
                if left.contains(k) {
                    assert(self.nodes@.contains_key(k));
                } else {
                    let j = added.index_of(k);
                    assert(added[j] == k);
                }
            }
            assert forall|k1: u64, k2: u64| #[trigger] all.contains(k1) && #[trigger] all.contains(
                k2,
            ) && k1 != k2 implies slot_of(k1) != slot_of(k2) by {
                lemma_slots_differ(left_ids@, added, k1, k2);
                if left.contains(k1) && left.contains(k2) {
                    assert(self.nodes@.contains_key(k1) && self.nodes@.contains_key(k2));
                }
            }
        }
        true
    }

    /// Whether a schedule can come into use.
    pub fn fits(&self, update: &ProcSchedule<P>) -> (fits: bool)
        requires
            self.wf(),
        ensures
            fits == update_fits(self@, *update),
    {
        if update.schedule.max_block_frames != self.max_block_frames {
            return false;
        }
        if let Some(arena) = &update.new_node_arena {
            if !arena.is_fresh() {
                return false;
            }
        }
        Self::order_fits(&update.schedule) && self.nodes_match(update) && self.new_nodes_fit(update)
            && self.nodes_share_table(update)
    }

    /// The schedule in use.
    pub fn schedule(&self) -> (schedule: Option<&CompiledSchedule>)
        ensures
            match self@.schedule {
                Some(data) => schedule == Some(&data.schedule),
                None => schedule is None,
            },
    {
        match &self.schedule_data {
            Some(data) => Some(&data.schedule),
            None => None,
        }
    }

    /// The time of the next frame.
    pub fn clock_samples(&self) -> (clock: InstantSamples)
        ensures
            clock.0 == self@.clock,
    {
        self.clock_samples
    }

    /// Whether outputs are clipped.
    pub fn hard_clip_outputs(&self) -> (hard_clip: bool)
        ensures
            hard_clip == self@.hard_clip,
    {
        self.hard_clip_outputs
    }

    /// Whether buffers are cleared before each use.
    pub fn debug_force_clear_buffers(&self) -> (force: bool)
        ensures
            force == self@.force_clear,
    {
        self.debug_force_clear_buffers
    }

    /// Whether processing has failed.
    pub fn poisoned(&self) -> (poisoned: bool)
        ensures
            poisoned == self@.poisoned,
    {
        self.poisoned
    }

    /// Notes that processing has failed.
    pub fn poison(&mut self)
        ensures
            final(self)@ == (ProcessorView { poisoned: true, ..old(self)@ }),
            old(self).wf() ==> final(self).wf(),
    {
        self.poisoned = true;
    }
}

/// Where a new node is in no slot of another one, the slots of two nodes differ unless
/// both are left.
proof fn lemma_slots_differ(left: Seq<u64>, added: Seq<u64>, k1: u64, k2: u64)
    requires
        forall|j: int, l: int|
            0 <= j < added.len() && 0 <= l < left.len() ==> slot_of(#[trigger] added[j])
                != slot_of(#[trigger] left[l]),
        forall|j: int, l: int|
            0 <= j < l < added.len() ==> slot_of(#[trigger] added[j]) != slot_of(
                #[trigger] added[l],
            ),
        left.contains(k1) || added.contains(k1),
        left.contains(k2) || added.contains(k2),
        k1 != k2,
    ensures
        !(left.contains(k1) && left.contains(k2)) ==> slot_of(k1) != slot_of(k2),
{
    if left.contains(k1) && !left.contains(k2) {
        assert(slot_of(added[added.index_of(k2)]) != slot_of(left[left.index_of(k1)]));
    } else if !left.contains(k1) && left.contains(k2) {
        assert(slot_of(added[added.index_of(k1)]) != slot_of(left[left.index_of(k2)]));
    } else if !left.contains(k1) && !left.contains(k2) {
        let i = added.index_of(k1);
        let j = added.index_of(k2);
        if i < j {
            assert(slot_of(added[i]) != slot_of(added[j]));
        } else {
            assert(slot_of(added[j]) != slot_of(added[i]));
        }
    }
}

broadcast proof fn lemma_processors_insert<P>(
    nodes: Map<u64, ProcNode<P>>,
    k: u64,
    node: ProcNode<P>,
)
    ensures
        #[trigger] processors_of(nodes.insert(k, node)) == processors_of(nodes).insert(
            k,
            node.processor,
        ),
{
    assert(processors_of(nodes.insert(k, node)) =~= processors_of(nodes).insert(
        k,
        node.processor,
    ));
}

broadcast proof fn lemma_insert_dom<P>(nodes: Map<u64, ProcNode<P>>, k: u64, node: ProcNode<P>)
    requires
        nodes.contains_key(k),
    ensures
        #[trigger] nodes.insert(k, node).dom() == nodes.dom(),
{
    assert(nodes.insert(k, node).dom() =~= nodes.dom());
}

proof fn lemma_without_step<P>(processors: Map<u64, P>, ids: Seq<NodeID>, i: int)
    requires
        0 <= i < ids.len(),
    ensures
        without_nodes(processors, ids.take(i + 1)) == without_nodes(
            processors,
            ids.take(i),
        ).remove(ids[i].0),
{
    assert forall|k: u64|
        #![trigger ids.take(i + 1).contains(NodeID(k))]
        ids.take(i + 1).contains(NodeID(k)) <==> ids.take(i).contains(NodeID(k)) || k
            == ids[i].0 by {
        lemma_take_contains(ids, i, NodeID(k));
        assert(ids[i] == NodeID(ids[i].0));
    }
    assert(without_nodes(processors, ids.take(i + 1)) =~= without_nodes(
        processors,
        ids.take(i),
    ).remove(ids[i].0));
}

proof fn lemma_take_contains<A>(s: Seq<A>, i: int, x: A)
    requires
        0 <= i < s.len(),
    ensures
        s.take(i + 1).contains(x) <==> s.take(i).contains(x) || x == s[i],
{
    assert(s.take(i + 1)[i] == s[i]);
    if s.take(i).contains(x) {
        let j = s.take(i).index_of(x);
        assert(s.take(i + 1)[j] == x);
    }
    if s.take(i + 1).contains(x) {
        let j = s.take(i + 1).index_of(x);
        if j < i {
            assert(s.take(i)[j] == x);
        }
    }
}

} // verus!
