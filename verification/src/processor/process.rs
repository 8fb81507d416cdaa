//! How a block of audio is processed: block by block, node by node, and
//! sub-chunk by sub-chunk.

use crate::mask::SilenceMask;
use crate::node::ProcessStatus;
use vstd::prelude::*;

verus! {

/// What to do with a range of the output buffers of a node.
#[derive(Debug, Clone, Copy, PartialEq, Eq, Structural)]
pub enum OutputAction {
    /// Leave what is there.
    Keep,
    /// Fill it with silence.
    Clear,
    /// Copy the inputs to it, and fill outputs without an input with silence.
    CopyInputs,
}

/// What to do with the outputs of sub-chunks, once it is up to the engine.
#[derive(Debug, Clone, Copy, PartialEq, Eq, Structural)]
pub struct SubChunkActions {
    /// What to do with the frames before the sub-chunk.
    pub before: OutputAction,
    /// What to do with the frames of the sub-chunk.
    pub here: OutputAction,
}

/// The action by which the engine does what a status asks for.
pub open spec fn action_of(status: ProcessStatus) -> OutputAction {
    match status {
        ProcessStatus::ClearAllOutputs => OutputAction::Clear,
        ProcessStatus::Bypass => OutputAction::CopyInputs,
        ProcessStatus::OutputsModified { .. } => OutputAction::Keep,
    }
}

/// Whether a status says that output channel `ch` is silent.
pub open spec fn says_silent(
    status: ProcessStatus,
    in_silence_mask: SilenceMask,
    num_outputs: int,
    ch: int,
) -> bool {
    match status {
        ProcessStatus::ClearAllOutputs => ch < num_outputs,
        ProcessStatus::Bypass => in_silence_mask.silent(ch),
        ProcessStatus::OutputsModified { out_silence_mask } => out_silence_mask.silent(ch),
    }
}

/// The statuses that a node returned for the sub-chunks of a block, taken
/// together. As long as they are all the same, that status is the one of the
/// block. Once they differ, the engine does what each asks for, and the block's
/// outputs are modified.
pub struct BlockStatus {
    in_silence_mask: SilenceMask,
    num_outputs: usize,
    prev_process_status: Option<ProcessStatus>,
    final_silence_mask: Option<SilenceMask>,
    statuses: Ghost<Seq<ProcessStatus>>,
}

impl BlockStatus {
    /// The statuses so far.
    pub closed spec fn statuses(&self) -> Seq<ProcessStatus> {
        self.statuses@
    }

    /// The silent input channels of the node.
    pub closed spec fn inputs(&self) -> SilenceMask {
        self.in_silence_mask
    }

    /// The number of output channels of the node.
    pub closed spec fn outputs(&self) -> int {
        self.num_outputs as int
    }

    /// Whether the engine does what the statuses ask for: once two of them
    /// differ.
    pub open spec fn manual(&self) -> bool {
        !all_same(self.statuses())
    }

    /// Whether each status says that output channel `ch` is silent.
    pub open spec fn always_silent(&self, ch: int) -> bool {
        forall|i: int|
            0 <= i < self.statuses().len() ==> says_silent(
                #[trigger] self.statuses()[i],
                self.inputs(),
                self.outputs(),
                ch,
            )
    }

    /// Well-formedness: a mask is kept if and only if two statuses differ, and a
    /// channel is silent in it if and only if each status says so.
    pub closed spec fn wf(&self) -> bool {
        let s = self.statuses@;
        &&& s.len() == 0 ==> self.prev_process_status is None
        &&& s.len() > 0 ==> self.prev_process_status == Some(s.last())
        &&& self.final_silence_mask is Some <==> self.manual()
        &&& self.final_silence_mask matches Some(m) ==> forall|ch: int|
            0 <= ch < self.num_outputs && ch < 64 ==> #[trigger] m.silent(ch)
                == self.always_silent(ch)
    }

    /// No sub-chunk was processed yet.
    pub fn new(in_silence_mask: SilenceMask, num_outputs: usize) -> (status: Self)
        ensures
            status.wf(),
            status.statuses().len() == 0,
            status.inputs() == in_silence_mask,
            status.outputs() == num_outputs,
    {
        BlockStatus {
            in_silence_mask,
            num_outputs,
            prev_process_status: None,
            final_silence_mask: None,
            statuses: Ghost(Seq::empty()),
        }
    }

    /// A node returned a status for a sub-chunk. Returns what to do with the
    /// outputs. If there are multiple sub-chunks, and the node returned a
    /// different status than for the previous sub-chunk, then what the statuses
    /// before it ask for is done for all frames before it.
    pub fn on_sub_chunk(&mut self, process_status: ProcessStatus) -> (actions: SubChunkActions)
        requires
            old(self).wf(),
        ensures
            final(self).wf(),
            final(self).statuses() == old(self).statuses().push(process_status),
            final(self).inputs() == old(self).inputs(),
            final(self).outputs() == old(self).outputs(),
            actions.before == (if final(self).manual() && !old(self).manual() {
                action_of(old(self).statuses().last())
            } else {
                OutputAction::Keep
            }),
            actions.here == (if final(self).manual() {
                action_of(process_status)
            } else {
                OutputAction::Keep
            }),
    {
        let mut before = OutputAction::Keep;
        let ghost s0 = self.statuses@;
        let ghost old_self = *self;
        if self.final_silence_mask.is_none() {
            if let Some(prev_process_status) = self.prev_process_status {
                if prev_process_status != process_status {
                    // Handle the process status for the sub-chunk(s) before this
                    // sub-chunk.
                    match prev_process_status {
                        ProcessStatus::ClearAllOutputs => {
                            before = OutputAction::Clear;
                            self.final_silence_mask = Some(
                                SilenceMask::new_all_silent(self.num_outputs),
                            );
                        },
                        ProcessStatus::Bypass => {
                            before = OutputAction::CopyInputs;
                            self.final_silence_mask = Some(self.in_silence_mask);
                        },
                        ProcessStatus::OutputsModified { out_silence_mask } => {
                            self.final_silence_mask = Some(out_silence_mask);
                        },
                    }
                }
            }
        }
        let ghost mask1 = self.final_silence_mask;
        self.prev_process_status = Some(process_status);

        // If we are manually handling process statuses, handle the process status
        // for this sub-chunk.
        let mut here = OutputAction::Keep;
        if let Some(mut mask) = self.final_silence_mask {
            match process_status {
                ProcessStatus::ClearAllOutputs => {
                    here = OutputAction::Clear;
                },
                ProcessStatus::Bypass => {
                    here = OutputAction::CopyInputs;
                    mask.union_with(self.in_silence_mask);
                },
                ProcessStatus::OutputsModified { out_silence_mask } => {
                    mask.union_with(out_silence_mask);
                },
            }
            self.final_silence_mask = Some(mask);
        }
        proof {
            let s = s0.push(process_status);
            self.statuses@ = s;
            lemma_all_same_push(s0, process_status);
            if let Some(m1) = mask1 {
                let m = self.final_silence_mask->0;
                assert forall|ch: int| 0 <= ch < self.num_outputs && ch < 64 implies #[trigger] m.silent(
                    ch,
                ) == self.always_silent(ch) by {
                    assert(m1.silent(ch) == old_self.always_silent(ch)) by {
                        if !old_self.manual() {
                            assert(m1.silent(ch) == says_silent(
                                s0.last(),
                                self.inputs(),
                                self.outputs(),
                                ch,
                            ));
                            assert(s0.last() == s0[0]);
                        }
                    }
                    old_self.lemma_always_silent_push(*self, process_status, ch);
                }
            }
        }
        SubChunkActions { before, here }
    }

    proof fn lemma_always_silent_push(self, next: BlockStatus, status: ProcessStatus, ch: int)
        requires
            next.statuses() == self.statuses().push(status),
            next.inputs() == self.inputs(),
            next.outputs() == self.outputs(),
        ensures
            next.always_silent(ch) == (self.always_silent(ch) && says_silent(
                status,
                self.inputs(),
                self.outputs(),
                ch,
            )),
    {
        let s0 = self.statuses();
        let s = next.statuses();
        if next.always_silent(ch) {
            assert forall|i: int| 0 <= i < s0.len() implies says_silent(
                #[trigger] s0[i],
                self.inputs(),
                self.outputs(),
                ch,
            ) by {
                assert(s[i] == s0[i]);
            }
            assert(s[s0.len() as int] == status);
        }
    }

    /// The status of the block: the calculated silence mask, if it was up to the
    /// engine, or else the status that the node returned.
    pub fn finish(&self) -> (status: ProcessStatus)
        requires
            self.wf(),
            self.statuses().len() > 0,
        ensures
            !self.manual() ==> status == self.statuses().last(),
            self.manual() ==> status is OutputsModified,
            forall|ch: int|
                0 <= ch < self.outputs() && ch < 64 ==> #[trigger] says_silent(
                    status,
                    self.inputs(),
                    self.outputs(),
                    ch,
                ) == self.always_silent(ch),
    {
        if let Some(out_silence_mask) = self.final_silence_mask {
            ProcessStatus::OutputsModified { out_silence_mask }
        } else {
            match self.prev_process_status {
                Some(status) => {
                    proof {
                        assert(status == self.statuses()[0]);
                    }
                    status
                },
                None => ProcessStatus::ClearAllOutputs,
            }
        }
    }
}

/// Whether all statuses are the same.
pub open spec fn all_same(statuses: Seq<ProcessStatus>) -> bool {
    forall|i: int| 0 <= i < statuses.len() ==> #[trigger] statuses[i] == statuses[0]
}

/// Statuses are all the same if the last one joins in.
pub proof fn lemma_all_same_push(statuses: Seq<ProcessStatus>, status: ProcessStatus)
    ensures
        all_same(statuses.push(status)) == (all_same(statuses) && (statuses.len() == 0
            || statuses.last() == status)),
{
    let next = statuses.push(status);
    if all_same(next) {
        assert forall|i: int| 0 <= i < statuses.len() implies #[trigger] statuses[i]
            == statuses[0] by {
            assert(next[i] == next[0]);
        }
        if statuses.len() > 0 {
            assert(next[statuses.len() as int] == next[0]);
            assert(next[statuses.len() - 1] == next[0]);
        }
    }
    if all_same(statuses) && statuses.len() > 0 && statuses.last() == status {
        assert(statuses[statuses.len() - 1] == statuses[0]);
    }
}

/// What a frame of an output channel is meant to hold, given what is in the
/// buffer, the status of the node and the input channel with the same index.
pub open spec fn meant<S>(
    status: ProcessStatus,
    output: Seq<S>,
    input: Option<Seq<S>>,
    silence: S,
    i: int,
) -> S {
    after_action(action_of(status), output, input, silence, i)
}

/// What a frame of an output channel holds once an action was carried out.
pub open spec fn after_action<S>(
    action: OutputAction,
    output: Seq<S>,
    input: Option<Seq<S>>,
    silence: S,
    i: int,
) -> S {
    match action {
        OutputAction::Keep => output[i],
        OutputAction::Clear => silence,
        OutputAction::CopyInputs => match input {
            Some(input) => input[i],
            None => silence,
        },
    }
}

/// Carries out an action on frames `start..end` of an output channel. The input
/// is the channel with the same index, if there is one.
pub fn apply_action<S: Copy>(
    action: OutputAction,
    input: Option<&[S]>,
    output: &mut [S],
    start: usize,
    end: usize,
    silence: S,
)
    requires
        start <= end <= old(output)@.len(),
        input matches Some(input) ==> end <= input@.len(),
    ensures
        final(output)@.len() == old(output)@.len(),
        forall|i: int|
            0 <= i < old(output)@.len() ==> #[trigger] final(output)@[i] == (if start <= i < end {
                after_action(
                    action,
                    old(output)@,
                    match input {
                        Some(input) => Some(input@),
                        None => None,
                    },
                    silence,
                    i,
                )
            } else {
                old(output)@[i]
            }),
{
    match action {
        OutputAction::Keep => {},
        OutputAction::Clear => fill(output, start, end, silence),
        OutputAction::CopyInputs => match input {
            Some(input) => copy_from(output, input, start, end),
            None => fill(output, start, end, silence),
        },
    }
}

/// Fills frames `start..end` with a value.
pub(crate) fn fill<S: Copy>(output: &mut [S], start: usize, end: usize, value: S)
    requires
        start <= end <= old(output)@.len(),
    ensures
        final(output)@.len() == old(output)@.len(),
        forall|i: int|
            0 <= i < old(output)@.len() ==> #[trigger] final(output)@[i] == (if start <= i < end {
                value
            } else {
                old(output)@[i]
            }),
{
    let mut i: usize = start;
    while i < end
        invariant
            start <= i <= end <= old(output)@.len(),
            output@.len() == old(output)@.len(),
            forall|j: int|
                0 <= j < old(output)@.len() ==> #[trigger] output@[j] == (if start <= j < i {
                    value
                } else {
                    old(output)@[j]
                }),
        decreases end - i,
    {
        output[i] = value;
        i += 1;
    }
}

/// Copies frames `start..end` of an input.
fn copy_from<S: Copy>(output: &mut [S], input: &[S], start: usize, end: usize)
    requires
        start <= end <= old(output)@.len(),
        end <= input@.len(),
    ensures
        final(output)@.len() == old(output)@.len(),
        forall|i: int|
            0 <= i < old(output)@.len() ==> #[trigger] final(output)@[i] == (if start <= i < end {
                input@[i]
            } else {
                old(output)@[i]
            }),
{
    let mut i: usize = start;
    while i < end
        invariant
            start <= i <= end <= old(output)@.len(),
            end <= input@.len(),
            output@.len() == old(output)@.len(),
            forall|j: int|
                0 <= j < old(output)@.len() ==> #[trigger] output@[j] == (if start <= j < i {
                    input@[j]
                } else {
                    old(output)@[j]
                }),
        decreases end - i,
    {
        output[i] = input[i];
        i += 1;
    }
}

} // verus!
