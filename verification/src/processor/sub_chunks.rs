//! How a node is processed in the sub-chunks of a block.

use crate::mask::SilenceMask;
use crate::node::ProcessStatus;
use crate::processor::process::{
    action_of, after_action, all_same, apply_action, lemma_all_same_push, meant, says_silent,
    BlockStatus, OutputAction,
};
use vstd::prelude::*;

verus! {

/// What a node did in a sub-chunk.
pub struct SubChunkRun<S> {
    /// The output channels that it was given.
    pub given: Vec<Vec<S>>,
    /// The output channels as it left them.
    pub left: Vec<Vec<S>>,
    /// The status that it returned.
    pub status: ProcessStatus,
}

/// The first frame of sub-chunk `i`, where the sub-chunks end at `ends`.
pub open spec fn start_of(ends: Seq<usize>, i: int) -> int {
    if i == 0 {
        0
    } else {
        ends[i - 1] as int
    }
}

/// Whether a frame is in sub-chunk `i`.
pub open spec fn in_chunk(ends: Seq<usize>, i: int, frame: int) -> bool {
    start_of(ends, i) <= frame < ends[i]
}

/// Whether sub-chunks follow each other from the first frame on.
pub open spec fn are_ends(ends: Seq<usize>) -> bool {
    forall|i: int, j: int| 0 <= i < j < ends.len() ==> #[trigger] ends[i] <= #[trigger] ends[j]
}

/// Whether there are so many output channels, each with at least so many frames.
pub open spec fn shaped<S>(outputs: Vec<Vec<S>>, num_outputs: int, frames: int) -> bool {
    &&& outputs@.len() == num_outputs
    &&& forall|c: int| 0 <= c < num_outputs ==> frames <= (#[trigger] outputs@[c])@.len()
}

/// Whether output channels differ at most in frames `start..end`.
pub open spec fn same_outside<S>(a: Vec<Vec<S>>, b: Vec<Vec<S>>, start: int, end: int) -> bool {
    &&& a@.len() == b@.len()
    &&& forall|c: int| 0 <= c < a@.len() ==> (#[trigger] b@[c])@.len() == a@[c]@.len()
    &&& forall|c: int, f: int|
        0 <= c < a@.len() && 0 <= f < a@[c]@.len() && !(start <= f < end) ==> #[trigger] b@[c]@[f]
            == a@[c]@[f]
}

/// Whether a node only writes to the frames of the sub-chunk that it is given.
pub open spec fn writes_inside<S, N: Fn(usize, Vec<Vec<S>>) -> (Vec<Vec<S>>, ProcessStatus)>(
    node: N,
    ends: Seq<usize>,
    num_outputs: int,
    frames: int,
) -> bool {
    forall|i: usize, given: Vec<Vec<S>>, result: (Vec<Vec<S>>, ProcessStatus)|
        i < ends.len() && shaped(given, num_outputs, frames) && #[trigger] call_ensures(
            node,
            (i, given),
            result,
        ) ==> same_outside(given, result.0, start_of(ends, i as int), ends[i as int] as int)
}

/// The input channel with the same index as an output channel, if there is one.
pub open spec fn input_of<S>(inputs: Seq<&[S]>, c: int) -> Option<Seq<S>> {
    if c < inputs.len() {
        Some(inputs[c]@)
    } else {
        None
    }
}

/// The statuses that a node returned.
pub open spec fn statuses_of<S>(runs: Seq<SubChunkRun<S>>) -> Seq<ProcessStatus> {
    runs.map_values(|run: SubChunkRun<S>| run.status)
}

/// Whether each frame of an output channel is as the status of its sub-chunk asks for.
pub open spec fn delivered<S>(
    runs: Seq<SubChunkRun<S>>,
    ends: Seq<usize>,
    input: Option<Seq<S>>,
    silence: S,
    c: int,
    output: Seq<S>,
) -> bool {
    forall|i: int, f: int|
        0 <= i < runs.len() && #[trigger] in_chunk(ends, i, f) ==> output[f] == meant(
            runs[i].status,
            runs[i].left@[c]@,
            input,
            silence,
            f,
        )
}

/// Whether each frame of an output channel is as the node left it.
pub open spec fn left_alone<S>(
    runs: Seq<SubChunkRun<S>>,
    ends: Seq<usize>,
    c: int,
    output: Seq<S>,
) -> bool {
    forall|i: int, f: int|
        0 <= i < runs.len() && #[trigger] in_chunk(ends, i, f) ==> output[f]
            == runs[i].left@[c]@[f]
}

/// Carries out an action on frames `start..end` of all output channels.
fn apply_to_all<S: Copy>(
    action: OutputAction,
    inputs: &[&[S]],
    outputs: &mut Vec<Vec<S>>,
    start: usize,
    end: usize,
    silence: S,
)
    requires
        start <= end,
        shaped(*old(outputs), old(outputs)@.len() as int, end as int),
        forall|c: int| 0 <= c < inputs@.len() ==> end <= (#[trigger] inputs@[c])@.len(),
    ensures
        same_outside(*old(outputs), *final(outputs), start as int, end as int),
        forall|c: int, f: int|
            0 <= c < old(outputs)@.len() && start <= f < end ==> #[trigger] final(outputs)@[c]@[f]
                == after_action(action, old(outputs)@[c]@, input_of(inputs@, c), silence, f),
{
    let num: usize = outputs.len();
    for ch in 0..num
        invariant
            num == outputs@.len(),
            num == old(outputs)@.len(),
            start <= end,
            shaped(*old(outputs), num as int, end as int),
            forall|c: int| 0 <= c < inputs@.len() ==> end <= (#[trigger] inputs@[c])@.len(),
            same_outside(*old(outputs), *outputs, start as int, end as int),
            forall|c: int, f: int|
                ch <= c < num && 0 <= f < old(outputs)@[c]@.len() ==> #[trigger] outputs@[c]@[f]
                    == old(outputs)@[c]@[f],
            forall|c: int, f: int|
                0 <= c < ch && start <= f < end ==> #[trigger] outputs@[c]@[f] == after_action(
                    action,
                    old(outputs)@[c]@,
                    input_of(inputs@, c),
                    silence,
                    f,
                ),
    {
        let ghost outputs0 = *outputs;
        let input: Option<&[S]> = if ch < inputs.len() {
            Some(inputs[ch])
        } else {
            None
        };
        assert(outputs@[ch as int]@ =~= old(outputs)@[ch as int]@);
        let channel = &mut outputs[ch];
        apply_action(action, input, channel.as_mut_slice(), start, end, silence);
        assert(forall|c: int| 0 <= c < num && c != ch ==> #[trigger] outputs@[c] == outputs0@[c]);
    }
}

/// Processes a node in the sub-chunks of a block, and does what its statuses ask for:
/// where it is to be bypassed, the inputs are copied to the outputs, and where its outputs
/// are to be cleared, they are filled with silence. Returns the outputs and the status of
/// the block.
pub fn run_sub_chunks<
    S: Copy,
    N: Fn(usize, Vec<Vec<S>>) -> (Vec<Vec<S>>, ProcessStatus),
>(
    node: &N,
    ends: &Vec<usize>,
    inputs: &[&[S]],
    outputs: Vec<Vec<S>>,
    in_silence_mask: SilenceMask,
    silence: S,
) -> (result: (Vec<Vec<S>>, ProcessStatus, Ghost<Seq<SubChunkRun<S>>>))
    requires
        ends@.len() > 0,
        are_ends(ends@),
        shaped(outputs, outputs@.len() as int, ends@.last() as int),
        forall|c: int| 0 <= c < inputs@.len() ==> ends@.last() <= (#[trigger] inputs@[c])@.len(),
        forall|i: usize, given: Vec<Vec<S>>|
            i < ends@.len() && shaped(given, outputs@.len() as int, ends@.last() as int)
                ==> #[trigger] call_requires(*node, (i, given)),
        writes_inside(*node, ends@, outputs@.len() as int, ends@.last() as int),
    ensures
        ({
            let runs = result.2@;
            let statuses = statuses_of(runs);
            &&& runs.len() == ends@.len()
            &&& forall|i: int|
                0 <= i < runs.len() ==> call_ensures(
                    *node,
                    (i as usize, (#[trigger] runs[i]).given),
                    (runs[i].left, runs[i].status),
                )
            &&& forall|i: int, c: int, f: int|
                0 <= i < runs.len() && 0 <= c < outputs@.len() && start_of(ends@, i) <= f
                    < outputs@[c]@.len() ==> #[trigger] runs[i].given@[c]@[f] == outputs@[c]@[f]
            &&& result.0@.len() == outputs@.len()
            &&& forall|c: int|
                0 <= c < outputs@.len() ==> {
                    &&& (#[trigger] result.0@[c])@.len() == outputs@[c]@.len()
                    &&& delivered(runs, ends@, input_of(inputs@, c), silence, c, result.0@[c]@)
                    &&& forall|f: int|
                        ends@.last() <= f < outputs@[c]@.len() ==> #[trigger] result.0@[c]@[f]
                            == outputs@[c]@[f]
                }
            &&& all_same(statuses) ==> result.1 == statuses.last()
            &&& !all_same(statuses) ==> result.1 is OutputsModified
            &&& forall|ch: int|
                0 <= ch < outputs@.len() && ch < 64 ==> (#[trigger] says_silent(
                    result.1,
                    in_silence_mask,
                    outputs@.len() as int,
                    ch,
                ) <==> forall|i: int|
                    0 <= i < statuses.len() ==> says_silent(
                        #[trigger] statuses[i],
                        in_silence_mask,
                        outputs@.len() as int,
                        ch,
                    ))
        }),
{
    let ghost outputs0 = outputs;
    let num_outputs: usize = outputs.len();
    let num_chunks: usize = ends.len();
    let ghost frames = ends@.last() as int;
    let ghost mut runs: Seq<SubChunkRun<S>> = Seq::empty();
    let mut outputs = outputs;
    let mut status = BlockStatus::new(in_silence_mask, num_outputs);
    let mut start: usize = 0;
    assert(statuses_of(runs) =~= status.statuses());
    for i in 0..num_chunks
        invariant
            num_chunks == ends@.len(),
            num_outputs == outputs0@.len(),
            ends@.len() > 0,
            frames == ends@.last(),
            are_ends(ends@),
            start == start_of(ends@, i as int),
            forall|c: int| 0 <= c < inputs@.len() ==> frames <= (#[trigger] inputs@[c])@.len(),
            forall|i: usize, given: Vec<Vec<S>>|
                i < ends@.len() && shaped(given, num_outputs as int, frames)
                    ==> #[trigger] call_requires(*node, (i, given)),
            writes_inside(*node, ends@, num_outputs as int, frames),
            shaped(outputs0, num_outputs as int, frames),
            same_outside(outputs0, outputs, 0, start as int),
            status.wf(),
            status.inputs() == in_silence_mask,
            status.outputs() == num_outputs,
            status.statuses() == statuses_of(runs),
            runs.len() == i,
            forall|j: int|
                0 <= j < i ==> call_ensures(
                    *node,
                    (j as usize, (#[trigger] runs[j]).given),
                    (runs[j].left, runs[j].status),
                ),
            forall|j: int, c: int, f: int|
                0 <= j < i && 0 <= c < num_outputs && start_of(ends@, j) <= f
                    < outputs0@[c]@.len() ==> #[trigger] runs[j].given@[c]@[f]
                    == outputs0@[c]@[f],
            status.manual() ==> forall|c: int|
                0 <= c < num_outputs ==> delivered(
                    runs,
                    ends@,
                    input_of(inputs@, c),
                    silence,
                    c,
                    (#[trigger] outputs@[c])@,
                ),
            !status.manual() ==> forall|c: int|
                0 <= c < num_outputs ==> left_alone(runs, ends@, c, (#[trigger] outputs@[c])@),
    {
        let end: usize = ends[i];
        let ghost given = outputs;
        let ghost runs0 = runs;
        let ghost status0 = status;
        proof {
            assert(start <= end <= frames) by {
                if i > 0 {
                    assert(ends@[i - 1] <= ends@[i as int]);
                }
                if i + 1 < num_chunks {
                    assert(ends@[i as int] <= ends@[num_chunks - 1]);
                }
            }
            assert(shaped(outputs, num_outputs as int, frames)) by {
                assert forall|c: int| 0 <= c < num_outputs implies frames <= (
                #[trigger] outputs@[c])@.len() by {
                    assert(outputs0@[c]@.len() >= frames);
                }
            }
        }
        let (left, process_status) = node(i, outputs);
        let ghost run = SubChunkRun { given, left, status: process_status };
        proof {
            runs = runs0.push(run);
            assert(statuses_of(runs) =~= statuses_of(runs0).push(process_status));
        }
        outputs = left;
        assert(shaped(outputs, num_outputs as int, frames)) by {
            assert forall|c: int| 0 <= c < num_outputs implies frames <= (
            #[trigger] outputs@[c])@.len() by {
                assert(given@[c]@.len() >= frames);
            }
        }
        let actions = status.on_sub_chunk(process_status);
        apply_to_all(actions.before, inputs, &mut outputs, 0, start, silence);
        let ghost between = outputs;
        apply_to_all(actions.here, inputs, &mut outputs, start, end, silence);
        proof {
            lemma_all_same_push(statuses_of(runs0), process_status);
            assert forall|c: int| 0 <= c < num_outputs implies if status.manual() {
                delivered(
                    runs,
                    ends@,
                    input_of(inputs@, c),
                    silence,
                    c,
                    (#[trigger] outputs@[c])@,
                )
            } else {
                left_alone(runs, ends@, c, outputs@[c]@)
            } by {
                lemma_chunk_done(
                    runs0,
                    run,
                    ends@,
                    input_of(inputs@, c),
                    silence,
                    c,
                    actions.before,
                    actions.here,
                    given@[c]@,
                    between@[c]@,
                    outputs@[c]@,
                );
            }
        }
        start = end;
    }
    let block_status = status.finish();
    let action = match block_status {
        ProcessStatus::ClearAllOutputs => OutputAction::Clear,
        ProcessStatus::Bypass => OutputAction::CopyInputs,
        ProcessStatus::OutputsModified { .. } => OutputAction::Keep,
    };
    let ghost before = outputs;
    apply_to_all(action, inputs, &mut outputs, 0, start, silence);
    proof {
        let statuses = statuses_of(runs);
        assert forall|c: int| 0 <= c < num_outputs implies delivered(
            runs,
            ends@,
            input_of(inputs@, c),
            silence,
            c,
            (#[trigger] outputs@[c])@,
        ) by {
            assert forall|i: int, f: int|
                0 <= i < runs.len() && #[trigger] in_chunk(ends@, i, f) implies outputs@[c]@[f]
                == meant(
                runs[i].status,
                runs[i].left@[c]@,
                input_of(inputs@, c),
                silence,
                f,
            ) by {
                assert(f < frames) by {
                    if i + 1 < num_chunks {
                        assert(ends@[i] <= ends@[num_chunks - 1]);
                    }
                }
                assert(before@[c]@.len() >= frames);
                assert(statuses[i] == runs[i].status);
                if !status.manual() {
                    assert(statuses[i] == statuses[0]);
                    assert(statuses[statuses.len() - 1] == statuses[0]);
                    assert(left_alone(runs, ends@, c, before@[c]@));
                } else {
                    assert(delivered(
                        runs,
                        ends@,
                        input_of(inputs@, c),
                        silence,
                        c,
                        before@[c]@,
                    ));
                }
            }
        }
    }
    (outputs, block_status, Ghost(runs))
}

/// An output channel stays as it should be from one sub-chunk to the next.
proof fn lemma_chunk_done<S>(
    runs: Seq<SubChunkRun<S>>,
    run: SubChunkRun<S>,
    ends: Seq<usize>,
    input: Option<Seq<S>>,
    silence: S,
    c: int,
    before: OutputAction,
    here: OutputAction,
    given: Seq<S>,
    between: Seq<S>,
    output: Seq<S>,
)
    requires
        are_ends(ends),
        runs.len() < ends.len(),
        ({
            let i = runs.len() as int;
            let start = start_of(ends, i);
            let end = ends[i] as int;
            let left = run.left@[c]@;
            let statuses = statuses_of(runs);
            &&& start <= end <= given.len()
            &&& left.len() == given.len()
            &&& between.len() == given.len()
            &&& output.len() == given.len()
            &&& forall|f: int|
                0 <= f < given.len() && !(start <= f < end) ==> #[trigger] left[f] == given[f]
            &&& forall|f: int|
                0 <= f < given.len() ==> #[trigger] between[f] == if f < start {
                    after_action(before, left, input, silence, f)
                } else {
                    left[f]
                }
            &&& forall|f: int|
                0 <= f < given.len() ==> #[trigger] output[f] == if start <= f < end {
                    after_action(here, between, input, silence, f)
                } else {
                    between[f]
                }
            &&& before == (if all_same(statuses) && !all_same(statuses.push(run.status)) {
                action_of(statuses.last())
            } else {
                OutputAction::Keep
            })
            &&& here == (if all_same(statuses.push(run.status)) {
                OutputAction::Keep
            } else {
                action_of(run.status)
            })
            &&& all_same(statuses) ==> left_alone(runs, ends, c, given)
            &&& !all_same(statuses) ==> delivered(runs, ends, input, silence, c, given)
        }),
    ensures
        if all_same(statuses_of(runs).push(run.status)) {
            left_alone(runs.push(run), ends, c, output)
        } else {
            delivered(runs.push(run), ends, input, silence, c, output)
        },
{
    let statuses = statuses_of(runs);
    let next = statuses.push(run.status);
    let all = runs.push(run);
    let n = runs.len() as int;
    lemma_all_same_push(statuses, run.status);
    assert forall|i: int, f: int|
        0 <= i < all.len() && #[trigger] in_chunk(ends, i, f) implies output[f] == (if all_same(
        next,
    ) {
        all[i].left@[c]@[f]
    } else {
        meant(all[i].status, all[i].left@[c]@, input, silence, f)
    }) by {
        if i < n {
            assert(f < start_of(ends, n)) by {
                if i < n - 1 {
                    assert(ends[i] <= ends[n - 1]);
                }
            }
            assert(0 <= f);
            assert(all[i] == runs[i]);
            assert(statuses[i] == runs[i].status);
            assert(left_alone(runs, ends, c, given) || delivered(
                runs,
                ends,
                input,
                silence,
                c,
                given,
            ));
            if all_same(statuses) {
                assert(statuses[i] == statuses[0]);
                assert(statuses[statuses.len() - 1] == statuses[0]);
            }
        }
    }
}

} // verus!
