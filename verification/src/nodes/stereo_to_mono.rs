//! A node that averages a left and a right channel into one.

use crate::channel_config::{ChannelConfig, ChannelCount};
use crate::mask::SilenceMask;
use crate::node::{AudioNode, AudioNodeInfo, ProcessStatus};
use vstd::prelude::*;

verus! {

/// A node that averages a left and a right channel into one.
#[derive(Debug, Clone, Copy, PartialEq, Eq, Structural)]
pub struct StereoToMonoNode;

impl AudioNode for StereoToMonoNode {
    type Configuration = ();

    fn info(&self, _config: &()) -> (info: AudioNodeInfo)
        ensures
            info.debug_name@ == "stereo_to_mono"@,
            info.channel_config.inputs() == 2,
            info.channel_config.outputs() == 1,
            !info.call_update_method,
    {
        AudioNodeInfo::new(
            "stereo_to_mono",
            ChannelConfig { num_inputs: ChannelCount::stereo(), num_outputs: ChannelCount::mono() },
        )
    }
}

/// What the node does in a block: if both inputs are silent, or if there is no output
/// or no second input, the outputs are to be cleared; or else the inputs are mixed
/// with [`mix_to_mono`].
pub fn stereo_to_mono_status(
    in_silence_mask: SilenceMask,
    num_inputs: usize,
    num_outputs: usize,
) -> (status: ProcessStatus)
    ensures
        ({
            let clear = (in_silence_mask.silent(0) && in_silence_mask.silent(1)) || num_inputs < 2
                || num_outputs == 0;
            &&& clear ==> status == ProcessStatus::ClearAllOutputs
            &&& !clear ==> status is OutputsModified && forall|ch: int|
                0 <= ch < 64 ==> !#[trigger] status->out_silence_mask.silent(ch)
        }),
{
    if in_silence_mask.all_channels_silent(2) || num_inputs < 2 || num_outputs == 0 {
        proof {
            if num_inputs >= 2 && num_outputs > 0 {
                assert(in_silence_mask.silent(0));
                assert(in_silence_mask.silent(1));
            }
        }
        return ProcessStatus::ClearAllOutputs;
    }
    ProcessStatus::OutputsModified { out_silence_mask: SilenceMask::none_silent() }
}

/// The length of the shortest of three channels.
pub open spec fn shortest(a: int, b: int, c: int) -> int {
    if a <= b && a <= c {
        a
    } else if b <= c {
        b
    } else {
        c
    }
}

/// Averages two channels into one, as far as all three go. `average` gives the
/// average of two samples.
pub fn mix_to_mono<S: Copy, F: Fn(S, S) -> S>(
    output: &mut [S],
    left: &[S],
    right: &[S],
    average: &F,
)
    requires
        forall|a: S, b: S| #[trigger] call_requires(*average, (a, b)),
    ensures
        final(output)@.len() == old(output)@.len(),
        ({
            let n = shortest(
                old(output)@.len() as int,
                left@.len() as int,
                right@.len() as int,
            );
            &&& forall|i: int|
                0 <= i < n ==> call_ensures(
                    *average,
                    (left@[i], right@[i]),
                    #[trigger] final(output)@[i],
                )
            &&& forall|i: int|
                n <= i < old(output)@.len() ==> #[trigger] final(output)@[i] == old(output)@[i]
        }),
{
    let mut i: usize = 0;
    while i < output.len() && i < left.len() && i < right.len()
        invariant
            output@.len() == old(output)@.len(),
            i <= shortest(output@.len() as int, left@.len() as int, right@.len() as int),
            forall|a: S, b: S| #[trigger] call_requires(*average, (a, b)),
            forall|j: int|
                0 <= j < i ==> call_ensures(*average, (left@[j], right@[j]), #[trigger] output@[j]),
            forall|j: int| i <= j < old(output)@.len() ==> #[trigger] output@[j] == old(output)@[j],
        decreases output@.len() - i,
    {
        output[i] = average(left[i], right[i]);
        i += 1;
    }
}

/// As many frames are mixed as the shortest of the three buffers has.
pub proof fn law_mixing_stops_at_the_shortest(a: int, b: int, c: int)
    ensures
        shortest(a, b, c) <= a,
        shortest(a, b, c) <= b,
        shortest(a, b, c) <= c,
        shortest(a, b, c) == a || shortest(a, b, c) == b || shortest(a, b, c) == c,
{
}

/// The output is to be cleared if both inputs are silent, or one of them or the output is
/// missing. It is not silent in any other case.
pub proof fn law_mono_is_silent_if_both_sides_are(
    in_silence_mask: SilenceMask,
    num_inputs: usize,
    num_outputs: usize,
    status: ProcessStatus,
)
    requires
        call_ensures(stereo_to_mono_status, (in_silence_mask, num_inputs, num_outputs), status),
    ensures
        in_silence_mask.silent(0) && in_silence_mask.silent(1) ==> status is ClearAllOutputs,
        num_inputs < 2 || num_outputs == 0 ==> status is ClearAllOutputs,
        num_inputs >= 2 && num_outputs > 0 && !in_silence_mask.silent(0)
            ==> status is OutputsModified && !status->out_silence_mask.silent(0),
        num_inputs >= 2 && num_outputs > 0 && !in_silence_mask.silent(1)
            ==> status is OutputsModified && !status->out_silence_mask.silent(0),
{
}

} // verus!
