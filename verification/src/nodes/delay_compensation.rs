//! A node that delays its input by a fixed number of frames.

use crate::channel_config::{ChannelConfig, NonZeroChannelCount};
use crate::mask::SilenceMask;
use crate::node::{AudioNode, AudioNodeInfo};
use crate::processor::process::fill;
use vstd::prelude::*;

verus! {

/// The configuration of a [`DelayCompensationNode`].
#[derive(Debug, Clone, Copy, PartialEq, Eq, Structural)]
pub struct DelayCompNodeConfig {
    /// The number of input and output channels.
    pub channels: NonZeroChannelCount,
    /// The number of frames (samples in a single channel of audio) of
    /// delay compensation.
    pub delay_frames: usize,
}

impl Default for DelayCompNodeConfig {
    fn default() -> (config: Self)
        ensures
            config.channels.spec_get() == 2,
            config.delay_frames == 0,
    {
        DelayCompNodeConfig { channels: NonZeroChannelCount::stereo(), delay_frames: 0 }
    }
}

/// A node that delays its input by a fixed number of frames.
#[derive(Debug, Clone, Copy, PartialEq, Eq, Structural)]
pub struct DelayCompensationNode;

impl AudioNode for DelayCompensationNode {
    type Configuration = DelayCompNodeConfig;

    fn info(&self, config: &DelayCompNodeConfig) -> (info: AudioNodeInfo)
        ensures
            info.debug_name@ == "stereo_to_mono"@,
            info.channel_config.inputs() == config.channels.spec_get(),
            info.channel_config.outputs() == config.channels.spec_get(),
            !info.call_update_method,
    {
        AudioNodeInfo::new(
            "stereo_to_mono",
            ChannelConfig { num_inputs: config.channels.get(), num_outputs: config.channels.get() },
        )
    }
}

/// The delay of one channel. `S` is a sample.
pub struct DelayLine<S> {
    buffer: Vec<S>,
    ptr: usize,
    num_silent_frames: usize,
}

impl<S> View for DelayLine<S> {
    type V = Seq<S>;

    /// The frames that are delayed, the oldest first.
    closed spec fn view(&self) -> Seq<S> {
        self.buffer@.skip(self.ptr as int) + self.buffer@.take(self.ptr as int)
    }
}

/// Whether the first `n` samples are silent.
pub open spec fn silent_up_to<S>(samples: Seq<S>, n: int, silence: S) -> bool {
    forall|i: int| 0 <= i < n ==> #[trigger] samples[i] == silence
}

impl<S: Copy> DelayLine<S> {
    /// Well-formedness: there are frames, and as many of the last ones as are counted
    /// are silent.
    pub closed spec fn wf(&self, silence: S) -> bool {
        &&& 0 < self.buffer@.len()
        &&& self.ptr < self.buffer@.len()
        &&& self.num_silent_frames <= self.buffer@.len()
        &&& forall|i: int|
            self.buffer@.len() - self.num_silent_frames <= i < self.buffer@.len()
                ==> #[trigger] self@[i] == silence
    }

    /// The number of frames at the end that are known to be silent.
    pub closed spec fn silent_frames(&self) -> int {
        self.num_silent_frames as int
    }

    /// A delay of `delay_frames` frames, all silent.
    pub fn new(delay_frames: usize, silence: S) -> (line: Self)
        requires
            delay_frames > 0,
        ensures
            line.wf(silence),
            line@ == Seq::new(delay_frames as nat, |i: int| silence),
            line.silent_frames() == delay_frames,
    {
        let mut buffer: Vec<S> = Vec::with_capacity(delay_frames);
        for i in 0..delay_frames
            invariant
                buffer@ == Seq::new(i as nat, |j: int| silence),
        {
            buffer.push(silence);
            assert(buffer@ =~= Seq::new((i + 1) as nat, |j: int| silence));
        }
        let line = DelayLine { buffer, ptr: 0, num_silent_frames: delay_frames };
        assert(line@ =~= Seq::new(delay_frames as nat, |i: int| silence));
        line
    }

    /// Fills the delay with silence.
    pub fn reset(&mut self, silence: S)
        requires
            old(self).wf(silence),
        ensures
            final(self).wf(silence),
            final(self)@ == Seq::new(old(self)@.len(), |i: int| silence),
            final(self).silent_frames() == old(self)@.len(),
    {
        let len: usize = self.buffer.len();
        for i in 0..len
            invariant
                len == self.buffer@.len(),
                len == old(self).buffer@.len(),
                self.ptr == old(self).ptr,
                forall|j: int| 0 <= j < i ==> #[trigger] self.buffer@[j] == silence,
        {
            self.buffer.set(i, silence);
        }
        self.num_silent_frames = len;
        assert(self@ =~= Seq::new(old(self)@.len(), |i: int| silence));
    }

    /// Delays `frames` frames of a channel. `in_silent` and `out_silent` tell that the
    /// buffers are known to be silent. Returns whether the output is known to be
    /// silent.
    #[verifier::spinoff_prover]
    #[verifier::rlimit(40)]
    pub fn process(
        &mut self,
        input: &[S],
        output: &mut [S],
        frames: usize,
        in_silent: bool,
        out_silent: bool,
        silence: S,
    ) -> (silent: bool)
        requires
            old(self).wf(silence),
            frames <= input@.len(),
            frames <= old(output)@.len(),
            in_silent ==> silent_up_to(input@, frames as int, silence),
            out_silent ==> silent_up_to(old(output)@, frames as int, silence),
            old(self)@.len() + frames <= usize::MAX,
        ensures
            final(self).wf(silence),
            final(output)@.len() == old(output)@.len(),
            final(output)@.take(frames as int) == (old(self)@ + input@.take(frames as int)).take(
                frames as int,
            ),
            final(output)@.skip(frames as int) == old(output)@.skip(frames as int),
            final(self)@ == (old(self)@ + input@.take(frames as int)).skip(frames as int),
            silent == (old(self).silent_frames() == old(self)@.len() && (frames <= old(self)@.len()
                || in_silent)),
            silent ==> silent_up_to(final(output)@, frames as int, silence),
            final(self).silent_frames() == (if !in_silent {
                0
            } else if old(self).silent_frames() + frames < old(self)@.len() {
                old(self).silent_frames() + frames
            } else {
                old(self)@.len() as int
            }),
    {
        let ghost queue = self@;
        let ghost buffer0 = self.buffer@;
        let ghost f = frames as int;
        let ghost all = queue + input@.take(f);
        let delay_frames: usize = self.buffer.len();
        let ghost d = delay_frames as int;
        let ghost p0 = self.ptr as int;
        let num_silent0: usize = self.num_silent_frames;
        let clear_output = num_silent0 == delay_frames && (frames <= delay_frames || in_silent);
        proof {
            assert(queue.len() == d);
            assert forall|i: int| 0 <= i < d implies #[trigger] queue[i] == buffer0[if p0 + i < d {
                p0 + i
            } else {
                p0 + i - d
            }] by {}
        }
        if clear_output {
            if !out_silent {
                fill(output, 0, frames, silence);
            }
            proof {
                assert(output@.take(f) =~= all.take(f)) by {
                    assert forall|i: int| 0 <= i < f implies #[trigger] output@[i] == all[i] by {
                        assert(output@[i] == silence);
                        if i < d {
                            assert(queue[i] == silence);
                        } else {
                            assert(input@[i - d] == silence);
                        }
                    }
                }
            }
        } else {
            let mut i: usize = 0;
            while i < frames
                invariant
                    f == frames,
                    d == delay_frames,
                    p0 == self.ptr,
                    *self == *old(self),
                    buffer0 == self.buffer@,
                    queue == self@,
                    all == queue + input@.take(f),
                    delay_frames == self.buffer@.len(),
                    self.ptr < delay_frames,
                    self.ptr + frames <= usize::MAX + self.ptr,
                    delay_frames + frames <= usize::MAX,
                    frames <= input@.len(),
                    frames <= output@.len(),
                    output@.len() == old(output)@.len(),
                    i <= frames,
                    forall|j: int| 0 <= j < i ==> #[trigger] output@[j] == all[j],
                    forall|j: int| i <= j < output@.len() ==> #[trigger] output@[j] == old(output)@[j],
                decreases frames - i,
            {
                if i < delay_frames {
                    let position: usize = if i < delay_frames - self.ptr {
                        self.ptr + i
                    } else {
                        i - (delay_frames - self.ptr)
                    };
                    assert(queue[i as int] == buffer0[position as int]);
                    output[i] = self.buffer[position];
                } else {
                    output[i] = input[i - delay_frames];
                }
                i += 1;
            }
            assert(output@.take(f) =~= all.take(f));
        }
        assert(output@.skip(f) =~= old(output)@.skip(f));

        if !in_silent || num_silent0 < delay_frames {
            // The last frames of the input take the place of the oldest ones.
            let extra: usize = if frames > delay_frames {
                frames - delay_frames
            } else {
                0
            };
            let mut i: usize = extra;
            let ghost e = extra as int;
            while i < frames
                invariant
                    f == frames,
                    e == extra,
                    d == delay_frames,
                    p0 == self.ptr,
                    self.ptr == old(self).ptr,
                    self.num_silent_frames == old(self).num_silent_frames,
                    delay_frames == self.buffer@.len(),
                    self.buffer@.len() == buffer0.len(),
                    self.ptr < delay_frames,
                    frames <= input@.len(),
                    extra == (if frames > delay_frames {
                        frames - delay_frames
                    } else {
                        0
                    }),
                    extra <= i <= frames,
                    forall|j: int|
                        0 <= j < d ==> #[trigger] self.buffer@[j] == {
                            let k = if j >= p0 {
                                j - p0
                            } else {
                                j - p0 + d
                            };
                            if k < i - e {
                                input@[e + k]
                            } else {
                                buffer0[j]
                            }
                        },
                decreases frames - i,
            {
                let k: usize = i - extra;
                let position: usize = if k < delay_frames - self.ptr {
                    self.ptr + k
                } else {
                    k - (delay_frames - self.ptr)
                };
                self.buffer.set(position, input[i]);
                i += 1;
            }
        } else {
            proof {
                // Everything is silent already.
                assert forall|j: int| 0 <= j < d implies #[trigger] self.buffer@[j] == silence by {
                    let k = if j >= p0 {
                        j - p0
                    } else {
                        j - p0 + d
                    };
                    assert(queue[k] == silence);
                }
            }
        }
        if frames < delay_frames {
            let ptr: usize = if frames < delay_frames - self.ptr {
                self.ptr + frames
            } else {
                frames - (delay_frames - self.ptr)
            };
            self.ptr = ptr;
        }
        self.num_silent_frames = if in_silent {
            if frames < delay_frames - num_silent0 {
                num_silent0 + frames
            } else {
                delay_frames
            }
        } else {
            0
        };
        proof {
            let p1 = self.ptr as int;
            let b = self.buffer@;
            assert forall|i: int| 0 <= i < d implies #[trigger] self@[i] == all[f + i] by {
                let j = if p1 + i < d {
                    p1 + i
                } else {
                    p1 + i - d
                };
                assert(self@[i] == b[j]);
                if in_silent && num_silent0 == d {
                    assert(b[j] == silence);
                    if f + i < d {
                        assert(queue[f + i] == silence);
                    } else {
                        assert(input@[f + i - d] == silence);
                    }
                } else if f + i < d {
                    assert(queue[f + i] == buffer0[j]);
                } else {
                    assert(all[f + i] == input@[f + i - d]);
                }
            }
            assert(self@ =~= all.skip(f));
            assert forall|i: int| d - self.num_silent_frames <= i < d implies #[trigger] self@[i]
                == silence by {
                if f + i < d {
                    assert(queue[f + i] == silence);
                } else {
                    assert(input@[f + i - d] == silence);
                }
            }
        }
        clear_output
    }
}

/// The state of a [`DelayCompensationNode`]: a delay for each channel, or none at all
/// if there is nothing to delay.
pub struct DelayCompProcessor<S> {
    lines: Vec<DelayLine<S>>,
}

impl<S: Copy> DelayCompProcessor<S> {
    /// The delays of the channels.
    pub closed spec fn lines(&self) -> Seq<DelayLine<S>> {
        self.lines@
    }

    /// Well-formedness: that of each delay.
    pub open spec fn wf(&self, silence: S) -> bool {
        forall|i: int| 0 <= i < self.lines().len() ==> (#[trigger] self.lines()[i]).wf(silence)
    }

    /// The state of a node that has not processed anything yet.
    pub fn new(config: &DelayCompNodeConfig, silence: S) -> (processor: Self)
        ensures
            processor.wf(silence),
            processor.lines().len() == (if config.delay_frames == 0 {
                0
            } else {
                config.channels.spec_get() as int
            }),
            forall|i: int|
                0 <= i < processor.lines().len() ==> (#[trigger] processor.lines()[i])@ == Seq::new(
                    config.delay_frames as nat,
                    |j: int| silence,
                ) && processor.lines()[i].silent_frames() == config.delay_frames,
    {
        let mut lines: Vec<DelayLine<S>> = Vec::new();
        if config.delay_frames > 0 {
            let num: u32 = config.channels.get().get();
            for ch in 0..num
                invariant
                    config.delay_frames > 0,
                    lines@.len() == ch,
                    forall|i: int|
                        0 <= i < lines@.len() ==> (#[trigger] lines@[i]).wf(silence) && lines@[i]@
                            == Seq::new(config.delay_frames as nat, |j: int| silence)
                            && lines@[i].silent_frames() == config.delay_frames,
            {
                lines.push(DelayLine::new(config.delay_frames, silence));
            }
        }
        DelayCompProcessor { lines }
    }

    /// Whether there is nothing to delay.
    pub fn is_bypassed(&self) -> (bypassed: bool)
        ensures
            bypassed == (self.lines().len() == 0),
    {
        self.lines.is_empty()
    }

    /// Delays `frames` frames of channel `ch`, and marks it in the mask of the outputs
    /// if it is known to be silent.
    pub fn process_channel(
        &mut self,
        ch: usize,
        input: &[S],
        output: &mut [S],
        frames: usize,
        in_silence_mask: SilenceMask,
        out_silence_mask: SilenceMask,
        silence: S,
        result_mask: &mut SilenceMask,
    )
        requires
            old(self).wf(silence),
            ch < old(self).lines().len(),
            ch < 64,
            frames <= input@.len(),
            frames <= old(output)@.len(),
            in_silence_mask.silent(ch as int) ==> silent_up_to(input@, frames as int, silence),
            out_silence_mask.silent(ch as int) ==> silent_up_to(
                old(output)@,
                frames as int,
                silence,
            ),
            old(self).lines()[ch as int]@.len() + frames <= usize::MAX,
        ensures
            final(self).wf(silence),
            final(self).lines().len() == old(self).lines().len(),
            forall|i: int|
                0 <= i < old(self).lines().len() && i != ch ==> #[trigger] final(self).lines()[i]
                    == old(self).lines()[i],
            ({
                let before = old(self).lines()[ch as int];
                let all = before@ + input@.take(frames as int);
                let silent = before.silent_frames() == before@.len() && (frames <= before@.len()
                    || in_silence_mask.silent(ch as int));
                &&& final(self).lines()[ch as int]@ == all.skip(frames as int)
                &&& final(output)@.len() == old(output)@.len()
                &&& final(output)@.take(frames as int) == all.take(frames as int)
                &&& final(output)@.skip(frames as int) == old(output)@.skip(frames as int)
                &&& silent ==> silent_up_to(final(output)@, frames as int, silence)
                &&& forall|j: int|
                    0 <= j < 64 ==> #[trigger] final(result_mask).silent(j) == (if j == ch && silent {
                        true
                    } else {
                        old(result_mask).silent(j)
                    })
            }),
    {
        let in_silent = in_silence_mask.is_channel_silent(ch);
        let out_silent = out_silence_mask.is_channel_silent(ch);
        let silent = self.lines[ch].process(input, output, frames, in_silent, out_silent, silence);
        if silent {
            result_mask.set_channel(ch, true);
        }
    }

    /// Called when a new audio stream has been started.
    pub fn new_stream(&mut self, silence: S)
        requires
            old(self).wf(silence),
        ensures
            final(self).wf(silence),
            final(self).lines().len() == old(self).lines().len(),
            forall|i: int|
                0 <= i < old(self).lines().len() ==> (#[trigger] final(self).lines()[i])@
                    == Seq::new(old(self).lines()[i]@.len(), |j: int| silence) && final(self).lines()[i].silent_frames() == old(self).lines()[i]@.len(),
    {
        let len: usize = self.lines.len();
        for i in 0..len
            invariant
                len == self.lines@.len(),
                len == old(self).lines@.len(),
                self.wf(silence),
                forall|j: int| i <= j < len ==> #[trigger] self.lines@[j] == old(self).lines@[j],
                forall|j: int|
                    0 <= j < i ==> (#[trigger] self.lines@[j])@ == Seq::new(
                        old(self).lines@[j]@.len(),
                        |k: int| silence,
                    ) && self.lines@[j].silent_frames() == old(self).lines@[j]@.len(),
        {
            assert(self.lines()[i as int].wf(silence));
            self.lines[i].reset(silence);
        }
    }
}

/// The delay does not depend on the sizes of the blocks: delaying one block and then
/// another gives what delaying both at once gives, and leaves the same frames
/// delayed.
pub proof fn law_delay_is_independent_of_blocks<S>(line: Seq<S>, first: Seq<S>, second: Seq<S>)
    ensures
        ({
            let n = first.len() as int;
            let m = second.len() as int;
            let between = (line + first).skip(n);
            &&& (line + first).take(n) + (between + second).take(m) == (line + (first
                + second)).take(n + m)
            &&& (between + second).skip(m) == (line + (first + second)).skip(n + m)
        }),
{
    let n = first.len() as int;
    let m = second.len() as int;
    let between = (line + first).skip(n);
    let all = line + (first + second);
    assert((line + first).take(n) + (between + second).take(m) =~= all.take(n + m));
    assert((between + second).skip(m) =~= all.skip(n + m));
}

/// What goes in comes out again after the delay, and silence before it.
pub proof fn law_input_comes_out_delayed<S>(delay_frames: nat, input: Seq<S>, silence: S, i: int)
    requires
        0 <= i < input.len(),
    ensures
        (Seq::new(delay_frames, |j: int| silence) + input).take(input.len() as int)[i] == (if i
            < delay_frames {
            silence
        } else {
            input[i - delay_frames]
        }),
{
}

/// Samples are silent up to a number if each of them is, and then up to any that is smaller.
pub proof fn law_silence_holds_up_to_any_smaller_number<S>(
    samples: Seq<S>,
    n: int,
    m: int,
    silence: S,
)
    requires
        m <= n <= samples.len(),
    ensures
        silent_up_to(samples, n, silence) ==> samples.take(n) == Seq::new(n as nat, |i: int| silence)
            || n < 0,
        silent_up_to(samples, n, silence) ==> silent_up_to(samples, m, silence),
        n > 0 && samples[n - 1] != silence ==> !silent_up_to(samples, n, silence),
{
    if 0 <= n && silent_up_to(samples, n, silence) {
        assert(samples.take(n) =~= Seq::new(n as nat, |i: int| silence));
    }
}

} // verus!
