//! A generator of white noise.

use crate::channel_config::{ChannelConfig, ChannelCount};
use crate::node::AudioNodeInfo;
use vstd::prelude::*;

verus! {

/// The configuration of a white noise generator.
#[derive(Debug, Clone, Copy, PartialEq, Eq, Structural)]
pub struct WhiteNoiseGenConfig {
    /// The starting seed. This cannot be zero.
    pub seed: i32,
}

impl Default for WhiteNoiseGenConfig {
    fn default() -> (config: Self)
        ensures
            config.seed == 17,
    {
        WhiteNoiseGenConfig { seed: 17 }
    }
}

/// The next state of the generator.
pub open spec fn next_noise(fpd: i32) -> i32 {
    let a = fpd ^ (fpd << 13);
    let b = a ^ (a >> 17);
    b ^ (b << 5)
}

/// The state of the generator of a white noise node.
#[derive(Debug, Clone, Copy, PartialEq, Eq, Structural)]
pub struct NoiseGenerator {
    fpd: i32,
}

impl NoiseGenerator {
    /// The state.
    pub closed spec fn state(self) -> i32 {
        self.fpd
    }

    /// A generator with a starting seed. The seed cannot be zero: it is replaced.
    pub fn new(config: &WhiteNoiseGenConfig) -> (generator: Self)
        ensures
            generator.state() == (if config.seed == 0 {
                17
            } else {
                config.seed
            }),
            generator.state() != 0,
    {
        NoiseGenerator {
            fpd: if config.seed == 0 {
                17
            } else {
                config.seed
            },
        }
    }

    /// The next random value.
    pub fn next(&mut self) -> (value: i32)
        ensures
            value == next_noise(old(self).state()),
            ({
                let a = old(self).state() ^ (old(self).state() << 13);
                let b = a ^ (a >> 17);
                value == b ^ (b << 5)
            }),
            final(self).state() == value,
    {
        self.fpd = self.fpd ^ (self.fpd << 13);
        self.fpd = self.fpd ^ (self.fpd >> 17);
        self.fpd = self.fpd ^ (self.fpd << 5);
        self.fpd
    }
}

/// The bits of the state are shifted and added to it without carries: to the left by 13
/// places, then to the right by 17 and to the left by 5. So the states that follow two states
/// add up to the one that follows their sum.
pub proof fn law_noise_is_additive(first: i32, second: i32)
    ensures
        next_noise(first ^ second) == next_noise(first) ^ next_noise(second),
        ({
            let a = first ^ (first << 13);
            let b = a ^ (a >> 17);
            next_noise(first) ^ (b << 5) == b
        }),
{
    assert(({
        let c = first ^ second;
        let c1 = c ^ (c << 13);
        let c2 = c1 ^ (c1 >> 17);
        let a1 = first ^ (first << 13);
        let a2 = a1 ^ (a1 >> 17);
        let b1 = second ^ (second << 13);
        let b2 = b1 ^ (b1 >> 17);
        c2 ^ (c2 << 5) == (a2 ^ (a2 << 5)) ^ (b2 ^ (b2 << 5))
    })) by (bit_vector);
    let a = first ^ (first << 13);
    let b = a ^ (a >> 17);
    assert((b ^ (b << 5)) ^ (b << 5) == b) by (bit_vector);
}

/// The information about a white noise generator: it has one output.
pub fn white_noise_gen_info() -> (info: AudioNodeInfo)
    ensures
        info.debug_name@ == "white_noise_gen"@,
        info.channel_config.inputs() == 0,
        info.channel_config.outputs() == 1,
        !info.call_update_method,
{
    AudioNodeInfo::new(
        "white_noise_gen",
        ChannelConfig { num_inputs: ChannelCount::zero(), num_outputs: ChannelCount::mono() },
    )
}

} // verus!
