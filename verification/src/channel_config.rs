//! Channel counts and the channel configuration of a node.

use vstd::prelude::*;

verus! {

/// The largest number of channels that a node can have in either direction.
pub const MAX_CHANNELS: u32 = 64;

/// A number of channels, at most [`MAX_CHANNELS`].
#[derive(Debug, Clone, Copy, PartialEq, Eq, Hash, Structural)]
pub struct ChannelCount {
    count: u32,
}

impl ChannelCount {
    #[verifier::type_invariant]
    spec fn in_range(self) -> bool {
        self.count <= MAX_CHANNELS
    }

    /// The number of channels.
    pub closed spec fn spec_get(self) -> u32 {
        self.count
    }

    /// A channel count, unless `count` is greater than [`MAX_CHANNELS`].
    pub fn new(count: u32) -> (result: Option<Self>)
        ensures
            match result {
                Some(c) => count <= MAX_CHANNELS && c.spec_get() == count,
                None => count > MAX_CHANNELS,
            },
    {
        if count <= MAX_CHANNELS {
            Some(ChannelCount { count })
        } else {
            None
        }
    }

    /// No channels at all.
    pub fn zero() -> (result: Self)
        ensures
            result.spec_get() == 0,
    {
        ChannelCount { count: 0 }
    }

    /// One channel.
    pub fn mono() -> (result: Self)
        ensures
            result.spec_get() == 1,
    {
        ChannelCount { count: 1 }
    }

    /// Two channels.
    pub fn stereo() -> (result: Self)
        ensures
            result.spec_get() == 2,
    {
        ChannelCount { count: 2 }
    }

    /// The number of channels.
    pub fn get(&self) -> (count: u32)
        ensures
            count == self.spec_get(),
            count <= MAX_CHANNELS,
    {
        proof {
            use_type_invariant(self);
        }
        self.count
    }
}

/// A number of channels that is not zero, at most [`MAX_CHANNELS`].
#[derive(Debug, Clone, Copy, PartialEq, Eq, Hash, Structural)]
pub struct NonZeroChannelCount {
    count: ChannelCount,
}

impl NonZeroChannelCount {
    #[verifier::type_invariant]
    spec fn nonzero(self) -> bool {
        self.count.spec_get() > 0
    }

    /// The number of channels.
    pub closed spec fn spec_get(self) -> u32 {
        self.count.spec_get()
    }

    /// A channel count, unless `count` is zero or greater than
    /// [`MAX_CHANNELS`].
    pub fn new(count: u32) -> (result: Option<Self>)
        ensures
            match result {
                Some(c) => 0 < count <= MAX_CHANNELS && c.spec_get() == count,
                None => count == 0 || count > MAX_CHANNELS,
            },
    {
        match ChannelCount::new(count) {
            Some(c) => if count > 0 {
                Some(NonZeroChannelCount { count: c })
            } else {
                None
            },
            None => None,
        }
    }

    /// One channel.
    pub fn mono() -> (result: Self)
        ensures
            result.spec_get() == 1,
    {
        NonZeroChannelCount { count: ChannelCount::mono() }
    }

    /// Two channels.
    pub fn stereo() -> (result: Self)
        ensures
            result.spec_get() == 2,
    {
        NonZeroChannelCount { count: ChannelCount::stereo() }
    }

    /// The count as one that may be zero.
    pub fn get(&self) -> (count: ChannelCount)
        ensures
            count.spec_get() == self.spec_get(),
            0 < count.spec_get() <= MAX_CHANNELS,
    {
        proof {
            use_type_invariant(self);
            use_type_invariant(&self.count);
        }
        self.count
    }
}

/// The number of input and output channels of a node.
#[derive(Debug, Clone, Copy, PartialEq, Eq, Hash, Structural)]
pub struct ChannelConfig {
    pub num_inputs: ChannelCount,
    pub num_outputs: ChannelCount,
}

impl ChannelConfig {
    /// The number of inputs.
    pub open spec fn inputs(self) -> u32 {
        self.num_inputs.spec_get()
    }

    /// The number of outputs.
    pub open spec fn outputs(self) -> u32 {
        self.num_outputs.spec_get()
    }
}

/// What a configuration says of its inputs and outputs is what it was made of.
pub proof fn law_config_is_what_it_is_made_of(num_inputs: ChannelCount, num_outputs: ChannelCount)
    ensures
        (ChannelConfig { num_inputs, num_outputs }).inputs() == num_inputs.spec_get(),
        (ChannelConfig { num_inputs, num_outputs }).outputs() == num_outputs.spec_get(),
{
}

/// A number of channels is taken if there can be as many, and only if.
pub proof fn law_channel_counts_up_to_64(
    count: u32,
    result: Option<ChannelCount>,
    nonzero: Option<NonZeroChannelCount>,
)
    requires
        call_ensures(ChannelCount::new, (count,), result),
        call_ensures(NonZeroChannelCount::new, (count,), nonzero),
    ensures
        result is Some <==> count <= 64,
        result is Some ==> result->0.spec_get() == count,
        nonzero is Some <==> 1 <= count <= 64,
        nonzero is Some ==> nonzero->0.spec_get() == count,
{
}

} // verus!
