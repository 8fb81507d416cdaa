//! Instants and durations. A time that is a number of seconds or of beats is
//! kept as the bits of its 64-bit floating point number.

use vstd::prelude::*;

verus! {

/// An absolute time in samples (of a single channel of audio).
#[derive(Debug, Clone, Copy, PartialEq, Eq, Hash, Structural)]
pub struct InstantSamples(pub i64);

/// The latest instant. It stands for a time that never comes.
pub const NEVER: i64 = 0x7FFF_FFFF_FFFF_FFFF;

/// A duration in samples (of a single channel of audio).
#[derive(Debug, Clone, Copy, PartialEq, Eq, Hash, Structural)]
pub struct DurationSamples(pub i64);

/// An absolute time in seconds.
#[derive(Debug, Clone, Copy, PartialEq, Eq, Hash, Structural)]
pub struct InstantSeconds(pub u64);

/// A duration in seconds.
#[derive(Debug, Clone, Copy, PartialEq, Eq, Hash, Structural)]
pub struct DurationSeconds(pub u64);

/// A musical time in beats.
#[derive(Debug, Clone, Copy, PartialEq, Eq, Hash, Structural)]
pub struct InstantMusical(pub u64);

/// A musical duration in beats.
#[derive(Debug, Clone, Copy, PartialEq, Eq, Hash, Structural)]
pub struct DurationMusical(pub u64);

/// The time at which an event is scheduled to happen.
#[derive(Debug, Clone, Copy, PartialEq, Eq, Hash, Structural)]
pub enum EventInstant {
    /// The event happens at a time on the sample clock.
    Samples(InstantSamples),
    /// The event happens at a time on the clock in seconds.
    Seconds(InstantSeconds),
    /// The event happens at a time of the musical transport.
    Musical(InstantMusical),
}

impl EventInstant {
    /// Whether the time is one of the musical transport.
    pub fn is_musical(&self) -> (musical: bool)
        ensures
            musical == (*self is Musical),
    {
        match self {
            EventInstant::Musical(_) => true,
            _ => false,
        }
    }
}

} // verus!
