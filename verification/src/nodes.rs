//! The state machines and rules of the factory nodes.

pub mod delay_compensation;
pub mod noise_generator;
pub mod peak_meter;
pub mod sampler;
pub mod stereo_to_mono;
pub mod stream;
pub mod svf;
pub mod volume_pan;
