//! Spatial filtering of packed 4:2:2 video frames, and the decisions of the
//! loop that carries frames from a capture source to a display sink.

pub mod format;
pub mod sampler;
pub mod neighbors;
pub mod kernel;
pub mod filter;
pub mod delivery;
pub mod bus;
