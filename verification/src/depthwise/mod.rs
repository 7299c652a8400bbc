//! A depthwise 2D convolution: one input channel per group, one output channel
//! per group.
//!
//! A unit takes a vector of neighbouring channels: in NHWC they sit together
//! in memory, every one of them reads the same taps, and the weights are laid
//! out `[kh, kw, c]` so a tap's weights for those channels are one vector too.

pub mod kernel;
pub mod launch;
pub mod laws;
pub mod model;
pub mod positions;
pub mod results;
