//! The control channel: a low-dimensional bias on a torus that steers a generator.
pub mod bias_channel;
