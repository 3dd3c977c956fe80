//! Decoders for recordings produced by event-based vision sensors.
//!
//! A recording multiplexes one or more logical streams (pixel-change
//! events, image frames, inertial-measurement samples, discrete triggers)
//! into a single sequential byte stream. Two container layouts are
//! supported: a size-prefixed multi-stream container ([`aedat`]) and a
//! fixed-width single-stream container ([`event_stream`]). Each decoder
//! pulls one typed packet per call, validates geometry bounds and
//! enumerated codes, and stops at the first malformed block.

pub mod aedat;
pub mod event_stream;
pub mod records;
pub mod wire;
