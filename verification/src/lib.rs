//! Streaming of captured audio to network renderers: stream headers, sample
//! transport, latency measurement and the rules of the set-up wizard.
//!
//! Audio samples are handled by their binary32 bit patterns (see [`sample`]).
pub mod autocalibrate;
pub mod channel;
pub mod debug_agent;
pub mod enums;
pub mod latency;
pub mod laws;
pub mod listener;
pub mod paths;
pub mod sample;
pub mod utils;
