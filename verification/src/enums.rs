//! The choices that a stream is described by.
pub mod streaming;
