//! What the operations of the library do, told by what goes into a call and what
//! comes out of it.
pub mod headers;
pub mod reads;
pub mod queue;
pub mod detection;
pub mod calibration;
pub mod latency;
pub mod records;
pub mod text;
pub mod setup;
