//! Building blocks of the streaming path and of the set-up.
pub mod bytes;
pub mod conditioning;
pub mod configuration;
pub mod local_ip_address;
pub mod rwstream;
pub mod samples_conv;
pub mod text;
pub mod wave_header;
pub mod wizard;
