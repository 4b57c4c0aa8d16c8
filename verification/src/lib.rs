//! Decoding of Standard MIDI Files into typed, in-memory values.

pub mod events;
pub mod smf;
pub mod utils;
pub mod vlq;
