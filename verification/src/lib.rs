//! Replay debugging of recorded traces over the GDB Remote Serial Protocol.

pub mod bytes;
pub mod client;
pub mod gdb;
pub mod laws;
pub mod order;
pub mod rsp;
pub mod target;
pub mod text;
pub mod ttd;
