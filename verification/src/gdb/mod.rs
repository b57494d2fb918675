//! The GDB Remote Serial Protocol frontend.

pub mod checkpoint;
pub mod commands;
pub mod mapping;
pub mod monitor;
pub mod packet;
pub mod regs;
pub mod resume;
pub mod runner;
pub mod session;
pub mod target;
pub mod xml;
