//! The replay engine as the rest of the library sees it: plain values.

pub mod cursor;
pub mod engine;
pub mod error;
pub mod types;
