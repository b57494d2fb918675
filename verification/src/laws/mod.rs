//! What the operations are for, stated over their calls.
//!
//! Each law takes what a call was given and what came of it, and says what that
//! means for whoever made the call.

pub mod breakpoints;
pub mod commands;
pub mod documents;
pub mod engine;
pub mod execution;
pub mod monitor;
pub mod numbers;
pub mod registers;
pub mod sessions;
pub mod stops;
pub mod targets;
pub mod text;
pub mod watching;
pub mod wire;
