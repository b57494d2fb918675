//! Failures of the debug target.

use vstd::prelude::*;

use crate::text::digits::{hex_prefixed, push_hex_prefixed};
use crate::ttd::error::{ttd_error_text, TtdError};

verus! {

/// What the debug target could not do.
#[derive(Debug)]
pub enum DebugError {
    Ttd(TtdError),
    NotLoaded,
    InvalidAddress(u64),
    ReplayFailed(String),
    TargetXmlNotFound(String),
    BreakpointRegister { addr: u64, source: TtdError },
}

/// The text of a target failure.
pub open spec fn debug_error_text(e: DebugError) -> Seq<char> {
    match e {
        DebugError::Ttd(source) => "TTD error: "@ + ttd_error_text(source),
        DebugError::NotLoaded => "No trace loaded"@,
        DebugError::InvalidAddress(addr) => "Invalid address: "@ + hex_prefixed(addr as nat),
        DebugError::ReplayFailed(what) => "Replay failed: "@ + what@,
        DebugError::TargetXmlNotFound(annex) => "Target description XML not found: "@ + annex@,
        DebugError::BreakpointRegister { addr, source } => "Failed to register breakpoint at "@
            + hex_prefixed(addr as nat) + ": "@ + ttd_error_text(source),
    }
}

impl DebugError {
    /// The failure in words.
    pub fn message(&self) -> (r: String)
        ensures
            r@ == debug_error_text(*self),
    {
        let mut out = String::new();
        match self {
            DebugError::Ttd(source) => {
                out.append("TTD error: ");
                out.append(source.message().as_str());
            },
            DebugError::NotLoaded => out.append("No trace loaded"),
            DebugError::InvalidAddress(addr) => {
                out.append("Invalid address: ");
                push_hex_prefixed(&mut out, *addr);
            },
            DebugError::ReplayFailed(what) => {
                out.append("Replay failed: ");
                out.append(what.as_str());
            },
            DebugError::TargetXmlNotFound(annex) => {
                out.append("Target description XML not found: ");
                out.append(annex.as_str());
            },
            DebugError::BreakpointRegister { addr, source } => {
                out.append("Failed to register breakpoint at ");
                push_hex_prefixed(&mut out, *addr);
                out.append(": ");
                out.append(source.message().as_str());
            },
        }
        assert(out@ =~= debug_error_text(*self));
        out
    }
}

} // verus!
