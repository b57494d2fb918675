//! Failures of the replay engine.

use vstd::prelude::*;

use crate::text::digits::{decimal, push_decimal};

verus! {

/// What the replay engine could not do.
#[derive(Debug)]
pub enum TtdError {
    EngineCreationFailed,
    TraceLoadFailed { path: String, code: i32 },
    IndexBuildFailed { code: i32 },
    CursorCreationFailed,
    NullPointer,
    Ffi(&'static str),
}

/// A signed number in decimal.
pub open spec fn signed(n: int) -> Seq<char> {
    if n < 0 {
        seq!['-'] + decimal((-n) as nat)
    } else {
        decimal(n as nat)
    }
}

/// The text of an engine failure.
pub open spec fn ttd_error_text(e: TtdError) -> Seq<char> {
    match e {
        TtdError::EngineCreationFailed => "Failed to create TTD replay engine"@,
        TtdError::TraceLoadFailed { path, code } => "Failed to load trace '"@ + path@
            + "': error code "@ + signed(code as int),
        TtdError::IndexBuildFailed { code } => "Failed to build trace index: error code "@ + signed(
            code as int,
        ),
        TtdError::CursorCreationFailed => "Failed to create cursor"@,
        TtdError::NullPointer => "Null pointer encountered"@,
        TtdError::Ffi(msg) => "FFI error: "@ + msg@,
    }
}

fn push_signed(out: &mut String, n: i32)
    ensures
        final(out)@ == old(out)@ + signed(n as int),
{
    if n < 0 {
        out.push('-');
        push_decimal(out, (-(n as i64)) as u64);
        assert(out@ =~= old(out)@ + signed(n as int));
    } else {
        push_decimal(out, n as u64);
    }
}

impl TtdError {
    /// The failure in words.
    pub fn message(&self) -> (r: String)
        ensures
            r@ == ttd_error_text(*self),
    {
        let mut out = String::new();
        match self {
            TtdError::EngineCreationFailed => out.append("Failed to create TTD replay engine"),
            TtdError::TraceLoadFailed { path, code } => {
                out.append("Failed to load trace '");
                out.append(path.as_str());
                out.append("': error code ");
                push_signed(&mut out, *code);
            },
            TtdError::IndexBuildFailed { code } => {
                out.append("Failed to build trace index: error code ");
                push_signed(&mut out, *code);
            },
            TtdError::CursorCreationFailed => out.append("Failed to create cursor"),
            TtdError::NullPointer => out.append("Null pointer encountered"),
            TtdError::Ffi(msg) => {
                out.append("FFI error: ");
                out.append(msg);
            },
        }
        assert(out@ =~= ttd_error_text(*self));
        out
    }
}

} // verus!
