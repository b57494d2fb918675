//! What the replay engine knows of a loaded trace.

use vstd::prelude::*;

use super::error::TtdError;
use super::types::{TtdExceptionEvent, TtdPosition, TtdPositionRange, TtdThreadInfo};
use crate::target::{module_views, Module, ModuleInfo};
use crate::text::utf8::{text_from_utf16, utf16_text};

verus! {

/// How far the opening of a trace has come: what is to be done next.
#[derive(Clone, Copy, Debug, PartialEq, Eq, Structural)]
pub enum OpenStage {
    /// Create the engine.
    Create,
    /// Load the trace file.
    Load,
    /// Build the memory index: without it, old memory reads back as zero.
    BuildIndex,
    /// The trace can be replayed.
    Ready,
}

/// The stage after one that succeeded.
pub open spec fn following(stage: OpenStage) -> OpenStage {
    match stage {
        OpenStage::Create => OpenStage::Load,
        OpenStage::Load => OpenStage::BuildIndex,
        OpenStage::BuildIndex | OpenStage::Ready => OpenStage::Ready,
    }
}

/// The engine's answer means failure of the stage: any code but zero. Once the
/// trace is ready there is nothing left to fail.
pub open spec fn stage_fails(stage: OpenStage, code: i32) -> bool {
    code != 0 && stage != OpenStage::Ready
}

/// Go on with opening a trace, given the engine's code for the current stage.
pub fn next_stage(stage: OpenStage, path: &str, code: i32) -> (r: Result<OpenStage, TtdError>)
    ensures
        r is Err <==> stage_fails(stage, code),
        r matches Ok(next) ==> next == following(stage),
        r matches Err(e) ==> (match stage {
            OpenStage::Create => e is EngineCreationFailed,
            OpenStage::Load => e is TraceLoadFailed && e->path@ == path@
                && e->TraceLoadFailed_code == code,
            _ => e is IndexBuildFailed && e->IndexBuildFailed_code == code,
        }),
{
    match stage {
        OpenStage::Create => if code != 0 {
            Err(TtdError::EngineCreationFailed)
        } else {
            Ok(OpenStage::Load)
        },
        OpenStage::Load => if code != 0 {
            Err(TtdError::TraceLoadFailed { path: String::from_str(path), code })
        } else {
            Ok(OpenStage::BuildIndex)
        },
        OpenStage::BuildIndex => if code != 0 {
            Err(TtdError::IndexBuildFailed { code })
        } else {
            Ok(OpenStage::Ready)
        },
        OpenStage::Ready => Ok(OpenStage::Ready),
    }
}

/// The code units before the first NUL.
pub open spec fn before_nul(units: Seq<u16>) -> Seq<u16>
    decreases units.len(),
{
    if units.len() == 0 || units[0] == 0 {
        Seq::empty()
    } else {
        seq![units[0]] + before_nul(units.skip(1))
    }
}

/// The code units before the first NUL.
pub fn cut_at_nul(units: &[u16]) -> (r: Vec<u16>)
    ensures
        r@ == before_nul(units@),
{
    let mut out: Vec<u16> = Vec::new();
    let mut i: usize = 0;
    assert(units@.skip(0) =~= units@);
    assert(out@ + before_nul(units@) =~= before_nul(units@));
    while i < units.len() && units[i] != 0
        invariant
            i <= units@.len(),
            out@ + before_nul(units@.skip(i as int)) == before_nul(units@),
        decreases units@.len() - i,
    {
        let ghost before = out@;
        let ghost rest = units@.skip(i as int);
        out.push(units[i]);
        assert(rest.skip(1) =~= units@.skip(i as int + 1));
        assert(out@ + before_nul(units@.skip(i as int + 1)) =~= before + before_nul(rest));
        i = i + 1;
    }
    assert(before_nul(units@.skip(i as int)) =~= Seq::<u16>::empty());
    assert(out@ =~= before_nul(units@));
    out
}

/// The name in a NUL-terminated buffer of UTF-16 code units.
pub fn name_from_buffer(units: &[u16]) -> (r: String)
    ensures
        r@ == utf16_text(before_nul(units@)),
{
    let name = cut_at_nul(units);
    text_from_utf16(name.as_slice())
}

/// A loaded trace: its extent, threads, recorded exceptions and modules.
pub struct TtdEngine {
    first: TtdPosition,
    last: TtdPosition,
    threads: Vec<TtdThreadInfo>,
    exceptions: Vec<TtdExceptionEvent>,
    modules: Vec<ModuleInfo>,
}

/// What a [`TtdEngine`] knows.
pub struct TraceFacts {
    pub first: TtdPosition,
    pub last: TtdPosition,
    pub threads: Seq<TtdThreadInfo>,
    pub exceptions: Seq<TtdExceptionEvent>,
    pub modules: Seq<Module>,
}

impl View for TtdEngine {
    type V = TraceFacts;

    closed spec fn view(&self) -> TraceFacts {
        TraceFacts {
            first: self.first,
            last: self.last,
            threads: self.threads@,
            exceptions: self.exceptions@,
            modules: module_views(self.modules@),
        }
    }
}

impl TtdEngine {
    /// The engine of a trace that is ready.
    pub fn open(
        first: TtdPosition,
        last: TtdPosition,
        threads: Vec<TtdThreadInfo>,
        exceptions: Vec<TtdExceptionEvent>,
        modules: Vec<ModuleInfo>,
    ) -> (r: TtdEngine)
        ensures
            r@ == (TraceFacts {
                first,
                last,
                threads: threads@,
                exceptions: exceptions@,
                modules: module_views(modules@),
            }),
    {
        TtdEngine { first, last, threads, exceptions, modules }
    }

    /// The first position of the trace.
    pub fn first_position(&self) -> (r: TtdPosition)
        ensures
            r == self@.first,
    {
        self.first
    }

    /// The last position of the trace.
    pub fn last_position(&self) -> (r: TtdPosition)
        ensures
            r == self@.last,
    {
        self.last
    }

    /// The extent of the trace.
    pub fn lifetime(&self) -> (r: TtdPositionRange)
        ensures
            r.min == self@.first,
            r.max == self@.last,
    {
        TtdPositionRange { min: self.first_position(), max: self.last_position() }
    }

    /// How many threads ever existed.
    pub fn thread_count(&self) -> (r: usize)
        ensures
            r == self@.threads.len(),
    {
        self.threads.len()
    }

    /// One of the threads.
    pub fn thread_info(&self, idx: usize) -> (r: Option<TtdThreadInfo>)
        ensures
            r == (if idx < self@.threads.len() {
                Some(self@.threads[idx as int])
            } else {
                None
            }),
    {
        if idx >= self.thread_count() {
            return None;
        }
        Some(self.threads[idx])
    }

    /// All threads that ever existed.
    pub fn thread_list(&self) -> (r: &[TtdThreadInfo])
        ensures
            r@ == self@.threads,
    {
        self.threads.as_slice()
    }

    /// How many exceptions were recorded.
    pub fn exception_count(&self) -> (r: usize)
        ensures
            r == self@.exceptions.len(),
    {
        self.exceptions.len()
    }

    /// One of the recorded exceptions.
    pub fn exception_event(&self, idx: usize) -> (r: TtdExceptionEvent)
        requires
            idx < self@.exceptions.len(),
        ensures
            r == self@.exceptions[idx as int],
    {
        self.exceptions[idx]
    }

    /// All recorded exceptions.
    pub fn exception_list(&self) -> (r: &[TtdExceptionEvent])
        ensures
            r@ == self@.exceptions,
    {
        self.exceptions.as_slice()
    }

    /// How many modules the trace has.
    pub fn module_count(&self) -> (r: usize)
        ensures
            r == self@.modules.len(),
    {
        self.modules.len()
    }

    /// Base address, size and name of one of the modules.
    pub fn module_info(&self, idx: usize) -> (r: Option<(u64, u64, String)>)
        ensures
            r is Some <==> idx < self@.modules.len(),
            r matches Some(m) ==> (Module { base: m.0 as nat, size: m.1 as nat, name: m.2@ })
                == self@.modules[idx as int],
    {
        if idx >= self.module_count() {
            return None;
        }
        let m = &self.modules[idx];
        assert(self@.modules[idx as int] == m@);
        Some((m.base_addr, m.size, m.name.clone()))
    }
}

/// The name in a buffer does not depend on what follows the terminating NUL.
pub proof fn law_name_ends_at_nul(name: Seq<u16>, rest: Seq<u16>)
    requires
        forall|i: int| 0 <= i < name.len() ==> name[i] != 0,
    ensures
        before_nul(name.push(0) + rest) == name,
    decreases name.len(),
{
    let whole = name.push(0) + rest;
    if name.len() > 0 {
        law_name_ends_at_nul(name.skip(1), rest);
        assert(whole.skip(1) =~= name.skip(1).push(0) + rest);
        assert(before_nul(whole) =~= name);
    } else {
        assert(whole[0] == 0);
        assert(before_nul(whole) =~= name);
    }
}

} // verus!
