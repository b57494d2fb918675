//! The debug target layer: what protocol frontends see of a trace.
//!
//! The target is read-only, and it knows instructions, memory, threads and
//! positions only: no source lines, no expressions, no symbols.

pub mod breakpoint;
pub mod breakpoint_state;
pub mod cursors;
pub mod error;
pub mod mock;
pub mod process;
pub mod stop_reason;
pub mod threads;
pub mod watchpoint;

use vstd::prelude::*;

use self::breakpoint::BreakpointKind;
use self::error::DebugError;
use self::stop_reason::StopReason;
use crate::ttd::types::{TtdExceptionEvent, TtdPosition, TtdX64Regs};

verus! {

/// A loaded module (DLL/EXE) in the trace.
#[derive(Clone, Debug)]
pub struct ModuleInfo {
    pub base_addr: u64,
    pub size: u64,
    pub name: String,
}

/// What a [`ModuleInfo`] says.
pub struct Module {
    pub base: nat,
    pub size: nat,
    pub name: Seq<char>,
}

impl Module {
    /// `addr` lies within the module.
    pub open spec fn holds(self, addr: nat) -> bool {
        self.base <= addr < self.base + self.size
    }
}

impl View for ModuleInfo {
    type V = Module;

    open spec fn view(&self) -> Module {
        Module { base: self.base_addr as nat, size: self.size as nat, name: self.name@ }
    }
}

/// What a list of modules says.
pub open spec fn module_views(v: Seq<ModuleInfo>) -> Seq<Module> {
    v.map_values(|m: ModuleInfo| m@)
}

/// Per-thread diagnostic information.
///
/// `unique_id` is stable for the whole trace, while an OS thread id may be
/// recycled. `current_position` is how far the thread has come at the current
/// position of the trace.
#[derive(Clone, Copy, Debug, PartialEq, Eq, Structural)]
pub struct ThreadExtraInfoData {
    pub unique_id: u32,
    pub current_position: TtdPosition,
    pub teb: u64,
}

/// One thread of the trace, over its whole lifetime.
#[derive(Clone, Copy, Debug)]
pub struct ThreadDiagnostics {
    pub unique_id: u32,
    pub os_thread_id: u32,
    /// Where the thread became live and where it stopped running.
    pub active_time: (TtdPosition, TtdPosition),
}

/// Trace-level diagnostics, as the `monitor ttd` commands show them.
#[derive(Clone, Debug)]
pub struct TargetDiagnostics {
    pub first_position: TtdPosition,
    pub last_position: TtdPosition,
    pub current_position: TtdPosition,
    /// All threads that ever existed in the trace, in the engine's order.
    pub threads: Vec<ThreadDiagnostics>,
    pub exception_count: u32,
    pub module_count: u32,
}

/// What [`TargetDiagnostics`] say.
pub struct Diagnostics {
    pub first: TtdPosition,
    pub last: TtdPosition,
    pub current: TtdPosition,
    pub threads: Seq<ThreadDiagnostics>,
    pub exception_count: nat,
    pub module_count: nat,
}

impl View for TargetDiagnostics {
    type V = Diagnostics;

    open spec fn view(&self) -> Diagnostics {
        Diagnostics {
            first: self.first_position,
            last: self.last_position,
            current: self.current_position,
            threads: self.threads@,
            exception_count: self.exception_count as nat,
            module_count: self.module_count as nat,
        }
    }
}

/// Counters of the work that a target did.
#[derive(Clone, Copy, Debug, PartialEq, Eq, Structural)]
pub struct TargetStats {
    pub queries: u64,
    pub cursor_seeks: u64,
    pub steps: u64,
    pub replays: u64,
    pub watchpoint_adds: u64,
    pub watchpoint_removes: u64,
}

impl Default for TargetStats {
    fn default() -> (r: TargetStats)
        ensures
            r == (TargetStats {
                queries: 0,
                cursor_seeks: 0,
                steps: 0,
                replays: 0,
                watchpoint_adds: 0,
                watchpoint_removes: 0,
            }),
    {
        TargetStats {
            queries: 0,
            cursor_seeks: 0,
            steps: 0,
            replays: 0,
            watchpoint_adds: 0,
            watchpoint_removes: 0,
        }
    }
}

/// Instruction-level debug API.
///
/// Frontends hold a concrete target behind this trait; creating one is not part
/// of it. What a target shows is a function of its state. What an operation
/// does is up to the target, so each operation comes with the relation between
/// the state before it, the state after it and what it returns. A target that
/// no proof speaks of leaves the spec functions as they are.
pub trait DebugTarget: Sized {
    /// The current position.
    closed spec fn now(&self) -> TtdPosition {
        arbitrary()
    }

    /// The first and the last position of the trace.
    closed spec fn extent(&self) -> (TtdPosition, TtdPosition) {
        arbitrary()
    }

    /// The loaded modules.
    closed spec fn module_list(&self) -> Seq<Module> {
        arbitrary()
    }

    /// The diagnostics of the trace.
    closed spec fn diagnosed(&self) -> Diagnostics {
        arbitrary()
    }

    /// The recorded exceptions.
    closed spec fn recorded(&self) -> Seq<TtdExceptionEvent> {
        arbitrary()
    }

    /// The counters of the target, as they stand when it is asked. A target may
    /// count queries too, so nothing relates the counters of two moments.
    closed spec fn counters(&self) -> TargetStats {
        arbitrary()
    }

    /// The OS thread ids that are active at the current position.
    closed spec fn active_threads(&self) -> Seq<u64> {
        arbitrary()
    }

    /// What there is to say of a thread.
    closed spec fn thread_of(&self, thread_id: u64) -> Option<ThreadExtraInfoData> {
        arbitrary()
    }

    /// Registers and TEB address of a thread; `None` asks for the current one.
    closed spec fn state_of(&self, thread_id: Option<u64>) -> Option<(TtdX64Regs, u64)> {
        arbitrary()
    }

    /// The current thread.
    closed spec fn current_thread(&self) -> Option<u64> {
        arbitrary()
    }

    /// The bytes that a read of `len` bytes at `addr` gets.
    closed spec fn memory_at(&self, addr: u64, len: nat) -> Seq<u8> {
        arbitrary()
    }

    /// A step can end in this state with this result.
    closed spec fn may_step(&self, after: Self, r: Result<StopReason, DebugError>) -> bool {
        arbitrary()
    }

    /// A step back can end in this state with this result.
    closed spec fn may_step_back(&self, after: Self, r: Result<StopReason, DebugError>) -> bool {
        arbitrary()
    }

    /// A continue forward can end in this state with this result.
    closed spec fn may_continue_forward(&self, after: Self, r: Result<StopReason, DebugError>) -> bool {
        arbitrary()
    }

    /// A continue backward can end in this state with this result.
    closed spec fn may_continue_backward(&self, after: Self, r: Result<StopReason, DebugError>) -> bool {
        arbitrary()
    }

    /// A jump to `pos` can end in this state with this result.
    closed spec fn may_goto(
        &self,
        pos: TtdPosition,
        after: Self,
        r: Result<StopReason, DebugError>,
    ) -> bool {
        arbitrary()
    }

    /// Setting an execution breakpoint can end in this state with this result.
    closed spec fn may_set_breakpoint(
        &self,
        addr: u64,
        thread_id: Option<u64>,
        after: Self,
        r: Result<u64, DebugError>,
    ) -> bool {
        arbitrary()
    }

    /// Setting a data watchpoint can end in this state with this result.
    closed spec fn may_set_data_breakpoint(
        &self,
        addr: u64,
        size: u64,
        kind: BreakpointKind,
        after: Self,
        r: Result<u64, DebugError>,
    ) -> bool {
        arbitrary()
    }

    /// Removing a breakpoint can end in this state with this result.
    closed spec fn may_remove_breakpoint(&self, id: u64, after: Self, r: bool) -> bool {
        arbitrary()
    }

    /// Removing the breakpoints at a place can end in this state with this
    /// result.
    closed spec fn may_remove_exact(
        &self,
        addr: u64,
        size: u64,
        access: u8,
        after: Self,
        r: bool,
    ) -> bool {
        arbitrary()
    }

    /// Making a thread the current one can end in this state.
    closed spec fn may_select(&self, id: u64, after: Self) -> bool {
        arbitrary()
    }

    /// Single step forward one instruction.
    fn step(&mut self) -> (r: Result<StopReason, DebugError>)
        ensures
            old(self).may_step(*final(self), r),
    ;

    /// Single step backward one instruction.
    fn step_back(&mut self) -> (r: Result<StopReason, DebugError>)
        ensures
            old(self).may_step_back(*final(self), r),
    ;

    /// Continue forward until a breakpoint or the end of the trace.
    fn continue_forward(&mut self) -> (r: Result<StopReason, DebugError>)
        ensures
            old(self).may_continue_forward(*final(self), r),
    ;

    /// Continue backward until a breakpoint or the start of the trace.
    fn continue_backward(&mut self) -> (r: Result<StopReason, DebugError>)
        ensures
            old(self).may_continue_backward(*final(self), r),
    ;

    /// Jump to a position.
    fn goto(&mut self, pos: TtdPosition) -> (r: Result<StopReason, DebugError>)
        ensures
            old(self).may_goto(pos, *final(self), r),
    ;

    /// Read memory into `buf`. Returns how many bytes were read.
    fn read_memory(&self, addr: u64, buf: &mut [u8]) -> (r: usize)
        ensures
            final(buf)@.len() == old(buf)@.len(),
            r == self.memory_at(addr, old(buf)@.len()).len(),
            r <= old(buf)@.len(),
            final(buf)@.take(r as int) == self.memory_at(addr, old(buf)@.len()),
    ;

    /// Set an execution breakpoint, on one thread or on any.
    fn set_breakpoint(&mut self, addr: u64, thread_id: Option<u64>) -> (r: Result<u64, DebugError>)
        ensures
            old(self).may_set_breakpoint(addr, thread_id, *final(self), r),
    ;

    /// Set a data watchpoint.
    fn set_data_breakpoint(&mut self, addr: u64, size: u64, kind: BreakpointKind) -> (r: Result<
        u64,
        DebugError,
    >)
        ensures
            old(self).may_set_data_breakpoint(addr, size, kind, *final(self), r),
    ;

    /// Remove a breakpoint by id. Returns whether it existed.
    fn remove_breakpoint(&mut self, id: u64) -> (r: bool)
        ensures
            old(self).may_remove_breakpoint(id, *final(self), r),
    ;

    /// Remove every breakpoint at exactly this place. Returns whether there was
    /// one.
    fn remove_breakpoint_exact(&mut self, addr: u64, size: u64, access: u8) -> (r: bool)
        ensures
            old(self).may_remove_exact(addr, size, access, *final(self), r),
    ;

    /// The OS thread ids that are active at the current position.
    fn active_thread_ids(&self) -> (r: Vec<u64>)
        ensures
            r@ == self.active_threads(),
    ;

    /// What there is to say of a thread; `None` if it is unknown.
    fn thread_info(&self, thread_id: u64) -> (r: Option<ThreadExtraInfoData>)
        ensures
            r == self.thread_of(thread_id),
    ;

    /// Registers and TEB address of a thread; `None` asks for the current one.
    fn thread_state(&self, thread_id: Option<u64>) -> (r: Option<(TtdX64Regs, u64)>)
        ensures
            r == self.state_of(thread_id),
    ;

    /// The current thread.
    fn current_thread_id(&self) -> (r: Option<u64>)
        ensures
            r == self.current_thread(),
    ;

    /// Make a thread the current one.
    fn set_current_thread(&mut self, id: u64)
        ensures
            old(self).may_select(id, *final(self)),
    ;

    /// The loaded modules.
    fn modules(&self) -> (r: Vec<ModuleInfo>)
        ensures
            module_views(r@) == self.module_list(),
    ;

    /// The diagnostics of the trace.
    fn diagnostics(&self) -> (r: TargetDiagnostics)
        ensures
            r@ == self.diagnosed(),
    ;

    /// The recorded exceptions.
    fn exceptions(&self) -> (r: Vec<TtdExceptionEvent>)
        ensures
            r@ == self.recorded(),
    ;

    /// The counters of the target.
    fn stats(&self) -> (r: TargetStats)
        ensures
            r == self.counters(),
    ;

    /// The current position.
    fn position(&self) -> (r: TtdPosition)
        ensures
            r == self.now(),
    ;

    /// The first and the last position of the trace.
    fn lifetime(&self) -> (r: (TtdPosition, TtdPosition))
        ensures
            r == self.extent(),
    ;
}

} // verus!
