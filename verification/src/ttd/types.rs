//! Values that cross the boundary to the replay engine.

use vstd::prelude::*;

verus! {

/// Access-mask bit: the watched bytes were read.
pub const DATA_ACCESS_READ: u8 = 0x01;

/// Access-mask bit: the watched bytes were written.
pub const DATA_ACCESS_WRITE: u8 = 0x02;

/// Access-mask bit: the watched bytes were executed.
pub const DATA_ACCESS_EXECUTE: u8 = 0x04;

/// A position on the time axis of a trace: a sequence number and a step count
/// within it.
#[derive(Clone, Copy, Debug, Default, PartialEq, Eq, PartialOrd, Ord, Hash, Structural)]
pub struct TtdPosition {
    pub sequence: u64,
    pub steps: u64,
}

impl TtdPosition {
    /// `self` lies before `other`: sequences decide, steps break ties.
    pub open spec fn precedes(self, other: TtdPosition) -> bool {
        self.sequence < other.sequence || (self.sequence == other.sequence && self.steps
            < other.steps)
    }

    /// Whether `self` lies before `other`.
    pub fn is_before(self, other: TtdPosition) -> (r: bool)
        ensures
            r == self.precedes(other),
    {
        self.sequence < other.sequence || (self.sequence == other.sequence && self.steps
            < other.steps)
    }
}

/// A closed range of positions.
#[derive(Clone, Copy, Debug, Default, PartialEq, Eq, Structural)]
pub struct TtdPositionRange {
    pub min: TtdPosition,
    pub max: TtdPosition,
}

/// A thread of the trace, over its whole lifetime.
#[derive(Clone, Copy, Debug, Default, PartialEq, Eq, Structural)]
pub struct TtdThreadInfo {
    pub unique_id: u32,
    pub os_thread_id: u32,
    pub active_time: TtdPositionRange,
}

/// A thread that is active at the current position.
#[derive(Clone, Copy, Debug, Default, PartialEq, Eq, Structural)]
pub struct TtdActiveThreadInfo {
    pub thread: TtdThreadInfo,
    pub current_position: TtdPosition,
}

/// An exception that the trace recorded.
#[derive(Clone, Copy, Debug, Default, PartialEq, Eq, Structural)]
pub struct TtdExceptionEvent {
    pub code: u32,
    pub flags: u32,
    pub exception_address: u64,
    pub program_counter: u64,
    pub position: TtdPosition,
}

/// Why the engine ended a replay.
#[derive(Clone, Copy, Debug, PartialEq, Eq, Structural)]
pub enum EventType {
    MemoryWatchpoint,
    StepCount,
    Position,
    Process,
    Thread,
    Exception,
    Interrupted,
    Gap,
    Other,
}

/// What the engine reports at the end of a replay.
#[derive(Clone, Copy, Debug, PartialEq, Eq, Structural)]
pub struct TtdReplayResult {
    pub stop_reason: EventType,
    pub wp_address: u64,
    pub wp_access_type: u8,
}

/// The register snapshot of one thread.
#[derive(Clone, Copy, Debug)]
pub struct TtdX64Regs {
    pub rax: u64,
    pub rbx: u64,
    pub rcx: u64,
    pub rdx: u64,
    pub rsi: u64,
    pub rdi: u64,
    pub rbp: u64,
    pub rsp: u64,
    pub r8: u64,
    pub r9: u64,
    pub r10: u64,
    pub r11: u64,
    pub r12: u64,
    pub r13: u64,
    pub r14: u64,
    pub r15: u64,
    pub rip: u64,
    pub eflags: u32,
    pub cs: u16,
    pub ss: u16,
    pub ds: u16,
    pub es: u16,
    pub fs: u16,
    pub gs: u16,
    /// `st0` to `st7`, ten bytes each.
    pub st: [u8; 80],
    pub fctrl: u16,
    pub fstat: u16,
    pub ftag: u16,
    pub fiseg: u16,
    pub fioff: u32,
    pub foseg: u16,
    pub fooff: u32,
    pub fop: u16,
    /// `xmm0` to `xmm15`, sixteen bytes each.
    pub xmm: [u8; 256],
    pub mxcsr: u32,
}

impl TtdX64Regs {
    /// Every register is zero.
    pub open spec fn is_zero(self) -> bool {
        &&& self.rax == 0 && self.rbx == 0 && self.rcx == 0 && self.rdx == 0
        &&& self.rsi == 0 && self.rdi == 0 && self.rbp == 0 && self.rsp == 0
        &&& self.r8 == 0 && self.r9 == 0 && self.r10 == 0 && self.r11 == 0
        &&& self.r12 == 0 && self.r13 == 0 && self.r14 == 0 && self.r15 == 0
        &&& self.rip == 0 && self.eflags == 0
        &&& self.cs == 0 && self.ss == 0 && self.ds == 0 && self.es == 0
        &&& self.fs == 0 && self.gs == 0
        &&& self.fctrl == 0 && self.fstat == 0 && self.ftag == 0 && self.fiseg == 0
        &&& self.fioff == 0 && self.foseg == 0 && self.fooff == 0 && self.fop == 0
        &&& self.mxcsr == 0
        &&& forall|i: int| 0 <= i < 80 ==> self.st@[i] == 0
        &&& forall|i: int| 0 <= i < 256 ==> self.xmm@[i] == 0
    }
}

impl Default for TtdX64Regs {
    fn default() -> (r: TtdX64Regs)
        ensures
            r.is_zero(),
    {
        TtdX64Regs {
            rax: 0,
            rbx: 0,
            rcx: 0,
            rdx: 0,
            rsi: 0,
            rdi: 0,
            rbp: 0,
            rsp: 0,
            r8: 0,
            r9: 0,
            r10: 0,
            r11: 0,
            r12: 0,
            r13: 0,
            r14: 0,
            r15: 0,
            rip: 0,
            eflags: 0,
            cs: 0,
            ss: 0,
            ds: 0,
            es: 0,
            fs: 0,
            gs: 0,
            st: [0u8;80],
            fctrl: 0,
            fstat: 0,
            ftag: 0,
            fiseg: 0,
            fioff: 0,
            foseg: 0,
            fooff: 0,
            fop: 0,
            xmm: [0u8;256],
            mxcsr: 0,
        }
    }
}

/// Trace order is a strict total order: of two positions, exactly one lies
/// before the other or they are equal, and "before" is transitive.
pub proof fn law_position_order_is_total(a: TtdPosition, b: TtdPosition, c: TtdPosition)
    ensures
        !a.precedes(a),
        a.precedes(b) || a == b || b.precedes(a),
        !(a.precedes(b) && b.precedes(a)),
        a.precedes(b) && b.precedes(c) ==> a.precedes(c),
{
}

} // verus!
