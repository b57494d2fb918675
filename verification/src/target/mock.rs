//! A configurable in-memory debug target, to drive frontends without a trace.

use std::collections::BTreeMap;

use vstd::prelude::*;
use vstd::std_specs::btree::increasing_seq;

use super::breakpoint::BreakpointKind;
use super::error::DebugError;
use super::stop_reason::StopReason;
use super::watchpoint::{
    addition_went, removal_went, SyncRun, WatchpointCursor, WatchpointKey,
};
use super::{
    module_views, DebugTarget, Diagnostics, Module, ModuleInfo, TargetDiagnostics, TargetStats,
    ThreadDiagnostics, ThreadExtraInfoData,
};
use crate::order::lemma_increasing;
use crate::ttd::error::TtdError;
use crate::ttd::types::{TtdExceptionEvent, TtdPosition, TtdX64Regs};

verus! {

broadcast use {vstd::std_specs::btree::group_btree_axioms, vstd::laws_cmp::group_laws_cmp};

/// What a forward continue reports.
#[derive(Clone, Copy, Debug, PartialEq, Eq, Structural)]
pub enum ForwardStop {
    /// Stop at the registered breakpoint with the lowest address; run to the
    /// end of the trace if there is none.
    BreakpointOrTraceEnd,
    /// Report this reason without touching the debug state.
    Fixed(StopReason),
}

/// A debug target without a trace.
pub struct MockTarget {
    pub position: TtdPosition,
    pub current_tid: Option<u64>,
    pub lifetime: (TtdPosition, TtdPosition),
    pub thread_ids: Vec<u64>,
    pub modules: Vec<ModuleInfo>,
    pub regs: TtdX64Regs,
    pub teb: u64,
    pub forward: ForwardStop,
    pub backward: StopReason,
    pub fail_breakpoints: bool,
    /// The breakpoints, by address; the address is also the id.
    bps: BTreeMap<u64, u64>,
}

/// The contents of a [`MockTarget`].
#[verifier::ext_equal]
pub struct Mock {
    pub position: TtdPosition,
    pub current_tid: Option<u64>,
    pub lifetime: (TtdPosition, TtdPosition),
    pub thread_ids: Seq<u64>,
    pub modules: Seq<Module>,
    pub regs: TtdX64Regs,
    pub teb: u64,
    pub forward: ForwardStop,
    pub backward: StopReason,
    pub fail_breakpoints: bool,
    pub bps: Set<u64>,
}

impl View for MockTarget {
    type V = Mock;

    closed spec fn view(&self) -> Mock {
        Mock {
            position: self.position,
            current_tid: self.current_tid,
            lifetime: self.lifetime,
            thread_ids: self.thread_ids@,
            modules: module_views(self.modules@),
            regs: self.regs,
            teb: self.teb,
            forward: self.forward,
            backward: self.backward,
            fail_breakpoints: self.fail_breakpoints,
            bps: self.bps@.dom(),
        }
    }
}

/// The step count after `n` more steps; it wraps around.
pub open spec fn steps_later(pos: TtdPosition, n: nat) -> TtdPosition {
    TtdPosition {
        sequence: pos.sequence,
        steps: ((pos.steps + n) % 0x1_0000_0000_0000_0000) as u64,
    }
}

/// The index of a thread id; the number of threads if it is not there.
pub open spec fn thread_index(ids: Seq<u64>, id: u64) -> int
    decreases ids.len(),
{
    if ids.len() == 0 || ids[0] == id {
        0
    } else {
        1 + thread_index(ids.skip(1), id)
    }
}

/// The failure of a registration.
pub open spec fn is_registration_error(e: DebugError, addr: u64) -> bool {
    e matches DebugError::BreakpointRegister { addr: a, source: TtdError::Ffi(text) } && a == addr
        && text@ == "add_watchpoint failed"@
}

impl Mock {
    /// The state after a breakpoint was asked for at `addr`, and the result.
    pub open spec fn sets(self, addr: u64, after: Mock, r: Result<u64, DebugError>) -> bool {
        if self.fail_breakpoints {
            after == self && r is Err && is_registration_error(r->Err_0, addr)
        } else {
            after == (Mock { bps: self.bps.insert(addr), ..self }) && r == Ok::<u64, DebugError>(
                addr,
            )
        }
    }

    /// The state after a breakpoint was removed, and whether it existed.
    pub open spec fn removes(self, addr: u64, after: Mock, r: bool) -> bool {
        after == (Mock { bps: self.bps.remove(addr), ..self }) && r == self.bps.contains(addr)
    }
}

/// The default target: one thread, a few registers set and the others zero, no
/// modules and no breakpoints.
pub open spec fn is_default(m: Mock) -> bool {
    &&& m.position == (TtdPosition { sequence: 1, steps: 0 })
    &&& m.current_tid == Some(100u64)
    &&& m.lifetime == (
        TtdPosition { sequence: 0, steps: 0 },
        TtdPosition { sequence: 9, steps: 1000 },
    )
    &&& m.thread_ids == seq![100u64]
    &&& m.modules.len() == 0
    &&& exists|zero: TtdX64Regs| #[trigger]
        zero.is_zero() && m.regs == (TtdX64Regs {
            rax: 0x11,
            rcx: 0x22,
            rip: 0x1000,
            rsp: 0x7ffc_0000,
            rbp: 0x7ffc_0100,
            eflags: 0x202,
            cs: 0x33,
            st: m.regs.st,
            xmm: m.regs.xmm,
            ..zero
        })
    &&& m.regs.st@[0] == 0x3f && m.regs.st@[1] == 0x80
    &&& forall|i: int| 2 <= i < 80 ==> m.regs.st@[i] == 0
    &&& m.regs.xmm@[0] == 0x2a
    &&& forall|i: int| 1 <= i < 256 ==> m.regs.xmm@[i] == 0
    &&& m.teb == 0x7ffe_0000
    &&& m.forward == ForwardStop::BreakpointOrTraceEnd
    &&& m.backward == StopReason::TraceStart
    &&& !m.fail_breakpoints
    &&& m.bps == Set::<u64>::empty()
}

impl Default for MockTarget {
    /// One thread, a few registers set, no modules and no breakpoints.
    fn default() -> (r: MockTarget)
        ensures
            is_default(r@),
    {
        let mut regs = TtdX64Regs::default();
        let ghost zero = regs;
        regs.rax = 0x11;
        regs.rcx = 0x22;
        regs.rip = 0x1000;
        regs.rsp = 0x7ffc_0000;
        regs.rbp = 0x7ffc_0100;
        regs.eflags = 0x202;
        regs.cs = 0x33;
        regs.st[0] = 0x3f;
        regs.st[1] = 0x80;
        regs.xmm[0] = 0x2a;
        let mut thread_ids: Vec<u64> = Vec::new();
        thread_ids.push(100);
        let r = MockTarget {
            position: TtdPosition { sequence: 1, steps: 0 },
            current_tid: Some(100),
            lifetime: (
                TtdPosition { sequence: 0, steps: 0 },
                TtdPosition { sequence: 9, steps: 1000 },
            ),
            thread_ids,
            modules: Vec::new(),
            regs,
            teb: 0x7ffe_0000,
            forward: ForwardStop::BreakpointOrTraceEnd,
            backward: StopReason::TraceStart,
            fail_breakpoints: false,
            bps: BTreeMap::new(),
        };
        assert(zero.is_zero());
        assert(r@.thread_ids =~= seq![100u64]);
        assert(r@.bps =~= Set::<u64>::empty());
        r
    }
}

impl MockTarget {
    /// The default target.
    pub fn new() -> (r: MockTarget)
        ensures
            is_default(r@),
    {
        MockTarget::default()
    }

    /// The same target with another forward continue.
    pub fn with_forward(self, forward: ForwardStop) -> (r: MockTarget)
        ensures
            r@ == (Mock { forward, ..self@ }),
    {
        let mut this = self;
        this.forward = forward;
        this
    }

    /// The same target with a fixed reason for forward continues.
    pub fn with_fixed_forward(self, reason: StopReason) -> (r: MockTarget)
        ensures
            r@ == (Mock { forward: ForwardStop::Fixed(reason), ..self@ }),
    {
        self.with_forward(ForwardStop::Fixed(reason))
    }

    /// The same target with these modules.
    pub fn with_modules(self, modules: Vec<ModuleInfo>) -> (r: MockTarget)
        ensures
            r@ == (Mock { modules: module_views(modules@), ..self@ }),
    {
        let mut this = self;
        this.modules = modules;
        this
    }

    /// The same target, which refuses every breakpoint.
    pub fn with_failing_breakpoints(self) -> (r: MockTarget)
        ensures
            r@ == (Mock { fail_breakpoints: true, ..self@ }),
    {
        let mut this = self;
        this.fail_breakpoints = true;
        this
    }

    fn registration_error(addr: u64) -> (r: DebugError)
        ensures
            is_registration_error(r, addr),
    {
        DebugError::BreakpointRegister { addr, source: TtdError::Ffi("add_watchpoint failed") }
    }

    fn index_of(&self, id: u64) -> (r: usize)
        ensures
            r == thread_index(self@.thread_ids, id),
            r <= self@.thread_ids.len(),
            r < self@.thread_ids.len() <==> self@.thread_ids.contains(id),
    {
        let ids = &self.thread_ids;
        assert(ids@.skip(0) =~= ids@);
        for i in 0..ids.len()
            invariant
                ids@ == self@.thread_ids,
                thread_index(ids@, id) == i + thread_index(ids@.skip(i as int), id),
                forall|k: int| 0 <= k < i ==> ids@[k] != id,
        {
            assert(ids@.skip(i as int).skip(1) =~= ids@.skip(i as int + 1));
            if ids[i] == id {
                assert(ids@.contains(id));
                return i;
            }
        }
        ids.len()
    }

    /// The breakpoint with the lowest address.
    fn first_breakpoint(&self) -> (r: Option<u64>)
        ensures
            r is None <==> self@.bps == Set::<u64>::empty(),
            r matches Some(addr) ==> self@.bps.contains(addr) && forall|other: u64| #[trigger]
                self@.bps.contains(other) ==> addr <= other,
    {
        let ghost dom = self.bps@.dom();
        for kv in it: self.bps.iter()
            invariant
                dom == self.bps@.dom(),
                it.index() == 0,
                increasing_seq(it.seq().map_values(|kv: (&u64, &u64)| *kv.0)),
                forall|k: u64| #[trigger]
                    self.bps@.contains_key(k) ==> exists|i: int|
                        0 <= i < it.seq().len() && *(#[trigger] it.seq()[i]).0 == k,
        {
            proof {
                let keys = it.seq().map_values(|kv: (&u64, &u64)| *kv.0);
                lemma_increasing(keys);
                assert(self.bps@.contains_key(*kv.0));
                assert forall|other: u64| #[trigger] dom.contains(other) implies *kv.0 <= other by {
                    let i = choose|i: int|
                        0 <= i < it.seq().len() && *(#[trigger] it.seq()[i]).0 == other;
                    assert(keys[i] == other);
                    assert(keys[0] == *kv.0);
                }
            }
            return Some(*kv.0);
        }
        assert(dom =~= Set::<u64>::empty()) by {
            assert forall|k: u64| !dom.contains(k) by {
                assert(!self.bps@.contains_key(k));
            }
        }
        None
    }
}

impl DebugTarget for MockTarget {
    open spec fn now(&self) -> TtdPosition {
        self@.position
    }

    open spec fn extent(&self) -> (TtdPosition, TtdPosition) {
        self@.lifetime
    }

    open spec fn module_list(&self) -> Seq<Module> {
        self@.modules
    }

    open spec fn diagnosed(&self) -> Diagnostics {
        Diagnostics {
            first: self@.lifetime.0,
            last: self@.lifetime.1,
            current: self@.position,
            threads: Seq::new(
                self@.thread_ids.len(),
                |i: int|
                    ThreadDiagnostics {
                        unique_id: (i + 1) as u32,
                        os_thread_id: self@.thread_ids[i] as u32,
                        active_time: (self@.position, self@.lifetime.1),
                    },
            ),
            exception_count: 0,
            module_count: self@.modules.len() as u32 as nat,
        }
    }

    open spec fn recorded(&self) -> Seq<TtdExceptionEvent> {
        Seq::empty()
    }

    open spec fn counters(&self) -> TargetStats {
        TargetStats {
            queries: 0,
            cursor_seeks: 0,
            steps: 0,
            replays: 0,
            watchpoint_adds: 0,
            watchpoint_removes: 0,
        }
    }

    open spec fn active_threads(&self) -> Seq<u64> {
        self@.thread_ids
    }

    open spec fn thread_of(&self, thread_id: u64) -> Option<ThreadExtraInfoData> {
        if self@.thread_ids.contains(thread_id) {
            Some(
                ThreadExtraInfoData {
                    unique_id: (thread_index(self@.thread_ids, thread_id) + 1) as u32,
                    current_position: self@.position,
                    teb: self@.teb,
                },
            )
        } else {
            None
        }
    }

    open spec fn state_of(&self, thread_id: Option<u64>) -> Option<(TtdX64Regs, u64)> {
        let asked = if thread_id is Some {
            thread_id
        } else {
            self@.current_tid
        };
        if asked is Some && self@.thread_ids.contains(asked->0) {
            Some((self@.regs, self@.teb))
        } else {
            None
        }
    }

    open spec fn current_thread(&self) -> Option<u64> {
        self@.current_tid
    }

    open spec fn memory_at(&self, addr: u64, len: nat) -> Seq<u8> {
        Seq::new(len, |i: int| ((addr + i) % 256) as u8)
    }

    open spec fn may_step(&self, after: Self, r: Result<StopReason, DebugError>) -> bool {
        &&& after@ == (Mock { position: steps_later(self@.position, 1), ..self@ })
        &&& r == Ok::<StopReason, DebugError>(StopReason::StepComplete)
    }

    open spec fn may_step_back(&self, after: Self, r: Result<StopReason, DebugError>) -> bool {
        &&& after@ == (Mock {
            position: TtdPosition {
                sequence: self@.position.sequence,
                steps: if self@.position.steps == 0 {
                    0
                } else {
                    (self@.position.steps - 1) as u64
                },
            },
            ..self@
        })
        &&& r == Ok::<StopReason, DebugError>(StopReason::StepComplete)
    }

    open spec fn may_continue_forward(
        &self,
        after: Self,
        r: Result<StopReason, DebugError>,
    ) -> bool {
        match self@.forward {
            ForwardStop::Fixed(reason) => after@ == self@ && r == Ok::<StopReason, DebugError>(
                reason,
            ),
            ForwardStop::BreakpointOrTraceEnd => if self@.bps == Set::<u64>::empty() {
                &&& after@ == (Mock { position: steps_later(self@.position, 100), ..self@ })
                &&& r == Ok::<StopReason, DebugError>(StopReason::TraceEnd)
            } else {
                &&& after@ == self@
                &&& exists|addr: u64|
                    {
                        &&& #[trigger] self@.bps.contains(addr)
                        &&& r == Ok::<StopReason, DebugError>(
                            StopReason::Breakpoint { bp_id: addr, addr },
                        )
                        &&& forall|other: u64| #[trigger]
                            self@.bps.contains(other) ==> addr <= other
                    }
            },
        }
    }

    open spec fn may_continue_backward(
        &self,
        after: Self,
        r: Result<StopReason, DebugError>,
    ) -> bool {
        &&& after@ == (Mock {
            position: TtdPosition { sequence: self@.position.sequence, steps: 0 },
            ..self@
        })
        &&& r == Ok::<StopReason, DebugError>(self@.backward)
    }

    open spec fn may_goto(
        &self,
        pos: TtdPosition,
        after: Self,
        r: Result<StopReason, DebugError>,
    ) -> bool {
        &&& after@ == (Mock { position: pos, ..self@ })
        &&& r == Ok::<StopReason, DebugError>(StopReason::PositionReached)
    }

    open spec fn may_set_breakpoint(
        &self,
        addr: u64,
        thread_id: Option<u64>,
        after: Self,
        r: Result<u64, DebugError>,
    ) -> bool {
        self@.sets(addr, after@, r)
    }

    open spec fn may_set_data_breakpoint(
        &self,
        addr: u64,
        size: u64,
        kind: BreakpointKind,
        after: Self,
        r: Result<u64, DebugError>,
    ) -> bool {
        self@.sets(addr, after@, r)
    }

    open spec fn may_remove_breakpoint(&self, id: u64, after: Self, r: bool) -> bool {
        self@.removes(id, after@, r)
    }

    open spec fn may_remove_exact(
        &self,
        addr: u64,
        size: u64,
        access: u8,
        after: Self,
        r: bool,
    ) -> bool {
        self@.removes(addr, after@, r)
    }

    open spec fn may_select(&self, id: u64, after: Self) -> bool {
        after@ == (Mock { current_tid: Some(id), ..self@ })
    }

    fn step(&mut self) -> Result<StopReason, DebugError> {
        self.position.steps = self.position.steps.wrapping_add(1);
        Ok(StopReason::StepComplete)
    }

    fn step_back(&mut self) -> Result<StopReason, DebugError> {
        self.position.steps = self.position.steps.saturating_sub(1);
        Ok(StopReason::StepComplete)
    }

    fn continue_forward(&mut self) -> Result<StopReason, DebugError> {
        match self.forward {
            ForwardStop::BreakpointOrTraceEnd => match self.first_breakpoint() {
                Some(addr) => Ok(StopReason::Breakpoint { bp_id: addr, addr }),
                None => {
                    self.position.steps = self.position.steps.wrapping_add(100);
                    Ok(StopReason::TraceEnd)
                },
            },
            ForwardStop::Fixed(reason) => Ok(reason),
        }
    }

    fn continue_backward(&mut self) -> Result<StopReason, DebugError> {
        self.position.steps = 0;
        Ok(self.backward)
    }

    fn goto(&mut self, pos: TtdPosition) -> Result<StopReason, DebugError> {
        self.position = pos;
        Ok(StopReason::PositionReached)
    }

    fn read_memory(&self, addr: u64, buf: &mut [u8]) -> usize {
        let n = buf.len();
        let ghost all = self.memory_at(addr, n as nat);
        for i in 0..n
            invariant
                n == buf@.len(),
                n == old(buf)@.len(),
                all == self.memory_at(addr, n as nat),
                forall|k: int| 0 <= k < i ==> buf@[k] == all[k],
        {
            let at: u64 = addr.wrapping_add(i as u64);
            assert(at as nat % 256 == (addr + i) % 256) by (nonlinear_arith)
                requires
                    at == addr + i || at == addr + i - 0x1_0000_0000_0000_0000,
            ;
            buf[i] = (at % 256) as u8;
        }
        assert(buf@.take(n as int) =~= all);
        n
    }

    fn set_breakpoint(&mut self, addr: u64, thread_id: Option<u64>) -> Result<u64, DebugError> {
        if self.fail_breakpoints {
            return Err(MockTarget::registration_error(addr));
        }
        self.bps.insert(addr, addr);
        assert(self@.bps =~= old(self)@.bps.insert(addr));
        Ok(addr)
    }

    fn set_data_breakpoint(&mut self, addr: u64, size: u64, kind: BreakpointKind) -> Result<
        u64,
        DebugError,
    > {
        if self.fail_breakpoints {
            return Err(MockTarget::registration_error(addr));
        }
        self.bps.insert(addr, addr);
        assert(self@.bps =~= old(self)@.bps.insert(addr));
        Ok(addr)
    }

    fn remove_breakpoint(&mut self, id: u64) -> bool {
        let removed = self.bps.remove(&id).is_some();
        assert(self@.bps =~= old(self)@.bps.remove(id));
        removed
    }

    fn remove_breakpoint_exact(&mut self, addr: u64, size: u64, access: u8) -> bool {
        let removed = self.bps.remove(&addr).is_some();
        assert(self@.bps =~= old(self)@.bps.remove(addr));
        removed
    }

    fn active_thread_ids(&self) -> Vec<u64> {
        let mut out: Vec<u64> = Vec::new();
        for i in 0..self.thread_ids.len()
            invariant
                out@ == self.thread_ids@.take(i as int),
        {
            out.push(self.thread_ids[i]);
        }
        assert(self.thread_ids@.take(self.thread_ids@.len() as int) =~= self.thread_ids@);
        out
    }

    fn thread_info(&self, thread_id: u64) -> Option<ThreadExtraInfoData> {
        let index = self.index_of(thread_id);
        if index == self.thread_ids.len() {
            return None;
        }
        Some(
            ThreadExtraInfoData {
                unique_id: (index as u64 + 1) as u32,
                current_position: self.position,
                teb: self.teb,
            },
        )
    }

    fn thread_state(&self, thread_id: Option<u64>) -> Option<(TtdX64Regs, u64)> {
        let asked = match thread_id {
            Some(id) => Some(id),
            None => self.current_tid,
        };
        match asked {
            Some(tid) => if self.index_of(tid) < self.thread_ids.len() {
                Some((self.regs, self.teb))
            } else {
                None
            },
            None => None,
        }
    }

    fn current_thread_id(&self) -> Option<u64> {
        self.current_tid
    }

    fn set_current_thread(&mut self, id: u64) {
        self.current_tid = Some(id);
    }

    fn modules(&self) -> Vec<ModuleInfo> {
        let mut out: Vec<ModuleInfo> = Vec::new();
        let ghost all = module_views(self.modules@);
        for i in 0..self.modules.len()
            invariant
                all == module_views(self.modules@),
                module_views(out@) == all.take(i as int),
        {
            let m = &self.modules[i];
            let copy = ModuleInfo {
                base_addr: m.base_addr,
                size: m.size,
                name: m.name.clone(),
            };
            let ghost before = out@;
            assert(copy@ == all[i as int]);
            out.push(copy);
            assert(module_views(out@) =~= module_views(before).push(copy@));
            assert(module_views(out@) =~= all.take(i as int + 1));
        }
        assert(all.take(all.len() as int) =~= all);
        out
    }

    fn diagnostics(&self) -> TargetDiagnostics {
        let ghost shown = self.diagnosed().threads;
        let mut threads: Vec<ThreadDiagnostics> = Vec::new();
        for i in 0..self.thread_ids.len()
            invariant
                shown == self.diagnosed().threads,
                threads@ == shown.take(i as int),
        {
            threads.push(
                ThreadDiagnostics {
                    unique_id: (i as u64 + 1) as u32,
                    os_thread_id: self.thread_ids[i] as u32,
                    active_time: (self.position, self.lifetime.1),
                },
            );
            assert(threads@ =~= shown.take(i as int + 1));
        }
        assert(shown.take(shown.len() as int) =~= shown);
        TargetDiagnostics {
            first_position: self.lifetime.0,
            last_position: self.lifetime.1,
            current_position: self.position,
            threads,
            exception_count: 0,
            module_count: self.modules.len() as u32,
        }
    }

    fn exceptions(&self) -> Vec<TtdExceptionEvent> {
        Vec::new()
    }

    fn stats(&self) -> TargetStats {
        TargetStats::default()
    }

    fn position(&self) -> TtdPosition {
        self.position
    }

    fn lifetime(&self) -> (TtdPosition, TtdPosition) {
        self.lifetime
    }
}

/// A request to a cursor.
#[derive(Clone, Copy, Debug, PartialEq, Eq, Structural)]
pub enum WatchpointRequest {
    Remove(WatchpointKey),
    Add(WatchpointKey),
}

/// A cursor without an engine, which records what it is asked to do.
#[derive(Debug)]
pub struct RecordingCursor {
    /// All requests, in the order in which they came.
    pub requests: Vec<WatchpointRequest>,
    pub refuse_add: bool,
    pub refuse_remove: bool,
}

impl RecordingCursor {
    /// A cursor that was asked for nothing yet.
    pub fn new(refuse_add: bool, refuse_remove: bool) -> (r: RecordingCursor)
        ensures
            r.requests@.len() == 0,
            r.refuse_add == refuse_add,
            r.refuse_remove == refuse_remove,
    {
        RecordingCursor { requests: Vec::new(), refuse_add, refuse_remove }
    }

    /// The cursor has recorded one more request.
    pub open spec fn recorded(self, request: WatchpointRequest, after: RecordingCursor) -> bool {
        &&& after.requests@ == self.requests@.push(request)
        &&& after.refuse_add == self.refuse_add
        &&& after.refuse_remove == self.refuse_remove
    }
}

impl WatchpointCursor for RecordingCursor {
    open spec fn may_add(
        &self,
        key: WatchpointKey,
        after: RecordingCursor,
        r: Result<(), TtdError>,
    ) -> bool {
        self.recorded(WatchpointRequest::Add(key), after) && r == (if self.refuse_add {
            Err(TtdError::Ffi("add failed"))
        } else {
            Ok(())
        })
    }

    open spec fn may_remove(
        &self,
        key: WatchpointKey,
        after: RecordingCursor,
        r: Result<(), TtdError>,
    ) -> bool {
        self.recorded(WatchpointRequest::Remove(key), after) && r == (if self.refuse_remove {
            Err(TtdError::Ffi("remove failed"))
        } else {
            Ok(())
        })
    }

    fn add_watchpoint(&mut self, key: WatchpointKey) -> Result<(), TtdError> {
        self.requests.push(WatchpointRequest::Add(key));
        if self.refuse_add {
            return Err(TtdError::Ffi("add failed"));
        }
        Ok(())
    }

    fn remove_watchpoint(&mut self, key: WatchpointKey) -> Result<(), TtdError> {
        self.requests.push(WatchpointRequest::Remove(key));
        if self.refuse_remove {
            return Err(TtdError::Ffi("remove failed"));
        }
        Ok(())
    }
}

/// The requests of a synchronization: one removal for each stale key, then one
/// addition for each missing key.
pub open spec fn requests_of(run: SyncRun) -> Seq<WatchpointRequest> {
    run.stale.map_values(|k: WatchpointKey| WatchpointRequest::Remove(k)) + run.missing.map_values(
        |k: WatchpointKey| WatchpointRequest::Add(k),
    )
}

/// What a cursor records of a synchronization is exactly its requests: the
/// removals before the additions, both in ascending order, and nothing twice.
pub proof fn law_sync_makes_each_request_once(
    run: SyncRun,
    applied: Set<WatchpointKey>,
    desired: Set<WatchpointKey>,
    states: Seq<RecordingCursor>,
)
    requires
        run.plans(applied, desired),
        run.moves(states),
    ensures
        states.last().requests@ == states[0].requests@ + requests_of(run),
{
    lemma_recorded(run, states, (states.len() - 1) as nat);
    assert(requests_of(run).take(states.len() - 1) =~= requests_of(run));
}

proof fn lemma_recorded(run: SyncRun, states: Seq<RecordingCursor>, n: nat)
    requires
        run.gone.len() == run.stale.len(),
        run.came.len() == run.missing.len(),
        run.moves(states),
        n < states.len(),
    ensures
        states[n as int].requests@ == states[0].requests@ + requests_of(run).take(n as int),
    decreases n,
{
    let all = requests_of(run);
    if n == 0 {
        assert(states[0].requests@ + all.take(0) =~= states[0].requests@);
    } else {
        let i = n - 1;
        lemma_recorded(run, states, i as nat);
        if i < run.stale.len() {
            assert(removal_went(states[i], run.stale[i], states[i + 1], run.gone[i]));
        } else {
            let k = i - run.stale.len();
            assert(addition_went(states[i], run.missing[k], states[i + 1], run.came[k]));
        }
        assert(all.take(n as int) =~= all.take(i).push(all[i]));
    }
}

} // verus!
