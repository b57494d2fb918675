//! The debug position of a loaded trace, and what every engine operation makes
//! of it.
//!
//! The engine itself is driven from outside: before an operation the process
//! says what the engine has to do, and afterwards it takes the engine's answer
//! and decides what that means.

use vstd::prelude::*;

use super::breakpoint::{
    first_where, law_hits_are_attributed, Breakpoint, BreakpointId, BreakpointKind,
};
use super::breakpoint_state::{counted, BreakpointState, WatchState};
use super::cursors::CursorPair;
use super::stop_reason::{replay_stop, StopReason};
use super::threads::{catalog, law_catalog_knows_every_thread, ThreadTable};
use super::watchpoint::WatchpointKey;
use super::{
    module_views, Diagnostics, Module, ModuleInfo, TargetDiagnostics, TargetStats,
    ThreadDiagnostics, ThreadExtraInfoData,
};
use crate::gdb::commands::CommandTarget;
use crate::gdb::monitor::TraceView;
use crate::ttd::engine::{TraceFacts, TtdEngine};
use crate::ttd::types::{
    TtdActiveThreadInfo, TtdExceptionEvent, TtdPosition, TtdReplayResult, TtdThreadInfo,
};

verus! {

/// `pos` brought into the extent of a trace.
pub open spec fn clamped(pos: TtdPosition, first: TtdPosition, last: TtdPosition) -> TtdPosition {
    let low = if pos.precedes(first) {
        first
    } else {
        pos
    };
    if last.precedes(low) {
        last
    } else {
        low
    }
}

/// An engine operation on one of the cursors: where the cursor has to be moved
/// first, if anywhere, and the position that limits the replay.
#[derive(Clone, Copy, Debug, PartialEq, Eq, Structural)]
pub struct ReplayPlan {
    pub seek: Option<TtdPosition>,
    pub limit: TtdPosition,
}

/// What the engine answers when an operation has ended.
#[derive(Clone, Copy, Debug, PartialEq, Eq, Structural)]
pub struct ReplayEnd {
    pub result: TtdReplayResult,
    /// Where the cursor stands now.
    pub position: TtdPosition,
    /// The OS thread that the cursor stands on; 0 if there is none.
    pub tid: u32,
}

/// The current thread after an operation ended on `tid`.
pub open spec fn adopted_thread(current: Option<u64>, tid: u32) -> Option<u64> {
    if tid != 0 {
        Some(tid as u64)
    } else {
        current
    }
}

/// The first exception recorded at a position.
pub open spec fn exception_at(events: Seq<TtdExceptionEvent>, pos: TtdPosition) -> Option<
    TtdExceptionEvent,
>
    decreases events.len(),
{
    if events.len() == 0 {
        None
    } else if events[0].position == pos {
        Some(events[0])
    } else {
        exception_at(events.skip(1), pos)
    }
}

/// A stop reason with the code and the address of the exception that was
/// recorded at the stop position.
pub open spec fn enriched(
    reason: StopReason,
    events: Seq<TtdExceptionEvent>,
    pos: TtdPosition,
) -> StopReason {
    match reason {
        StopReason::Exception { code, addr } => match exception_at(events, pos) {
            Some(ev) => if code == 0 {
                StopReason::Exception { code: ev.code, addr: ev.exception_address }
            } else {
                reason
            },
            None => reason,
        },
        _ => reason,
    }
}

/// Why a continue stopped: at a breakpoint, at the end of the trace that it ran
/// towards, or for the reason that the engine gives.
pub open spec fn continue_stop(
    end: ReplayEnd,
    hit: Option<Breakpoint>,
    hit_id: BreakpointId,
    forward: bool,
    facts: TraceFacts,
) -> StopReason {
    if hit_id != 0 {
        match hit {
            Some(b) => if b.kind is Execute {
                StopReason::Breakpoint { bp_id: hit_id, addr: b.addr }
            } else {
                StopReason::Watchpoint { bp_id: hit_id, addr: b.addr, access: b.access }
            },
            None => StopReason::Watchpoint {
                bp_id: hit_id,
                addr: end.result.wp_address,
                access: end.result.wp_access_type,
            },
        }
    } else if !forward && !facts.first.precedes(end.position) {
        StopReason::TraceStart
    } else if forward && !end.position.precedes(facts.last) {
        StopReason::TraceEnd
    } else {
        enriched(replay_stop(end.result), facts.exceptions, end.position)
    }
}

/// The breakpoint with an id, of a list with distinct ids.
pub open spec fn breakpoint_with(list: Seq<Breakpoint>, id: BreakpointId) -> Option<Breakpoint> {
    first_where(list, |b: Breakpoint| b.id == id)
}

/// The debug state of a loaded trace.
pub struct TtdProcess {
    engine: TtdEngine,
    position: TtdPosition,
    current_thread_id: Option<u64>,
    breakpoints: BreakpointState,
    cursors: CursorPair,
    stats: TargetStats,
}

/// The contents of a [`TtdProcess`].
#[verifier::ext_equal]
pub struct Process {
    pub facts: TraceFacts,
    pub position: TtdPosition,
    pub current_thread: Option<u64>,
    pub watch: WatchState,
    pub cursors: CursorPair,
    pub stats: TargetStats,
}

impl View for TtdProcess {
    type V = Process;

    closed spec fn view(&self) -> Process {
        Process {
            facts: self.engine@,
            position: self.position,
            current_thread: self.current_thread_id,
            watch: self.breakpoints@,
            cursors: self.cursors,
            stats: self.stats,
        }
    }
}

impl Process {
    /// The counters that are shown: those of the process and those of its
    /// watchpoints.
    pub open spec fn shown_stats(self) -> TargetStats {
        TargetStats {
            watchpoint_adds: self.watch.adds,
            watchpoint_removes: self.watch.removes,
            ..self.stats
        }
    }

    /// The diagnostics that are shown.
    pub open spec fn shown_diagnostics(self) -> Diagnostics {
        Diagnostics {
            first: self.facts.first,
            last: self.facts.last,
            current: self.position,
            threads: self.facts.threads.map_values(
                |t: TtdThreadInfo|
                    ThreadDiagnostics {
                        unique_id: t.unique_id,
                        os_thread_id: t.os_thread_id,
                        active_time: (t.active_time.min, t.active_time.max),
                    },
            ),
            exception_count: self.facts.exceptions.len() as u32 as nat,
            module_count: self.facts.modules.len() as u32 as nat,
        }
    }

    /// The OS thread that a register query is about.
    pub open spec fn queried(self, thread_id: Option<u64>) -> Option<u32> {
        let asked = if thread_id is Some {
            thread_id
        } else {
            self.current_thread
        };
        if asked is Some && asked->0 <= u32::MAX && self.watch.threads.contains_key(
            asked->0 as u32,
        ) {
            Some(asked->0 as u32)
        } else {
            None
        }
    }

    /// Where the persistent cursor has to be moved before it can be used.
    pub open spec fn query_seek(self) -> Option<TtdPosition> {
        if self.cursors.persistent.known() == Some(self.position) {
            None
        } else {
            Some(self.position)
        }
    }

    /// Where the step cursor has to be moved before it can be used.
    pub open spec fn step_seek(self) -> Option<TtdPosition> {
        if self.cursors.step.known() == Some(self.position) {
            None
        } else {
            Some(self.position)
        }
    }
}

/// A continue ended: its end is the debug position and where the persistent
/// cursor stands, and the thread that it ended on is the current one.
pub open spec fn continued(before: Process, end: ReplayEnd, after: Process) -> bool {
    &&& after.position == end.position
    &&& after.current_thread == adopted_thread(before.current_thread, end.tid)
    &&& after.cursors.persistent.known() == Some(end.position)
    &&& after.cursors.step == before.cursors.step
    &&& after == (Process {
        position: after.position,
        current_thread: after.current_thread,
        cursors: after.cursors,
        ..before
    })
}

/// A step ended: its end is the debug position and where the step cursor
/// stands, and the thread that it ended on is the current one.
pub open spec fn stepped(before: Process, end: ReplayEnd, seeked: bool, after: Process) -> bool {
    &&& after.position == end.position
    &&& after.current_thread == adopted_thread(before.current_thread, end.tid)
    &&& after.cursors.step.known() == Some(end.position)
    &&& after.cursors.persistent == before.cursors.persistent
    &&& after == (Process {
        position: after.position,
        current_thread: after.current_thread,
        cursors: after.cursors,
        stats: TargetStats {
            cursor_seeks: counted(
                before.stats.cursor_seeks,
                if seeked {
                    1
                } else {
                    0
                },
            ),
            steps: counted(before.stats.steps, 1),
            ..before.stats
        },
        ..before
    })
}

impl TtdProcess {
    /// The breakpoints are in order, and their threads are those of the trace.
    pub closed spec fn wf(&self) -> bool {
        self.breakpoints.wf() && self.breakpoints@.threads == catalog(self.engine@.threads)
    }

    /// What well-formedness says of the contents.
    pub proof fn lemma_contents_valid(&self)
        requires
            self.wf(),
        ensures
            self@.watch.logical.valid(),
            self@.watch.threads == catalog(self@.facts.threads),
    {
        self.breakpoints.lemma_contents_valid();
    }

    /// The process of a loaded trace stands at the start of the trace, on its
    /// first thread.
    pub fn open(engine: TtdEngine) -> (r: TtdProcess)
        ensures
            r.wf(),
            r@.facts == engine@,
            r@.position == engine@.first,
            r@.current_thread == (if engine@.threads.len() > 0 {
                Some(engine@.threads[0].os_thread_id as u64)
            } else {
                None
            }),
            r@.watch.logical.list.len() == 0,
            r@.watch.logical.next_id == 1,
            r@.watch.threads == catalog(engine@.threads),
            r@.watch.physical == Set::<WatchpointKey>::empty(),
            r@.cursors.persistent.known() is None,
            r@.cursors.step.known() is None,
            r@.shown_stats() == (TargetStats {
                queries: 0,
                cursor_seeks: 0,
                steps: 0,
                replays: 0,
                watchpoint_adds: 0,
                watchpoint_removes: 0,
            }),
    {
        let first = engine.first_position();
        let threads = engine.thread_list();
        let current_thread_id = if threads.len() > 0 {
            Some(threads[0].os_thread_id as u64)
        } else {
            None
        };
        let table = ThreadTable::from_engine_threads(threads);
        TtdProcess {
            engine,
            position: first,
            current_thread_id,
            breakpoints: BreakpointState::new(table),
            cursors: CursorPair::new(),
            stats: TargetStats::default(),
        }
    }

    /// The debug position.
    pub fn position(&self) -> (r: TtdPosition)
        ensures
            r == self@.position,
    {
        self.position
    }

    /// The first and the last position of the trace.
    pub fn lifetime(&self) -> (r: (TtdPosition, TtdPosition))
        ensures
            r == (self@.facts.first, self@.facts.last),
    {
        (self.engine.first_position(), self.engine.last_position())
    }

    /// The breakpoints.
    pub fn breakpoints(&self) -> (r: &BreakpointState)
        ensures
            r@ == self@.watch,
            self.wf() ==> r.wf(),
    {
        &self.breakpoints
    }

    /// The breakpoints, to be changed.
    pub fn breakpoints_mut(&mut self) -> (r: &mut BreakpointState)
        requires
            old(self).wf(),
        ensures
            (*r).wf(),
            (*r)@ == old(self)@.watch,
            (*final(r)).wf() && (*final(r))@.threads == (*r)@.threads ==> final(self).wf(),
            final(self)@ == (Process { watch: (*final(r))@, ..old(self)@ }),
    {
        &mut self.breakpoints
    }

    /// Jump to a position, or to the end of the trace that it lies beyond.
    pub fn goto(&mut self, pos: TtdPosition) -> (r: StopReason)
        ensures
            final(self)@ == (Process {
                position: clamped(pos, old(self)@.facts.first, old(self)@.facts.last),
                ..old(self)@
            }),
            final(self).wf() == old(self).wf(),
            r == StopReason::PositionReached,
    {
        let (first, last) = self.lifetime();
        let mut to = pos;
        if to.is_before(first) {
            to = first;
        }
        if last.is_before(to) {
            to = last;
        }
        self.position = to;
        StopReason::PositionReached
    }

    /// The current thread.
    pub fn current_thread_id(&self) -> (r: Option<u64>)
        ensures
            r == self@.current_thread,
    {
        self.current_thread_id
    }

    /// Make a thread the current one.
    pub fn set_current_thread(&mut self, id: u64)
        ensures
            final(self)@ == (Process { current_thread: Some(id), ..old(self)@ }),
            final(self).wf() == old(self).wf(),
    {
        self.current_thread_id = Some(id);
    }

    /// Start a query: where the persistent cursor has to be moved first.
    pub fn begin_query(&mut self) -> (r: Option<TtdPosition>)
        ensures
            r == old(self)@.query_seek(),
            final(self)@ == (Process {
                stats: TargetStats {
                    queries: counted(old(self)@.stats.queries, 1),
                    ..old(self)@.stats
                },
                ..old(self)@
            }),
            final(self).wf() == old(self).wf(),
    {
        self.stats.queries = self.stats.queries.wrapping_add(1);
        if self.cursors.persistent.needs_seek(self.position) {
            Some(self.position)
        } else {
            None
        }
    }

    /// Record that the persistent cursor was moved and where it landed.
    pub fn note_seek(&mut self, landed: TtdPosition)
        ensures
            final(self)@.cursors.persistent.known() == Some(landed),
            final(self)@.cursors.step == old(self)@.cursors.step,
            final(self)@ == (Process {
                cursors: final(self)@.cursors,
                stats: TargetStats {
                    cursor_seeks: counted(old(self)@.stats.cursor_seeks, 1),
                    ..old(self)@.stats
                },
                ..old(self)@
            }),
            final(self).wf() == old(self).wf(),
    {
        self.cursors.persistent.note_position(landed);
        self.stats.cursor_seeks = self.stats.cursor_seeks.wrapping_add(1);
    }

    /// Start a continue: where the persistent cursor has to be moved first, and
    /// the end of the trace that limits the replay.
    pub fn begin_continue(&mut self, forward: bool) -> (r: ReplayPlan)
        ensures
            r.limit == (if forward {
                old(self)@.facts.last
            } else {
                old(self)@.facts.first
            }),
            r.seek == old(self)@.query_seek(),
            final(self)@ == (Process {
                stats: TargetStats {
                    replays: counted(old(self)@.stats.replays, 1),
                    ..old(self)@.stats
                },
                ..old(self)@
            }),
            final(self).wf() == old(self).wf(),
    {
        self.stats.replays = self.stats.replays.wrapping_add(1);
        let seek = if self.cursors.persistent.needs_seek(self.position) {
            Some(self.position)
        } else {
            None
        };
        let limit = if forward {
            self.engine.last_position()
        } else {
            self.engine.first_position()
        };
        ReplayPlan { seek, limit }
    }

    /// Whether a continue stops at a watchpoint hit, and at which breakpoint:
    /// the one with the lowest id that the hit belongs to. 0 means that the
    /// replay goes on.
    pub fn on_watchpoint_hit(&self, addr: u64, size: u64, access: u8, thread_id: u32) -> (r:
        BreakpointId)
        ensures
            r == (match first_where(
                self@.watch.logical.list,
                |b: Breakpoint| b.hit_on(addr, access, thread_id as u64),
            ) {
                Some(b) => b.id,
                None => 0,
            }),
    {
        match self.breakpoints.find_by_watchpoint_hit_and_thread(
            addr,
            size,
            access,
            thread_id as u64,
        ) {
            Some(bp) => bp.id,
            None => 0,
        }
    }

    /// Take over where a continue ended, and say why it stopped. `hit_id` is
    /// the breakpoint that stopped it, or 0.
    pub fn finish_continue(&mut self, end: &ReplayEnd, hit_id: BreakpointId, forward: bool) -> (r:
        StopReason)
        requires
            old(self).wf(),
        ensures
            final(self).wf(),
            continued(old(self)@, *end, final(self)@),
            r == continue_stop(
                *end,
                breakpoint_with(old(self)@.watch.logical.list, hit_id),
                hit_id,
                forward,
                old(self)@.facts,
            ),
    {
        self.position = end.position;
        self.cursors.persistent.note_position(end.position);
        if end.tid != 0 {
            self.current_thread_id = Some(end.tid as u64);
        }
        if hit_id != 0 {
            proof {
                self.breakpoints.lemma_contents_valid();
                lemma_breakpoint_with(self.breakpoints@.logical.list, hit_id);
            }
            return match self.breakpoints.get(hit_id) {
                Some(b) => {
                    proof {
                        let list = self.breakpoints@.logical.list;
                        let found = breakpoint_with(list, hit_id)->0;
                        lemma_same_id(list, *b, found);
                    }
                    if b.kind == BreakpointKind::Execute {
                        StopReason::Breakpoint { bp_id: hit_id, addr: b.addr }
                    } else {
                        StopReason::Watchpoint { bp_id: hit_id, addr: b.addr, access: b.access }
                    }
                },
                None => StopReason::Watchpoint {
                    bp_id: hit_id,
                    addr: end.result.wp_address,
                    access: end.result.wp_access_type,
                },
            };
        }
        let (first, last) = self.lifetime();
        if !forward && !first.is_before(end.position) {
            return StopReason::TraceStart;
        }
        if forward && !end.position.is_before(last) {
            return StopReason::TraceEnd;
        }
        self.enrich_exception(StopReason::from_replay_result(&end.result))
    }

    /// Forget where the persistent cursor stands, after a continue that failed.
    pub fn fail_continue(&mut self)
        ensures
            final(self)@.cursors.persistent.known() is None,
            final(self)@.cursors.step == old(self)@.cursors.step,
            final(self)@ == (Process { cursors: final(self)@.cursors, ..old(self)@ }),
            final(self).wf() == old(self).wf(),
    {
        self.cursors.persistent.invalidate();
    }

    /// Start a step: where the step cursor has to be moved first.
    pub fn begin_step(&self) -> (r: Option<TtdPosition>)
        ensures
            r == self@.step_seek(),
    {
        if self.cursors.step.needs_seek(self.position) {
            Some(self.position)
        } else {
            None
        }
    }

    /// Take over where a step ended, and say why it stopped. `seeked` says
    /// whether the step cursor had to be moved first.
    pub fn finish_step(&mut self, end: &ReplayEnd, seeked: bool) -> (r: StopReason)
        requires
            old(self).wf(),
        ensures
            final(self).wf(),
            stepped(old(self)@, *end, seeked, final(self)@),
            r == enriched(
                replay_stop(end.result),
                old(self)@.facts.exceptions,
                end.position,
            ),
    {
        if seeked {
            self.stats.cursor_seeks = self.stats.cursor_seeks.wrapping_add(1);
        }
        self.cursors.step.note_position(end.position);
        self.position = end.position;
        self.stats.steps = self.stats.steps.wrapping_add(1);
        if end.tid != 0 {
            self.current_thread_id = Some(end.tid as u64);
        }
        self.enrich_exception(StopReason::from_replay_result(&end.result))
    }

    /// Forget where the step cursor stands, after a step that failed.
    pub fn fail_step(&mut self)
        ensures
            final(self)@.cursors.step.known() is None,
            final(self)@.cursors.persistent == old(self)@.cursors.persistent,
            final(self)@ == (Process { cursors: final(self)@.cursors, ..old(self)@ }),
            final(self).wf() == old(self).wf(),
    {
        self.cursors.step.invalidate();
    }

    /// Give an exception stop the code and the address that were recorded at
    /// the debug position.
    fn enrich_exception(&self, reason: StopReason) -> (r: StopReason)
        ensures
            r == enriched(reason, self@.facts.exceptions, self@.position),
    {
        match reason {
            StopReason::Exception { code: 0, addr: _ } => {},
            _ => {
                return reason;
            },
        }
        let events = self.engine.exception_list();
        assert(events@.skip(0) =~= events@);
        for i in 0..events.len()
            invariant
                events@ == self@.facts.exceptions,
                reason is Exception,
                reason->Exception_code == 0,
                exception_at(events@, self@.position) == exception_at(
                    events@.skip(i as int),
                    self@.position,
                ),
        {
            let ev = &events[i];
            assert(events@.skip(i as int).skip(1) =~= events@.skip(i as int + 1));
            if ev.position == self.position {
                return StopReason::Exception { code: ev.code, addr: ev.exception_address };
            }
        }
        reason
    }

    /// The OS thread that a register query is about: the one asked for, else
    /// the current one. A thread that never appears in the trace has no state.
    pub fn queried_thread(&self, thread_id: Option<u64>) -> (r: Option<u32>)
        ensures
            r == self@.queried(thread_id),
    {
        let asked = match thread_id {
            Some(id) => Some(id),
            None => self.current_thread_id,
        };
        match asked {
            Some(id) => if id <= u32::MAX as u64 && self.breakpoints.knows_thread(id as u32) {
                Some(id as u32)
            } else {
                None
            },
            None => None,
        }
    }

    /// The modules of the trace.
    pub fn modules(&self) -> (r: Vec<ModuleInfo>)
        ensures
            module_views(r@) == self@.facts.modules,
    {
        let mut out: Vec<ModuleInfo> = Vec::new();
        let count = self.engine.module_count();
        for i in 0..count
            invariant
                count == self.engine@.modules.len(),
                module_views(out@) == self.engine@.modules.take(i as int),
        {
            if let Some((base_addr, size, name)) = self.engine.module_info(i) {
                let m = ModuleInfo { base_addr, size, name };
                let ghost before = out@;
                assert(m@ == self.engine@.modules[i as int]);
                out.push(m);
                assert(module_views(out@) =~= module_views(before).push(m@));
                assert(module_views(out@) =~= self.engine@.modules.take(i as int + 1));
            }
        }
        assert(self.engine@.modules.take(self.engine@.modules.len() as int)
            =~= self.engine@.modules);
        out
    }

    /// The recorded exceptions.
    pub fn exceptions(&self) -> (r: Vec<TtdExceptionEvent>)
        ensures
            r@ == self@.facts.exceptions,
    {
        let events = self.engine.exception_list();
        let mut out: Vec<TtdExceptionEvent> = Vec::new();
        for i in 0..events.len()
            invariant
                out@ == events@.take(i as int),
        {
            out.push(events[i]);
        }
        assert(events@.take(events@.len() as int) =~= events@);
        out
    }

    /// The diagnostics of the trace.
    pub fn diagnostics(&self) -> (r: TargetDiagnostics)
        ensures
            r@ == self@.shown_diagnostics(),
    {
        let list = self.engine.thread_list();
        let mut threads: Vec<ThreadDiagnostics> = Vec::new();
        let ghost shown = self@.shown_diagnostics().threads;
        for i in 0..list.len()
            invariant
                list@ == self@.facts.threads,
                shown == self@.shown_diagnostics().threads,
                threads@ == shown.take(i as int),
        {
            let t = &list[i];
            threads.push(
                ThreadDiagnostics {
                    unique_id: t.unique_id,
                    os_thread_id: t.os_thread_id,
                    active_time: (t.active_time.min, t.active_time.max),
                },
            );
            assert(threads@ =~= shown.take(i as int + 1));
        }
        assert(shown.take(shown.len() as int) =~= shown);
        let (first_position, last_position) = self.lifetime();
        TargetDiagnostics {
            first_position,
            last_position,
            current_position: self.position,
            threads,
            exception_count: self.engine.exception_count() as u32,
            module_count: self.engine.module_count() as u32,
        }
    }

    /// The counters of the process and of its watchpoints.
    pub fn stats(&self) -> (r: TargetStats)
        ensures
            r == self@.shown_stats(),
    {
        let watch = self.breakpoints.watchpoint_stats();
        TargetStats {
            queries: self.stats.queries,
            cursor_seeks: self.stats.cursor_seeks,
            steps: self.stats.steps,
            replays: self.stats.replays,
            watchpoint_adds: watch.adds,
            watchpoint_removes: watch.removes,
        }
    }
}

impl CommandTarget for TtdProcess {
    open spec fn at(&self) -> TtdPosition {
        self@.position
    }

    open spec fn span(&self) -> (TtdPosition, TtdPosition) {
        (self@.facts.first, self@.facts.last)
    }

    open spec fn may_move(&self, pos: TtdPosition, after: Self) -> bool {
        &&& after@ == (Process {
            position: clamped(pos, self@.facts.first, self@.facts.last),
            ..self@
        })
        &&& after.wf() == self.wf()
    }

    fn position(&self) -> TtdPosition {
        TtdProcess::position(self)
    }

    fn lifetime(&self) -> (TtdPosition, TtdPosition) {
        TtdProcess::lifetime(self)
    }

    fn goto(&mut self, pos: TtdPosition) {
        let _ = TtdProcess::goto(self, pos);
    }
}

impl TraceView for TtdProcess {
    open spec fn diagnostics_view(&self) -> Diagnostics {
        self@.shown_diagnostics()
    }

    open spec fn modules_view(&self) -> Seq<Module> {
        self@.facts.modules
    }

    open spec fn exceptions_view(&self) -> Seq<TtdExceptionEvent> {
        self@.facts.exceptions
    }

    open spec fn stats_view(&self) -> TargetStats {
        self@.shown_stats()
    }

    fn diagnostics(&self) -> TargetDiagnostics {
        TtdProcess::diagnostics(self)
    }

    fn modules(&self) -> Vec<ModuleInfo> {
        TtdProcess::modules(self)
    }

    fn exceptions(&self) -> Vec<TtdExceptionEvent> {
        TtdProcess::exceptions(self)
    }

    fn stats(&self) -> TargetStats {
        TtdProcess::stats(self)
    }
}

/// A breakpoint with an id is found exactly when one exists.
proof fn lemma_breakpoint_with(list: Seq<Breakpoint>, id: BreakpointId)
    ensures
        breakpoint_with(list, id) is Some <==> exists|i: int|
            0 <= i < list.len() && (#[trigger] list[i]).id == id,
        breakpoint_with(list, id) matches Some(b) ==> b.id == id && list.contains(b),
{
    law_hits_are_attributed(list, |b: Breakpoint| b.id == id);
    if breakpoint_with(list, id) is Some {
        let b = breakpoint_with(list, id)->0;
        let i = choose|i: int| 0 <= i < list.len() && list[i] == b;
        assert(list[i].id == id);
    }
}

/// Breakpoints of a list that grows in ids are told apart by their ids.
proof fn lemma_same_id(list: Seq<Breakpoint>, a: Breakpoint, b: Breakpoint)
    requires
        forall|i: int, j: int|
            0 <= i < j < list.len() ==> (#[trigger] list[i]).id < (#[trigger] list[j]).id,
        list.contains(a),
        list.contains(b),
        a.id == b.id,
    ensures
        a == b,
{
    let i = choose|i: int| 0 <= i < list.len() && list[i] == a;
    let j = choose|j: int| 0 <= j < list.len() && list[j] == b;
    if i < j {
        assert(list[i].id < list[j].id);
    } else if j < i {
        assert(list[j].id < list[i].id);
    }
}

/// The OS thread ids of the active threads.
pub fn active_thread_ids(active: &[TtdActiveThreadInfo]) -> (r: Vec<u64>)
    ensures
        r@ == active@.map_values(|t: TtdActiveThreadInfo| t.thread.os_thread_id as u64),
{
    let ghost ids = active@.map_values(|t: TtdActiveThreadInfo| t.thread.os_thread_id as u64);
    let mut out: Vec<u64> = Vec::new();
    for i in 0..active.len()
        invariant
            ids == active@.map_values(|t: TtdActiveThreadInfo| t.thread.os_thread_id as u64),
            out@ == ids.take(i as int),
    {
        out.push(active[i].thread.os_thread_id as u64);
        assert(out@ =~= ids.take(i as int + 1));
    }
    assert(ids.take(ids.len() as int) =~= ids);
    out
}

/// The first active thread with an OS thread id.
pub open spec fn active_thread(active: Seq<TtdActiveThreadInfo>, thread_id: u64) -> Option<
    TtdActiveThreadInfo,
>
    decreases active.len(),
{
    if active.len() == 0 {
        None
    } else if active[0].thread.os_thread_id as u64 == thread_id {
        Some(active[0])
    } else {
        active_thread(active.skip(1), thread_id)
    }
}

/// What there is to say of an active thread, given its TEB address.
pub fn thread_info(active: &[TtdActiveThreadInfo], thread_id: u64, teb: u64) -> (r: Option<
    ThreadExtraInfoData,
>)
    ensures
        r == (match active_thread(active@, thread_id) {
            Some(t) => Some(
                ThreadExtraInfoData {
                    unique_id: t.thread.unique_id,
                    current_position: t.current_position,
                    teb,
                },
            ),
            None => None,
        }),
{
    assert(active@.skip(0) =~= active@);
    for i in 0..active.len()
        invariant
            active_thread(active@, thread_id) == active_thread(active@.skip(i as int), thread_id),
    {
        let t = &active[i];
        assert(active@.skip(i as int).skip(1) =~= active@.skip(i as int + 1));
        if t.thread.os_thread_id as u64 == thread_id {
            return Some(
                ThreadExtraInfoData {
                    unique_id: t.thread.unique_id,
                    current_position: t.current_position,
                    teb,
                },
            );
        }
    }
    None
}

/// A cursor that was moved, or that an operation ended on, is not moved again
/// until the debug position changes: consecutive steps need no repositioning.
pub proof fn law_cursors_are_moved_only_when_needed(p: Process)
    ensures
        p.cursors.step.known() == Some(p.position) <==> p.step_seek() is None,
        p.cursors.persistent.known() == Some(p.position) <==> p.query_seek() is None,
        p.step_seek() matches Some(pos) ==> pos == p.position,
        p.query_seek() matches Some(pos) ==> pos == p.position,
{
}

/// Of steps in a row only the first may have to move a cursor, and none of them
/// touches the persistent cursor, the breakpoints, or the queries that were
/// counted.
pub proof fn law_steps_in_a_row_do_not_seek(
    start: Process,
    first: ReplayEnd,
    between: Process,
    second: ReplayEnd,
    end: Process,
)
    requires
        stepped(start, first, start.step_seek() is Some, between),
        stepped(between, second, between.step_seek() is Some, end),
    ensures
        between.step_seek() is None,
        end.stats.cursor_seeks == between.stats.cursor_seeks,
        end.stats.queries == start.stats.queries,
        end.cursors.persistent == start.cursors.persistent,
        end.watch == start.watch,
{
}

/// After a continue the persistent cursor stands where the queries need it.
pub proof fn law_queries_after_a_continue_do_not_seek(
    before: Process,
    end: ReplayEnd,
    after: Process,
)
    requires
        continued(before, end, after),
    ensures
        after.query_seek() is None,
        after.stats == before.stats,
        after.watch == before.watch,
{
}

/// A thread id that never appears in the trace has no state.
pub proof fn law_unknown_threads_have_no_state(p: Process, thread_id: u64)
    requires
        p.watch.threads == catalog(p.facts.threads),
        forall|i: int|
            0 <= i < p.facts.threads.len() ==> (#[trigger] p.facts.threads[i]).os_thread_id
                != thread_id,
    ensures
        p.queried(Some(thread_id)) is None,
{
    if thread_id <= u32::MAX {
        law_catalog_knows_every_thread(p.facts.threads, thread_id as u32);
    }
}

/// A jump ends within the trace, and a position within the trace is reached
/// exactly.
pub proof fn law_jumps_stay_in_the_trace(
    pos: TtdPosition,
    first: TtdPosition,
    last: TtdPosition,
)
    requires
        !last.precedes(first),
    ensures
        !clamped(pos, first, last).precedes(first),
        !last.precedes(clamped(pos, first, last)),
        !pos.precedes(first) && !last.precedes(pos) ==> clamped(pos, first, last) == pos,
        clamped(clamped(pos, first, last), first, last) == clamped(pos, first, last),
{
}

} // verus!
