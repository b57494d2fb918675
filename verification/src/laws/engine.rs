//! The engine: opening a trace, its callbacks and cursors, and its failures.

use vstd::prelude::*;

use crate::gdb::checkpoint::CheckpointTable;
use crate::gdb::runner::{AlreadyRunning, WorkerPanic};
use crate::target::breakpoint::BreakpointKind;
use crate::target::cursors::PositionedCursor;
use crate::target::error::DebugError;
use crate::target::{Module, ModuleInfo};
use crate::text::utf8::utf16_text;
use crate::ttd::cursor::{check_call, Registration, TtdCursor};
use crate::ttd::engine::{
    before_nul, cut_at_nul, name_from_buffer, next_stage, OpenStage, TtdEngine,
};
use crate::ttd::error::TtdError;
use crate::ttd::types::{TtdExceptionEvent, TtdPosition, TtdPositionRange, TtdThreadInfo};
use super::numbers::is_numeral;

verus! {

/// A trace is opened in three calls that have to succeed one after the other:
/// create, load, build the index.
pub proof fn law_open_in_order(
    path: &str,
    loading: Result<OpenStage, TtdError>,
    indexing: Result<OpenStage, TtdError>,
    ready: Result<OpenStage, TtdError>,
    still: Result<OpenStage, TtdError>,
    code: i32,
)
    requires
        call_ensures(next_stage, (OpenStage::Create, path, 0i32), loading),
        loading is Ok ==> call_ensures(next_stage, (loading->Ok_0, path, 0i32), indexing),
        indexing is Ok ==> call_ensures(next_stage, (indexing->Ok_0, path, 0i32), ready),
        call_ensures(next_stage, (OpenStage::Ready, path, code), still),
    ensures
        loading matches Ok(s) && s == OpenStage::Load,
        indexing matches Ok(s) && s == OpenStage::BuildIndex,
        ready matches Ok(s) && s == OpenStage::Ready,
        still matches Ok(s) && s == OpenStage::Ready,
{
}

/// A call of the engine that fails ends the opening with its own failure, which
/// carries the code, and the path where a file was to be loaded.
pub proof fn law_open_failures(
    path: &str,
    code: i32,
    create: Result<OpenStage, TtdError>,
    load: Result<OpenStage, TtdError>,
    index: Result<OpenStage, TtdError>,
)
    requires
        code != 0,
        call_ensures(next_stage, (OpenStage::Create, path, code), create),
        call_ensures(next_stage, (OpenStage::Load, path, code), load),
        call_ensures(next_stage, (OpenStage::BuildIndex, path, code), index),
    ensures
        create == Err::<OpenStage, TtdError>(TtdError::EngineCreationFailed),
        (load is Err && load->Err_0 is TraceLoadFailed && load->Err_0->path@ == path@
            && load->Err_0->TraceLoadFailed_code == code),
        index == Err::<OpenStage, TtdError>(TtdError::IndexBuildFailed { code }),
{
}

/// A call of a cursor fails if it answers with anything but zero.
pub proof fn law_engine_calls(code: i32, what: &'static str, r: Result<(), TtdError>)
    requires
        call_ensures(check_call, (code, what), r),
    ensures
        code == 0 ==> r is Ok,
        code != 0 ==> r == Err::<(), TtdError>(TtdError::Ffi(what)),
{
}

/// A name ends at the first NUL of its buffer, or with the buffer.
pub proof fn law_names(units: &[u16], n: int, cut: Vec<u16>, text: String)
    requires
        0 <= n <= units@.len(),
        forall|i: int| 0 <= i < n ==> #[trigger] units@[i] != 0,
        n < units@.len() ==> units@[n] == 0,
        call_ensures(cut_at_nul, (units,), cut),
        call_ensures(name_from_buffer, (units,), text),
    ensures
        cut@ == units@.take(n),
        text@ == utf16_text(units@.take(n)),
{
    lemma_before_nul(units@, n);
}

proof fn lemma_before_nul(units: Seq<u16>, n: int)
    requires
        0 <= n <= units.len(),
        forall|i: int| 0 <= i < n ==> #[trigger] units[i] != 0,
        n < units.len() ==> units[n] == 0,
    ensures
        before_nul(units) == units.take(n),
    decreases units.len(),
{
    if n == 0 {
        assert(units.take(0) =~= Seq::<u16>::empty());
    } else {
        assert(units[0] != 0);
        assert forall|i: int| 0 <= i < n - 1 implies #[trigger] units.skip(1)[i] != 0 by {
            assert(units[i + 1] != 0);
        }
        lemma_before_nul(units.skip(1), n - 1);
        assert(seq![units[0]] + units.skip(1).take(n - 1) =~= units.take(n));
    }
}

/// The engine tells what the trace holds.
pub proof fn law_engine_facts(
    first: TtdPosition,
    last: TtdPosition,
    threads: Vec<TtdThreadInfo>,
    exceptions: Vec<TtdExceptionEvent>,
    modules: Vec<ModuleInfo>,
    e: TtdEngine,
    idx: usize,
    a: TtdPosition,
    b: TtdPosition,
    range: TtdPositionRange,
    n_threads: usize,
    thread: Option<TtdThreadInfo>,
    all_threads: &[TtdThreadInfo],
    n_exceptions: usize,
    exception: TtdExceptionEvent,
    all_exceptions: &[TtdExceptionEvent],
    n_modules: usize,
    module: Option<(u64, u64, String)>,
)
    requires
        call_ensures(TtdEngine::open, (first, last, threads, exceptions, modules), e),
        call_ensures(TtdEngine::first_position, (&e,), a),
        call_ensures(TtdEngine::last_position, (&e,), b),
        call_ensures(TtdEngine::lifetime, (&e,), range),
        call_ensures(TtdEngine::thread_count, (&e,), n_threads),
        call_ensures(TtdEngine::thread_info, (&e, idx), thread),
        call_ensures(TtdEngine::thread_list, (&e,), all_threads),
        call_ensures(TtdEngine::exception_count, (&e,), n_exceptions),
        call_ensures(TtdEngine::exception_event, (&e, idx), exception),
        call_ensures(TtdEngine::exception_list, (&e,), all_exceptions),
        call_ensures(TtdEngine::module_count, (&e,), n_modules),
        call_ensures(TtdEngine::module_info, (&e, idx), module),
    ensures
        a == first && b == last && range.min == first && range.max == last,
        n_threads == threads@.len(),
        all_threads@ == threads@,
        thread == (if idx < threads@.len() {
            Some(threads@[idx as int])
        } else {
            None
        }),
        n_exceptions == exceptions@.len(),
        all_exceptions@ == exceptions@,
        idx < exceptions@.len() ==> exception == exceptions@[idx as int],
        n_modules == modules@.len(),
        module is Some <==> idx < modules@.len(),
        module matches Some((base, size, name)) ==> base == modules@[idx as int].base_addr && size
            == modules@[idx as int].size && name@ == modules@[idx as int].name@,
{
    if idx < modules@.len() {
        let m: Module = modules@[idx as int]@;
        assert(e@.modules[idx as int] == m);
    }
}

/// While a scope runs its callback is the registered one; afterwards the owned
/// one is registered again, if there is one.
pub proof fn law_scoped_callbacks(
    fresh: TtdCursor,
    set: &mut TtdCursor,
    entered: &mut TtdCursor,
    left: &mut TtdCursor,
    cleared: &mut TtdCursor,
    bare: &mut TtdCursor,
    bare_left: &mut TtdCursor,
    r0: Registration,
    r1: Registration,
    r2: Registration,
    r3: Registration,
    r4: Registration,
    r5: Registration,
    r6: Registration,
    r7: Registration,
    during: Registration,
)
    requires
        call_ensures(TtdCursor::new, (), fresh),
        call_ensures(TtdCursor::registered, (&fresh,), r0),
        *set == fresh,
        call_ensures(TtdCursor::set_watchpoint_callback, (set,), r1),
        *entered == *final(set),
        call_ensures(TtdCursor::enter_scope, (entered,), r2),
        call_ensures(TtdCursor::registered, (&*final(entered),), during),
        *left == *final(entered),
        call_ensures(TtdCursor::leave_scope, (left,), r3),
        *cleared == *final(left),
        call_ensures(TtdCursor::clear_watchpoint_callback, (cleared,), r4),
        call_ensures(TtdCursor::registered, (&*final(cleared),), r5),
        *bare == fresh,
        call_ensures(TtdCursor::enter_scope, (bare,), r6),
        *bare_left == *final(bare),
        call_ensures(TtdCursor::leave_scope, (bare_left,), r7),
    ensures
        r0 == Registration::Nothing,
        r1 == Registration::Owned,
        r2 == Registration::Scoped && during == Registration::Scoped,
        r3 == Registration::Owned,
        r4 == Registration::Nothing && r5 == Registration::Nothing,
        r6 == Registration::Scoped,
        r7 == Registration::Nothing,
        !fresh.has_progress(),
        final(set).has_progress() == old(set).has_progress(),
        final(entered).has_progress() == old(entered).has_progress(),
        final(left).has_progress() == old(left).has_progress(),
{
}

/// A callback that is given up is not registered any more, nor is one of a scope
/// that was running.
pub proof fn law_cleared_callbacks(
    c: &mut TtdCursor,
    r: Registration,
    now: Registration,
)
    requires
        call_ensures(TtdCursor::clear_watchpoint_callback, (c,), r),
        call_ensures(TtdCursor::registered, (&*final(c),), now),
    ensures
        r == Registration::Nothing && now == Registration::Nothing,
        final(c).has_progress() == old(c).has_progress(),
{
}

/// What is registered is what a cursor says is registered, and the progress
/// callback has a slot of its own.
pub proof fn law_callback_slots(
    c: TtdCursor,
    before: Registration,
    set: &mut TtdCursor,
    r: Registration,
    during: Registration,
    cleared: &mut TtdCursor,
    q: Registration,
    after: Registration,
)
    requires
        call_ensures(TtdCursor::registered, (&c,), before),
        *set == c,
        call_ensures(TtdCursor::set_progress_callback, (set,), r),
        call_ensures(TtdCursor::registered, (&*final(set),), during),
        *cleared == *final(set),
        call_ensures(TtdCursor::clear_progress_callback, (cleared,), q),
        call_ensures(TtdCursor::registered, (&*final(cleared),), after),
    ensures
        r == Registration::Owned,
        final(set).has_progress(),
        q == Registration::Nothing,
        !final(cleared).has_progress(),
        during == before && after == before,
{
}

/// A cursor is moved unless it is known to stand where it is needed.
pub proof fn law_positioned_cursors(
    fresh: PositionedCursor,
    pos: TtdPosition,
    other: TtdPosition,
    r0: bool,
    noted: &mut PositionedCursor,
    r1: bool,
    r2: bool,
    lost: &mut PositionedCursor,
    r3: bool,
)
    requires
        pos != other,
        call_ensures(PositionedCursor::new, (), fresh),
        call_ensures(PositionedCursor::needs_seek, (&fresh, pos), r0),
        call_ensures(PositionedCursor::note_position, (noted, pos), ()),
        call_ensures(PositionedCursor::needs_seek, (&*final(noted), pos), r1),
        call_ensures(PositionedCursor::needs_seek, (&*final(noted), other), r2),
        call_ensures(PositionedCursor::invalidate, (lost,), ()),
        call_ensures(PositionedCursor::needs_seek, (&*final(lost), pos), r3),
    ensures
        r0 && !r1 && r2 && r3,
{
}

/// A number with its sign.
pub open spec fn is_signed_numeral(t: Seq<char>, n: int) -> bool {
    if n < 0 {
        t.len() > 0 && t[0] == '-' && is_numeral(t.skip(1), 10, false, (-n) as nat)
    } else {
        is_numeral(t, 10, false, n as nat)
    }
}

proof fn lemma_signed(n: int)
    ensures
        is_signed_numeral(crate::ttd::error::signed(n), n),
{
    if n < 0 {
        super::numbers::law_numerals((-n) as nat);
        assert(crate::ttd::error::signed(n).skip(1) =~= crate::text::digits::decimal((-n) as nat));
    } else {
        super::numbers::law_numerals(n as nat);
    }
}

/// The failures of the engine in words: what could not be done, with which file,
/// and with which code.
pub proof fn law_engine_failures_are_said(e: TtdError, r: String)
    requires
        call_ensures(TtdError::message, (&e,), r),
    ensures
        e is EngineCreationFailed ==> r@ == "Failed to create TTD replay engine"@,
        e is CursorCreationFailed ==> r@ == "Failed to create cursor"@,
        e is NullPointer ==> r@ == "Null pointer encountered"@,
        e matches TtdError::Ffi(what) ==> r@ == "FFI error: "@ + what@,
        e matches TtdError::IndexBuildFailed { code } ==> exists|n: Seq<char>| #[trigger]
            is_signed_numeral(n, code as int) && r@ == "Failed to build trace index: error code "@
                + n,
        e matches TtdError::TraceLoadFailed { path, code } ==> exists|n: Seq<char>| #[trigger]
            is_signed_numeral(n, code as int) && r@ == "Failed to load trace '"@ + path@
                + "': error code "@ + n,
{
    if e is IndexBuildFailed {
        lemma_signed(e->IndexBuildFailed_code as int);
    }
    if e is TraceLoadFailed {
        lemma_signed(e->TraceLoadFailed_code as int);
    }
}

/// An address with `0x` in front.
pub open spec fn is_address(t: Seq<char>, addr: u64) -> bool {
    t.len() > 2 && t[0] == '0' && t[1] == 'x' && is_numeral(t.skip(2), 16, false, addr as nat)
}

/// The failures of the target in words: what it was, the address where there is
/// one, and the engine's words where it was the engine.
pub proof fn law_target_failures_are_said(e: DebugError, r: String, source: TtdError, why: String)
    requires
        call_ensures(DebugError::message, (&e,), r),
        call_ensures(TtdError::message, (&source,), why),
    ensures
        e is NotLoaded ==> r@ == "No trace loaded"@,
        e == DebugError::Ttd(source) ==> r@ == "TTD error: "@ + why@,
        e matches DebugError::ReplayFailed(what) ==> r@ == "Replay failed: "@ + what@,
        e matches DebugError::TargetXmlNotFound(annex) ==> r@
            == "Target description XML not found: "@ + annex@,
        e matches DebugError::InvalidAddress(addr) ==> exists|n: Seq<char>| #[trigger]
            is_address(n, addr) && r@ == "Invalid address: "@ + n,
        (e is BreakpointRegister && e->source == source) ==> exists|n: Seq<char>| #[trigger]
            is_address(n, e->addr) && r@ == "Failed to register breakpoint at "@ + n + ": "@ + why@,
{
    if e is InvalidAddress {
        super::numbers::law_numerals(e->InvalidAddress_0 as nat);
        assert(is_address(
            crate::text::digits::hex_prefixed(e->InvalidAddress_0 as nat),
            e->InvalidAddress_0,
        ));
    }
    if e is BreakpointRegister {
        super::numbers::law_numerals(e->addr as nat);
        assert(is_address(crate::text::digits::hex_prefixed(e->addr as nat), e->addr));
    }
}

/// A panic is told by its text, if it has one.
pub proof fn law_panics_are_said(
    text: &str,
    p: WorkerPanic,
    r: &str,
    other: WorkerPanic,
    q: &str,
    busy: AlreadyRunning,
    b: &'static str,
)
    requires
        call_ensures(WorkerPanic::from_payload, (Some(text),), p),
        call_ensures(WorkerPanic::message, (&p,), r),
        call_ensures(WorkerPanic::from_payload, (None,), other),
        call_ensures(WorkerPanic::message, (&other,), q),
        call_ensures(AlreadyRunning::message, (&busy,), b),
    ensures
        r@ == text@,
        q@ == "non-string panic payload"@,
        b@ == "a replay is already in flight"@,
{
}

/// A kind of breakpoint watches reads, writes or execution, or reads and writes.
pub proof fn law_kinds(kind: BreakpointKind, r: u8)
    requires
        call_ensures(BreakpointKind::access_mask, (kind,), r),
    ensures
        r & 1 != 0 <==> kind is Read || kind is Access,
        r & 2 != 0 <==> kind is Write || kind is Access,
        r & 4 != 0 <==> kind is Execute,
        r < 8,
{
    assert(1u8 & 1 == 1 && 1u8 & 2 == 0 && 1u8 & 4 == 0) by (bit_vector);
    assert(2u8 & 1 == 0 && 2u8 & 2 == 2 && 2u8 & 4 == 0) by (bit_vector);
    assert(3u8 & 1 == 1 && 3u8 & 2 == 2 && 3u8 & 4 == 0) by (bit_vector);
    assert(4u8 & 1 == 0 && 4u8 & 2 == 0 && 4u8 & 4 == 4) by (bit_vector);
}

/// An empty table of checkpoints has room, and it fills up one id at a time.
pub proof fn law_checkpoint_room(
    t: CheckpointTable,
    full: bool,
    s: &mut CheckpointTable,
    pos: TtdPosition,
    place: &str,
    r: (u64, String),
    now: CheckpointTable,
    now_full: bool,
)
    requires
        call_ensures(CheckpointTable::new, (), t),
        call_ensures(CheckpointTable::is_full, (&t,), full),
        call_ensures(CheckpointTable::insert, (s, pos, place), r),
        now == *final(s),
        call_ensures(CheckpointTable::is_full, (&now,), now_full),
    ensures
        !full,
        now_full <==> r.0 + 1 == u64::MAX,
{
}

} // verus!
