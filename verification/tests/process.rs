//! The debug position of a loaded trace.

use std::cell::RefCell;

use ttd_gdbserver::gdb::checkpoint::CheckpointTable;
use ttd_gdbserver::gdb::commands::{handle_qrrcmd, handle_vrun};
use ttd_gdbserver::gdb::monitor::render;
use ttd_gdbserver::target::breakpoint::BreakpointKind;
use ttd_gdbserver::target::error::DebugError;
use ttd_gdbserver::target::process::{
    active_thread_ids, thread_info, ReplayEnd, ReplayPlan, TtdProcess,
};
use ttd_gdbserver::target::stop_reason::StopReason;
use ttd_gdbserver::target::watchpoint::{WatchpointCursor, WatchpointKey};
use ttd_gdbserver::target::ModuleInfo;
use ttd_gdbserver::ttd::engine::TtdEngine;
use ttd_gdbserver::ttd::error::TtdError;
use ttd_gdbserver::ttd::types::{
    EventType, TtdActiveThreadInfo, TtdExceptionEvent, TtdPosition, TtdReplayResult,
    TtdThreadInfo,
};

fn pos(sequence: u64, steps: u64) -> TtdPosition {
    TtdPosition { sequence, steps }
}

#[derive(Default)]
struct Accepting {
    adds: RefCell<Vec<WatchpointKey>>,
}

impl WatchpointCursor for Accepting {
    fn add_watchpoint(&mut self, key: WatchpointKey) -> Result<(), TtdError> {
        self.adds.borrow_mut().push(key);
        Ok(())
    }

    fn remove_watchpoint(&mut self, _key: WatchpointKey) -> Result<(), TtdError> {
        Ok(())
    }
}

fn process() -> TtdProcess {
    let thread = |unique_id, os_thread_id| TtdThreadInfo {
        unique_id,
        os_thread_id,
        ..Default::default()
    };
    let event = |code, position| TtdExceptionEvent {
        code,
        flags: 0,
        exception_address: 0xdead,
        program_counter: 0x1000,
        position,
    };
    TtdProcess::open(TtdEngine::open(
        pos(1, 0),
        pos(9, 9),
        vec![thread(2, 0x3784), thread(3, 0x42)],
        vec![event(0xc000_0005, pos(5, 5)), event(0xe06d_7363, pos(5, 5))],
        vec![ModuleInfo {
            base_addr: 0x1000,
            size: 0x20,
            name: "a.exe".to_string(),
        }],
    ))
}

fn end(stop_reason: EventType, position: TtdPosition, tid: u32) -> ReplayEnd {
    ReplayEnd {
        result: TtdReplayResult {
            stop_reason,
            wp_address: 0x77,
            wp_access_type: 2,
        },
        position,
        tid,
    }
}

#[test]
fn trace_opens_at_its_start_on_its_first_thread() {
    let p = process();
    assert_eq!(p.position(), pos(1, 0));
    assert_eq!(p.lifetime(), (pos(1, 0), pos(9, 9)));
    assert_eq!(p.current_thread_id(), Some(0x3784));
    assert_eq!(p.modules()[0].name, "a.exe");
    assert_eq!(p.exceptions().len(), 2);
}

#[test]
fn jumps_stay_in_the_trace() {
    let mut p = process();
    for (to, at) in [
        (pos(5, 3), pos(5, 3)),
        (pos(0, 7), pos(1, 0)),
        (pos(9, 10), pos(9, 9)),
        (pos(u64::MAX, 0), pos(9, 9)),
    ] {
        assert_eq!(p.goto(to), StopReason::PositionReached);
        assert_eq!(p.position(), at);
    }
}

#[test]
fn continue_runs_towards_the_end_of_the_trace() {
    let mut p = process();
    assert_eq!(
        p.begin_continue(true),
        ReplayPlan {
            seek: Some(pos(1, 0)),
            limit: pos(9, 9)
        }
    );
    let reason = p.finish_continue(&end(EventType::Position, pos(9, 9), 0x42), 0, true);
    assert_eq!(reason, StopReason::TraceEnd);
    assert_eq!(p.position(), pos(9, 9));
    assert_eq!(p.current_thread_id(), Some(0x42));

    // The cursor is where the replay ended: no seek before the next one.
    assert_eq!(
        p.begin_continue(false),
        ReplayPlan {
            seek: None,
            limit: pos(1, 0)
        }
    );
    let reason = p.finish_continue(&end(EventType::Position, pos(1, 0), 0), 0, false);
    assert_eq!(reason, StopReason::TraceStart);
    assert_eq!(p.current_thread_id(), Some(0x42), "thread 0 is not adopted");

    // Not at a boundary: what the engine says.
    let reason = p.finish_continue(&end(EventType::Gap, pos(3, 0), 0), 0, true);
    assert_eq!(reason, StopReason::StepComplete);
    p.fail_continue();
    assert_eq!(p.begin_continue(true).seek, Some(pos(3, 0)));
}

#[test]
fn breakpoint_hits_are_reported_by_kind() {
    let mut p = process();
    let mut cursor = Accepting::default();
    let execute = p.breakpoints_mut().set_breakpoint(0x4000, Some(0x42), &mut cursor).unwrap();
    let data = p
        .breakpoints_mut()
        .set_data_breakpoint(0x5000, 4, BreakpointKind::Access, &mut cursor)
        .unwrap();
    assert_eq!(cursor.adds.borrow()[0].tid, 3);

    assert_eq!(p.on_watchpoint_hit(0x4000, 1, 4, 0x42), execute);
    assert_eq!(p.on_watchpoint_hit(0x4000, 1, 4, 0x3784), 0);
    assert_eq!(p.on_watchpoint_hit(0x5003, 1, 1, 0), data);
    assert_eq!(p.on_watchpoint_hit(0x5004, 1, 1, 0), 0);

    let at = end(EventType::MemoryWatchpoint, pos(3, 3), 0);
    assert_eq!(
        p.finish_continue(&at, execute, true),
        StopReason::Breakpoint {
            bp_id: execute,
            addr: 0x4000
        }
    );
    assert_eq!(
        p.finish_continue(&at, data, true),
        StopReason::Watchpoint {
            bp_id: data,
            addr: 0x5000,
            access: 3
        }
    );
    // An unregistered breakpoint: what the engine says.
    assert_eq!(
        p.finish_continue(&at, 99, true),
        StopReason::Watchpoint {
            bp_id: 99,
            addr: 0x77,
            access: 2
        }
    );
    assert_eq!(p.stats().watchpoint_adds, 2);
}

#[test]
fn exceptions_get_code_and_address_of_the_first_event_there() {
    let mut p = process();
    let reason = p.finish_step(&end(EventType::Exception, pos(5, 5), 0), true);
    assert_eq!(
        reason,
        StopReason::Exception {
            code: 0xc000_0005,
            addr: 0xdead
        }
    );
    let reason = p.finish_step(&end(EventType::Exception, pos(5, 6), 0), false);
    assert_eq!(reason, StopReason::Exception { code: 0, addr: 0 });
}

#[test]
fn consecutive_steps_need_no_seek() {
    let mut p = process();
    assert_eq!(p.begin_step(), Some(pos(1, 0)));
    p.finish_step(&end(EventType::StepCount, pos(1, 1), 0), true);
    assert_eq!(p.begin_step(), None);
    p.finish_step(&end(EventType::StepCount, pos(1, 2), 0), false);
    assert_eq!((p.stats().steps, p.stats().cursor_seeks), (2, 1));
    p.fail_step();
    assert_eq!(p.begin_step(), Some(pos(1, 2)));
    p.goto(pos(4, 4));
    assert_eq!(p.begin_step(), Some(pos(4, 4)));
}

#[test]
fn queries_seek_once_per_position() {
    let mut p = process();
    assert_eq!(p.begin_query(), Some(pos(1, 0)));
    p.note_seek(pos(1, 0));
    assert_eq!(p.begin_query(), None);
    assert_eq!((p.stats().queries, p.stats().cursor_seeks), (2, 1));
    p.goto(pos(2, 0));
    assert_eq!(p.begin_query(), Some(pos(2, 0)));
}

#[test]
fn unknown_threads_have_no_state() {
    let mut p = process();
    assert_eq!(p.queried_thread(Some(0x42)), Some(0x42));
    assert_eq!(p.queried_thread(Some(0x43)), None);
    assert_eq!(p.queried_thread(Some(0x1_0000_0042)), None);
    assert_eq!(p.queried_thread(None), Some(0x3784));
    p.set_current_thread(7);
    assert_eq!(p.queried_thread(None), None);
}

#[test]
fn active_threads_are_found_by_os_id() {
    let active = |unique_id, os_thread_id| TtdActiveThreadInfo {
        thread: TtdThreadInfo {
            unique_id,
            os_thread_id,
            ..Default::default()
        },
        current_position: pos(unique_id as u64, 0),
    };
    let list = [active(1, 0x10), active(2, 0x20), active(3, 0x20)];
    assert_eq!(active_thread_ids(&list), vec![0x10, 0x20, 0x20]);
    let info = thread_info(&list, 0x20, 0x7ffe_0000).unwrap();
    assert_eq!((info.unique_id, info.teb), (2, 0x7ffe_0000));
    assert_eq!(info.current_position, pos(2, 0));
    assert!(thread_info(&list, 0x30, 0).is_none());
}

#[test]
fn commands_and_monitor_work_on_the_process() {
    let mut p = process();
    let mut checkpoints = CheckpointTable::new();
    handle_vrun(&mut p, &checkpoints, Some(b"c0:1".as_slice()));
    assert_eq!(p.position(), pos(9, 9), "a jump beyond the end stops at the end");
    assert_eq!(handle_qrrcmd(&p, &mut checkpoints, ":when:-1"), "9:9");

    let mut out = String::new();
    render("ttd info", &p, "", &mut out);
    assert!(out.contains("lifetime: 1:0 .. 9:9\ncurrent: 9:9\nmodules: 1\n"), "{out}");
    assert!(out.contains("threads (lifetime): 2\nexception events: 2\n"), "{out}");
}

#[test]
fn target_failures_have_words() {
    let words = [
        (
            DebugError::Ttd(TtdError::NullPointer),
            "TTD error: Null pointer encountered",
        ),
        (DebugError::NotLoaded, "No trace loaded"),
        (DebugError::InvalidAddress(0x1f), "Invalid address: 0x1f"),
        (
            DebugError::ReplayFailed("it broke".to_string()),
            "Replay failed: it broke",
        ),
        (
            DebugError::TargetXmlNotFound("x.xml".to_string()),
            "Target description XML not found: x.xml",
        ),
        (
            DebugError::BreakpointRegister {
                addr: 0x1000,
                source: TtdError::Ffi("full"),
            },
            "Failed to register breakpoint at 0x1000: FFI error: full",
        ),
    ];
    for (error, text) in words {
        assert_eq!(error.message(), text);
    }
}
