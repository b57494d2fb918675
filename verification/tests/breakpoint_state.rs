//! Logical breakpoints and the physical watchpoints that stand for them.

use std::cell::{Cell, RefCell};

use ttd_gdbserver::target::breakpoint::BreakpointKind;
use ttd_gdbserver::target::breakpoint_state::{BreakpointState, WatchpointStats};
use ttd_gdbserver::target::threads::ThreadTable;
use ttd_gdbserver::target::watchpoint::{WatchpointCursor, WatchpointKey};
use ttd_gdbserver::ttd::error::TtdError;
use ttd_gdbserver::ttd::types::TtdThreadInfo;

#[derive(Default)]
struct FakeCursor {
    adds: RefCell<Vec<WatchpointKey>>,
    removes: RefCell<Vec<WatchpointKey>>,
    fail_next_add: Cell<bool>,
    fail_next_remove: Cell<bool>,
}

impl WatchpointCursor for FakeCursor {
    fn add_watchpoint(&mut self, key: WatchpointKey) -> Result<(), TtdError> {
        if self.fail_next_add.replace(false) {
            return Err(TtdError::Ffi("add failed"));
        }
        self.adds.borrow_mut().push(key);
        Ok(())
    }

    fn remove_watchpoint(&mut self, key: WatchpointKey) -> Result<(), TtdError> {
        if self.fail_next_remove.replace(false) {
            return Err(TtdError::Ffi("remove failed"));
        }
        self.removes.borrow_mut().push(key);
        Ok(())
    }
}

fn state_with_threads(infos: &[TtdThreadInfo]) -> BreakpointState {
    BreakpointState::new(ThreadTable::from_engine_threads(infos))
}

fn thread_info(unique_id: u32, os_thread_id: u32) -> TtdThreadInfo {
    TtdThreadInfo {
        unique_id,
        os_thread_id,
        ..Default::default()
    }
}

#[test]
fn duplicate_ids_collapse_to_one_physical_watchpoint() {
    let mut state = state_with_threads(&[]);
    let mut cursor = FakeCursor::default();

    let a = state
        .set_data_breakpoint(0x1000, 8, BreakpointKind::Write, &mut cursor)
        .unwrap();
    let b = state
        .set_data_breakpoint(0x1000, 8, BreakpointKind::Write, &mut cursor)
        .unwrap();
    assert_ne!(a, b, "logical ids stay distinct");
    assert_eq!(cursor.adds.borrow().len(), 1, "same key must add once");

    // Removing one of two equal logical keys keeps the physical entry.
    assert!(state.remove_breakpoint(a, &mut cursor));
    assert_eq!(cursor.removes.borrow().len(), 0);

    // Removing the last one removes it exactly once.
    assert!(state.remove_breakpoint(b, &mut cursor));
    assert_eq!(cursor.removes.borrow().len(), 1);
    assert_eq!(
        state.watchpoint_stats(),
        WatchpointStats {
            adds: 1,
            removes: 1
        }
    );
}

#[test]
fn failed_add_rolls_back_logical_entry_and_is_retried() {
    let mut state = state_with_threads(&[]);
    let mut cursor = FakeCursor::default();
    cursor.fail_next_add.set(true);

    assert!(state.set_breakpoint(0x2000, None, &mut cursor).is_err());
    assert!(cursor.adds.borrow().is_empty());
    assert_eq!(state.watchpoint_stats().adds, 0);

    // The failed logical entry was rolled back; the next call retries
    // registration and succeeds.
    let id = state.set_breakpoint(0x2000, None, &mut cursor).unwrap();
    assert!(state.get(id).is_some());
    assert_eq!(cursor.adds.borrow().len(), 1);
    assert_eq!(state.watchpoint_stats().adds, 1);
}

#[test]
fn failed_remove_stays_tracked_and_a_later_sync_retries_it() {
    let mut state = state_with_threads(&[]);
    let mut cursor = FakeCursor::default();

    let id = state
        .set_data_breakpoint(0x3000, 4, BreakpointKind::Read, &mut cursor)
        .unwrap();
    cursor.fail_next_remove.set(true);
    assert!(state.remove_breakpoint(id, &mut cursor));
    assert!(cursor.removes.borrow().is_empty());
    assert_eq!(state.watchpoint_stats().removes, 0);

    // Adding a new logical key forces another sync; the stale physical
    // key must still be tracked and now be removed successfully.
    let second = state
        .set_data_breakpoint(0x4000, 4, BreakpointKind::Read, &mut cursor)
        .unwrap();
    assert_eq!(
        cursor.removes.borrow().len(),
        1,
        "the stale physical key must be retried by the next sync"
    );
    assert_eq!(state.watchpoint_stats().removes, 1);

    assert!(state.remove_breakpoint(second, &mut cursor));
    assert_eq!(cursor.removes.borrow().len(), 2);
    assert_eq!(state.watchpoint_stats().removes, 2);
}

#[test]
fn per_thread_filter_translates_os_tid_to_unique_thread_id() {
    let mut state = state_with_threads(&[thread_info(7, 0x42)]);
    let mut cursor = FakeCursor::default();

    state.set_breakpoint(0x5000, Some(0x42), &mut cursor).unwrap();
    state.set_breakpoint(0x5001, Some(0x99), &mut cursor).unwrap();

    let adds = cursor.adds.borrow();
    assert_eq!(adds.len(), 2);
    assert_eq!(adds[0].tid, 7, "known OS tid maps to its UniqueThreadId");
    assert_eq!(adds[1].tid, 0, "unknown tid degrades to any-thread");
}
