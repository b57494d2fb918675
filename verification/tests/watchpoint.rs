//! Synchronization of physical watchpoints.

use std::cell::RefCell;

use ttd_gdbserver::target::mock::{RecordingCursor, WatchpointRequest};
use ttd_gdbserver::target::watchpoint::{
    KeySet, WatchpointCursor, WatchpointKey, WatchpointRegistry, WatchpointSyncReport,
};
use ttd_gdbserver::ttd::error::TtdError;

fn key(addr: u64, tid: u32) -> WatchpointKey {
    WatchpointKey {
        addr,
        size: 1,
        access: 4,
        tid,
    }
}

fn desired(keys: &[WatchpointKey]) -> KeySet {
    let mut set = KeySet::new();
    for k in keys {
        set.insert(*k);
    }
    set
}

/// A cursor that records what it is asked to do, and refuses it on demand.
#[derive(Default)]
struct Recorder {
    adds: RefCell<Vec<WatchpointKey>>,
    removes: RefCell<Vec<WatchpointKey>>,
    refuse_add: bool,
    refuse_remove: bool,
}

impl WatchpointCursor for Recorder {
    fn add_watchpoint(&mut self, key: WatchpointKey) -> Result<(), TtdError> {
        self.adds.borrow_mut().push(key);
        if self.refuse_add {
            return Err(TtdError::Ffi("add failed"));
        }
        Ok(())
    }

    fn remove_watchpoint(&mut self, key: WatchpointKey) -> Result<(), TtdError> {
        self.removes.borrow_mut().push(key);
        if self.refuse_remove {
            return Err(TtdError::Ffi("remove failed"));
        }
        Ok(())
    }
}

#[test]
fn duplicate_physical_key_is_added_once_and_removed_once() {
    let k = key(0x1000, 0);
    let mut registry = WatchpointRegistry::new();
    let mut cursor = Recorder::default();

    // Two logical breakpoints at the same physical key collapse to one
    // desired key; only one addition may be issued.
    let (report, err) = registry.sync(&desired(&[k, k]), &mut cursor);
    assert!(err.is_none());
    assert_eq!(*cursor.adds.borrow(), vec![k]);
    assert_eq!(*cursor.removes.borrow(), Vec::<WatchpointKey>::new());
    assert_eq!(report.added, 1);
    assert_eq!(report.removed, 0);

    // Removing one of the two logical ids still leaves the desired key:
    // the physical watchpoint must survive.
    let (report, _) = registry.sync(&desired(&[k]), &mut cursor);
    assert_eq!(*cursor.adds.borrow(), vec![k], "already-applied key must not be re-added");
    assert_eq!(*cursor.removes.borrow(), Vec::<WatchpointKey>::new());
    assert_eq!(report, WatchpointSyncReport::default());

    // Removing both logical ids drops the desired key: exactly one
    // physical removal.
    let (report, _) = registry.sync(&desired(&[]), &mut cursor);
    assert_eq!(*cursor.adds.borrow(), vec![k]);
    assert_eq!(*cursor.removes.borrow(), vec![k]);
    assert_eq!(report.removed, 1);
}

#[test]
fn failed_add_is_not_recorded_and_is_retried_next_sync() {
    let k = key(0x2000, 0);
    let mut registry = WatchpointRegistry::new();
    let mut refusing = Recorder {
        refuse_add: true,
        ..Default::default()
    };

    let (report, err) = registry.sync(&desired(&[k]), &mut refusing);
    assert_eq!(refusing.adds.borrow().len(), 1);
    assert_eq!(report.add_failures, 1);
    assert_eq!(report.added, 0);
    assert_eq!(err.as_ref().map(|e| e.key), Some(k));

    // The failed key was not recorded: the next sync retries the addition.
    let mut cursor = Recorder::default();
    let (report, err) = registry.sync(&desired(&[k]), &mut cursor);
    assert_eq!(cursor.adds.borrow().len(), 1);
    assert_eq!(report.added, 1);
    assert!(err.is_none());

    // Now it is recorded: no third call.
    let (report, _) = registry.sync(&desired(&[k]), &mut cursor);
    assert_eq!(cursor.adds.borrow().len(), 1);
    assert_eq!(report, WatchpointSyncReport::default());
}

#[test]
fn failed_remove_keeps_key_applied_and_is_retried() {
    let k = key(0x3000, 0);
    let mut registry = WatchpointRegistry::new();
    let _ = registry.sync(&desired(&[k]), &mut Recorder::default());

    let mut refusing = Recorder {
        refuse_remove: true,
        ..Default::default()
    };
    let (report, err) = registry.sync(&desired(&[]), &mut refusing);
    assert!(refusing.adds.borrow().is_empty(), "no add expected");
    assert_eq!(report.remove_failures, 1);
    assert_eq!(report.removed, 0);
    assert!(err.is_none());

    // Still applied: a later sync retries the removal.
    let mut cursor = Recorder::default();
    let (report, _) = registry.sync(&desired(&[]), &mut cursor);
    assert!(cursor.adds.borrow().is_empty(), "no add expected");
    assert_eq!(*cursor.removes.borrow(), vec![k]);
    assert_eq!(report.removed, 1);
}

#[test]
fn sync_order_is_deterministic_by_key() {
    let low = key(0x1000, 0);
    let high = key(0x2000, 0);
    let mid = key(0x1500, 0);
    let mut registry = WatchpointRegistry::new();
    let mut cursor = Recorder::default();

    let _ = registry.sync(&desired(&[high, low, mid]), &mut cursor);
    let adds: Vec<u64> = cursor.adds.borrow().iter().map(|k| k.addr).collect();
    assert_eq!(adds, vec![0x1000, 0x1500, 0x2000]);

    let _ = registry.sync(&desired(&[]), &mut cursor);
    assert_eq!(cursor.adds.borrow().len(), 3, "no add expected");
    let removes: Vec<u64> = cursor.removes.borrow().iter().map(|k| k.addr).collect();
    assert_eq!(removes, vec![0x1000, 0x1500, 0x2000]);
}

/// Thread-filtered keys are distinct physical watchpoints even when the
/// address/size/access are identical.
#[test]
fn different_thread_filter_is_a_distinct_key() {
    let global = key(0x4000, 0);
    let per_thread = key(0x4000, 7);
    let mut registry = WatchpointRegistry::new();
    let mut cursor = Recorder::default();

    let _ = registry.sync(&desired(&[global, per_thread]), &mut cursor);
    let adds = cursor.adds.borrow();
    assert_eq!(adds.len(), 2, "different tid filters must not dedupe");
    assert!(adds.contains(&global));
    assert!(adds.contains(&per_thread));
}

#[test]
fn removals_come_before_additions() {
    let gone = key(0x9000, 0);
    let new = key(0x1000, 0);
    let mut registry = WatchpointRegistry::new();
    let _ = registry.sync(&desired(&[gone]), &mut Recorder::default());
    assert_eq!(registry.stale(&desired(&[new])), vec![gone]);
    assert_eq!(registry.missing(&desired(&[new])), vec![new]);

    let mut cursor = Recorder::default();
    let (report, err) = registry.sync(&desired(&[new]), &mut cursor);
    assert!(err.is_none());
    assert_eq!((report.added, report.removed), (1, 1));
    assert_eq!(*cursor.removes.borrow(), vec![gone]);
    assert_eq!(*cursor.adds.borrow(), vec![new]);
}

#[test]
fn key_set_keeps_keys_once_and_in_order() {
    let mut set = desired(&[key(3, 0), key(1, 9), key(1, 2), key(3, 0)]);
    assert!(set.contains(key(1, 9)));
    assert!(!set.contains(key(1, 3)));
    assert_eq!(
        set.difference(&KeySet::new()),
        vec![key(1, 2), key(1, 9), key(3, 0)]
    );
    set.remove(key(1, 9));
    set.remove(key(8, 8));
    assert_eq!(set.difference(&desired(&[key(3, 0)])), vec![key(1, 2)]);
}

#[test]
fn requests_are_made_once_and_in_order() {
    let (a, b, c, d) = (key(0x1000, 0), key(0x2000, 0), key(0x3000, 0), key(0x500, 0));
    let mut registry = WatchpointRegistry::new();
    let _ = registry.sync(&desired(&[c, b]), &mut RecordingCursor::new(false, false));

    let mut cursor = RecordingCursor::new(true, false);
    let (report, err) = registry.sync(&desired(&[a, d]), &mut cursor);
    assert_eq!(
        cursor.requests,
        vec![
            WatchpointRequest::Remove(b),
            WatchpointRequest::Remove(c),
            WatchpointRequest::Add(d),
            WatchpointRequest::Add(a),
        ]
    );
    assert_eq!((report.removed, report.add_failures), (2, 2));
    let err = err.unwrap();
    assert_eq!(err.key, d);
    assert_eq!(err.source.message(), "FFI error: add failed");

    let mut cursor = RecordingCursor::new(false, true);
    let _ = registry.sync(&desired(&[a]), &mut cursor);
    assert_eq!(cursor.requests, vec![WatchpointRequest::Add(a)]);
    let (report, _) = registry.sync(&desired(&[]), &mut cursor);
    assert_eq!(cursor.requests.last(), Some(&WatchpointRequest::Remove(a)));
    assert_eq!(report.remove_failures, 1);
}
