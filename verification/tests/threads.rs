//! The thread catalog.

use ttd_gdbserver::target::threads::ThreadTable;
use ttd_gdbserver::ttd::types::TtdThreadInfo;

fn info(unique_id: u32, os_thread_id: u32) -> TtdThreadInfo {
    TtdThreadInfo {
        unique_id,
        os_thread_id,
        ..Default::default()
    }
}

#[test]
fn maps_os_tid_to_unique_thread_id() {
    let table = ThreadTable::from_engine_threads(&[info(2, 0x3784), info(3, 0x42)]);
    assert!(table.contains_os_tid(0x3784));
    assert_eq!(table.uid_for_os_tid(0x3784), Some(2));
    assert_eq!(table.uid_for_os_tid(0x42), Some(3));
    assert!(!table.contains_os_tid(0xdead));
    assert_eq!(table.uid_for_os_tid(0xdead), None);
}

/// A recycled OS tid keeps the last lifetime mapping; this is a known
/// ambiguity of the Windows OS-tid namespace, contained in one place so
/// future policy changes only affect this catalog.
#[test]
fn duplicate_os_tid_is_deterministic_last_wins() {
    let table = ThreadTable::from_engine_threads(&[info(2, 0x100), info(5, 0x100)]);
    assert_eq!(table.uid_for_os_tid(0x100), Some(5));
}
