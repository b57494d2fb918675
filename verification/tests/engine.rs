//! Opening a trace, and what the engine knows of it.

use ttd_gdbserver::target::ModuleInfo;
use ttd_gdbserver::ttd::cursor::{check_call, Registration, TtdCursor};
use ttd_gdbserver::ttd::engine::{cut_at_nul, name_from_buffer, next_stage, OpenStage, TtdEngine};
use ttd_gdbserver::ttd::error::TtdError;
use ttd_gdbserver::ttd::types::{TtdExceptionEvent, TtdPosition, TtdThreadInfo};

fn pos(sequence: u64, steps: u64) -> TtdPosition {
    TtdPosition { sequence, steps }
}

#[test]
fn stages_follow_each_other() {
    let mut stage = OpenStage::Create;
    for next in [OpenStage::Load, OpenStage::BuildIndex, OpenStage::Ready] {
        stage = next_stage(stage, "a.run", 0).unwrap();
        assert_eq!(stage, next);
    }
    assert_eq!(next_stage(OpenStage::Ready, "a.run", 5).unwrap(), OpenStage::Ready);
}

#[test]
fn each_stage_has_its_failure() {
    let text = |stage| next_stage(stage, "a.run", -2).unwrap_err().message();
    assert_eq!(text(OpenStage::Create), "Failed to create TTD replay engine");
    assert_eq!(
        text(OpenStage::Load),
        "Failed to load trace 'a.run': error code -2"
    );
    assert_eq!(
        text(OpenStage::BuildIndex),
        "Failed to build trace index: error code -2"
    );
}

#[test]
fn names_end_at_the_first_nul() {
    let mut buffer = [0u16; 512];
    for (i, c) in "C:\\a.exe".encode_utf16().enumerate() {
        buffer[i] = c;
    }
    buffer[20] = 0x41;
    assert_eq!(name_from_buffer(&buffer), "C:\\a.exe");
    assert_eq!(cut_at_nul(&[1, 2, 3]), vec![1, 2, 3]);
    assert_eq!(cut_at_nul(&[0, 2, 3]), Vec::<u16>::new());
    // An unpaired surrogate is replaced.
    assert_eq!(name_from_buffer(&[0xd800, 0x41]), "\u{fffd}A");
    assert_eq!(name_from_buffer(&[0xdc00, 0xd83d, 0xde00, 0xd83d]), "\u{fffd}\u{1f600}\u{fffd}");
}

#[test]
fn engine_hands_out_its_facts() {
    let thread = TtdThreadInfo {
        unique_id: 2,
        os_thread_id: 0x3784,
        ..Default::default()
    };
    let event = TtdExceptionEvent {
        code: 0xc000_0005,
        ..Default::default()
    };
    let module = ModuleInfo {
        base_addr: 0x1000,
        size: 0x20,
        name: "a.exe".to_string(),
    };
    let engine = TtdEngine::open(pos(1, 0), pos(9, 9), vec![thread], vec![event], vec![module]);
    assert_eq!(engine.first_position(), pos(1, 0));
    assert_eq!(engine.last_position(), pos(9, 9));
    assert_eq!(engine.lifetime().min, pos(1, 0));
    assert_eq!(engine.lifetime().max, pos(9, 9));
    assert_eq!(engine.thread_count(), 1);
    assert_eq!(engine.thread_info(0), Some(thread));
    assert_eq!(engine.thread_info(1), None);
    assert_eq!(engine.thread_list(), &[thread]);
    assert_eq!(engine.exception_count(), 1);
    assert_eq!(engine.exception_event(0), event);
    assert_eq!(engine.exception_list(), &[event]);
    assert_eq!(engine.module_count(), 1);
    assert_eq!(engine.module_info(0), Some((0x1000, 0x20, "a.exe".to_string())));
    assert_eq!(engine.module_info(1), None);
}

#[test]
fn scoped_callback_rearms_the_owned_one() {
    let mut cursor = TtdCursor::new();
    assert_eq!(cursor.registered(), Registration::Nothing);
    assert_eq!(cursor.enter_scope(), Registration::Scoped);
    assert_eq!(cursor.leave_scope(), Registration::Nothing);

    assert_eq!(cursor.set_watchpoint_callback(), Registration::Owned);
    assert_eq!(cursor.enter_scope(), Registration::Scoped);
    assert_eq!(cursor.registered(), Registration::Scoped);
    assert_eq!(cursor.leave_scope(), Registration::Owned);
    assert_eq!(cursor.set_progress_callback(), Registration::Owned);
    assert_eq!(cursor.registered(), Registration::Owned);
    assert_eq!(cursor.clear_watchpoint_callback(), Registration::Nothing);
    assert_eq!(cursor.registered(), Registration::Nothing);
    assert_eq!(cursor.clear_progress_callback(), Registration::Nothing);
    assert_eq!(cursor, TtdCursor::new());
}

#[test]
fn engine_calls_fail_with_any_code_but_zero() {
    assert!(check_call(0, "step_forward failed").is_ok());
    let error = check_call(1, "step_forward failed").unwrap_err();
    assert_eq!(error.message(), "FFI error: step_forward failed");
}

#[test]
fn engine_failures_have_words() {
    assert_eq!(TtdError::CursorCreationFailed.message(), "Failed to create cursor");
    assert_eq!(TtdError::NullPointer.message(), "Null pointer encountered");
    assert_eq!(
        TtdError::IndexBuildFailed { code: i32::MIN }.message(),
        "Failed to build trace index: error code -2147483648"
    );
}
