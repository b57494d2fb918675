//! The protocol's view of a debug target.

use gdbstub::common::Signal;
use gdbstub::target::ext::breakpoints::WatchKind;
use gdbstub_arch::x86::reg::id::X86_64CoreRegId;
use ttd_gdbserver::gdb::mapping::{map_stop_reason, stop_tid, StopReply};
use ttd_gdbserver::gdb::packet::decode_hex;
use ttd_gdbserver::gdb::regs::{TargetXml, TtdRegId};
use ttd_gdbserver::gdb::resume::ReplayOp;
use ttd_gdbserver::gdb::runner::WorkerPanic;
use ttd_gdbserver::gdb::session::{
    end_session, log_filter, on_interrupt, on_shutdown_request, wait_for_stop_reason,
    InterruptStep, LoopStep,
};
use ttd_gdbserver::gdb::target::inspect::{main_module_base, names_match};
use ttd_gdbserver::gdb::target::unknown::is_checkpoint_packet;
use ttd_gdbserver::gdb::target::{run_replay, step_range, GdbTarget, WaitedStop};
use ttd_gdbserver::gdb::xml::TargetFault;
use ttd_gdbserver::target::breakpoint::BreakpointKind;
use ttd_gdbserver::target::error::DebugError;
use ttd_gdbserver::target::mock::{ForwardStop, MockTarget};
use ttd_gdbserver::target::stop_reason::StopReason;
use ttd_gdbserver::target::{
    DebugTarget, ModuleInfo, TargetDiagnostics, TargetStats, ThreadExtraInfoData,
};
use ttd_gdbserver::ttd::types::{TtdExceptionEvent, TtdPosition, TtdX64Regs};

fn pos(sequence: u64, steps: u64) -> TtdPosition {
    TtdPosition { sequence, steps }
}

fn module(name: &str, base_addr: u64, size: u64) -> ModuleInfo {
    ModuleInfo {
        base_addr,
        size,
        name: name.to_string(),
    }
}

fn modules() -> Vec<ModuleInfo> {
    vec![
        module("ntdll.dll", 0x7ff0_0000, 0x2000),
        module("Sample.EXE", 0x1_4000_0000, 0x1000),
    ]
}

fn session() -> GdbTarget<MockTarget> {
    GdbTarget::new(MockTarget::default().with_modules(modules()), true)
}

fn signal(tid: u64, signal: Signal) -> StopReply {
    StopReply::SignalWithThread { tid, signal }
}

/// Carry out a resume the way a worker does.
fn resume(target: &mut GdbTarget<MockTarget>, op: ReplayOp) -> StopReply {
    let mut backend = target.spawn_replay().unwrap();
    assert!(target.replay_in_flight());
    let (reason, finished) = run_replay(&mut backend, op, 1000);
    assert!(finished);
    target.finish_replay(backend, &reason);
    target.take_stop_reason().unwrap()
}

fn ask(target: &mut GdbTarget<MockTarget>, packet: &str) -> String {
    target.handle_unknown_packet(packet.as_bytes()).reply
}

fn ask_rr(target: &mut GdbTarget<MockTarget>, packet: &str) -> String {
    let reply = ask(target, packet);
    String::from_utf8(decode_hex(reply.as_bytes()).unwrap()).unwrap()
}

#[test]
fn stops_are_reported_with_the_right_signal() {
    let mut t = session();
    assert_eq!(resume(&mut t, ReplayOp::Continue), signal(100, Signal::SIGKILL));
    assert_eq!(resume(&mut t, ReplayOp::BackwardContinue), signal(100, Signal::SIGZERO));
    assert_eq!(resume(&mut t, ReplayOp::Step(7)), signal(7, Signal::SIGTRAP));
    assert_eq!(resume(&mut t, ReplayOp::BackwardStep(8)), signal(8, Signal::SIGTRAP));
    assert!(t.add_sw_breakpoint(0x1000));
    assert_eq!(resume(&mut t, ReplayOp::Continue), signal(8, Signal::SIGTRAP));
}

#[test]
fn every_stop_reason_has_its_reply() {
    let backend = MockTarget::default();
    let reply = |reason| map_stop_reason(&backend, &Ok(reason));
    assert_eq!(
        reply(StopReason::Watchpoint {
            bp_id: 1,
            addr: 0x5000,
            access: 1
        }),
        StopReply::Watch {
            tid: 100,
            kind: WatchKind::Read,
            addr: 0x5000
        }
    );
    assert_eq!(
        reply(StopReason::Exception {
            code: 0xe06d_7363,
            addr: 0
        }),
        signal(100, Signal::SIGABRT)
    );
    assert_eq!(reply(StopReason::Interrupted), signal(100, Signal::SIGINT));
    assert_eq!(reply(StopReason::PositionReached), signal(100, Signal::SIGTRAP));
    assert_eq!(
        map_stop_reason(&backend, &Err(DebugError::NotLoaded)),
        signal(100, Signal::SIGTRAP)
    );
}

#[test]
fn stop_replies_always_name_a_thread() {
    let mut backend = MockTarget::default();
    assert_eq!(stop_tid(&backend), 100);
    backend.current_tid = Some(0);
    backend.thread_ids = vec![55, 66];
    assert_eq!(stop_tid(&backend), 55);
    backend.current_tid = None;
    backend.thread_ids = vec![0, 66];
    assert_eq!(stop_tid(&backend), 1);
    backend.thread_ids = vec![];
    assert_eq!(stop_tid(&backend), 1);
}

#[test]
fn range_steps_stop_outside_the_range() {
    // The program counter stays at 0x1000: outside, one step is enough.
    let mut backend = MockTarget::default();
    let (reason, left) = step_range(&mut backend, 100, 0x2000, 0x3000, 10);
    assert!(matches!(reason, Ok(StopReason::StepComplete)) && left);
    assert_eq!(backend.position, pos(1, 1));
    // Inside, the budget ends the run of steps.
    let (_, left) = step_range(&mut backend, 100, 0x1000, 0x1001, 10);
    assert!(!left);
    assert_eq!(backend.position, pos(1, 12));
    // The end of the range is outside, and so is an unknown thread.
    assert!(step_range(&mut backend, 100, 0xfff, 0x1000, 0).1);
    assert!(step_range(&mut backend, 5, 0x1000, 0x2000, 0).1);
    let (_, finished) = run_replay(&mut backend, ReplayOp::RangeStep(100, 0x1000, 0x2000), 3);
    assert!(!finished);
}

/// A pending resume action is consumed by `resume`, and clearing drops every
/// kind.
#[test]
fn pending_resume_action_is_single_and_clearable() {
    let mut t = GdbTarget::new(Stopping::default(), false);

    // A range step is recorded, and dropped by the next clear.
    t.set_resume_action_range_step(100, 0x1000, 0x2000);
    assert_eq!(t.take_resume_action(), ReplayOp::RangeStep(100, 0x1000, 0x2000));
    t.set_resume_action_range_step(100, 0x1000, 0x2000);
    t.clear_resume_actions();
    assert_eq!(t.take_resume_action(), ReplayOp::Continue, "range step must be cleared");

    // An empty range is a plain step.
    t.set_resume_action_range_step(100, 0x1000, 0x1000);
    assert_eq!(t.take_resume_action(), ReplayOp::Step(100));

    // A step survives a trailing continue.
    t.set_resume_action_step(100);
    t.set_resume_action_continue();
    assert_eq!(t.take_resume_action(), ReplayOp::Step(100));
    t.clear_resume_actions();

    // A continue first, and a step after it: the step wins.
    t.set_resume_action_continue();
    t.set_resume_action_step(100);
    assert_eq!(t.take_resume_action(), ReplayOp::Step(100));
    t.clear_resume_actions();

    // A step is consumed once: the next resume, without a new action, continues.
    t.set_resume_action_step(100);
    run_pending(&mut t);
    run_pending(&mut t);
    let backend = t.into_backend().unwrap();
    assert_eq!((backend.steps, backend.continues), (1, 1));
}

/// Run the pending action to its stop.
fn run_pending(t: &mut GdbTarget<Stopping>) {
    let op = t.take_resume_action();
    let mut backend = t.spawn_replay().unwrap();
    let (reason, finished) = run_replay(&mut backend, op, 1000);
    assert!(finished);
    t.finish_replay(backend, &reason);
    assert!(matches!(t.wait_stop_reason(), WaitedStop::Stopped(_)));
}

#[test]
fn second_replay_is_refused_while_one_runs() {
    let mut t = session();
    let backend = t.spawn_replay().unwrap();
    let error = t.spawn_replay().err().unwrap();
    assert_eq!(error.message(), "Replay failed: a replay is already in flight");
    t.finish_replay(backend, &Ok(StopReason::StepComplete));
    assert!(!t.replay_in_flight());
}

#[test]
fn interrupts_override_the_stop() {
    let mut t = session();
    let backend = t.spawn_replay().unwrap();
    assert!(matches!(t.wait_stop_reason(), WaitedStop::Running));
    assert_eq!(on_interrupt(&mut t), InterruptStep::Wait { fire: true });
    t.finish_replay(backend, &Ok(StopReason::TraceEnd));
    match t.wait_stop_reason() {
        WaitedStop::Stopped(reply) => assert_eq!(reply, signal(100, Signal::SIGINT)),
        _ => panic!("a stop must be reported"),
    }
    assert_eq!(on_interrupt(&mut t), InterruptStep::Nothing);

    // A stop that is ready is reported as it is.
    let backend = t.spawn_replay().unwrap();
    t.finish_replay(backend, &Ok(StopReason::TraceEnd));
    assert_eq!(
        on_interrupt(&mut t),
        InterruptStep::Report(signal(100, Signal::SIGKILL))
    );
    assert!(matches!(t.wait_stop_reason(), WaitedStop::Nothing));
}

#[test]
fn panicking_worker_is_reported_as_a_trap() {
    let mut t = session();
    let backend = t.spawn_replay().unwrap();
    t.fail_replay(backend, WorkerPanic::from_payload(None));
    assert_eq!(t.take_stop_reason(), Some(signal(100, Signal::SIGTRAP)));
    assert_eq!(t.take_stop_reason(), None);
}

#[test]
fn loop_looks_at_the_connection_first() {
    let mut t = session();
    assert_eq!(wait_for_stop_reason(&mut t, None), LoopStep::Sleep);
    let backend = t.spawn_replay().unwrap();
    t.finish_replay(backend, &Ok(StopReason::TraceStart));
    assert_eq!(wait_for_stop_reason(&mut t, Some(3)), LoopStep::IncomingData(3));
    assert_eq!(
        wait_for_stop_reason(&mut t, None),
        LoopStep::TargetStopped(signal(100, Signal::SIGZERO))
    );
}

#[test]
fn sessions_hand_their_backend_on() {
    let mut t = session();
    assert_eq!(t.run(Some(b"5:7".as_slice())), Ok(1));
    assert_eq!(end_session(t).ok().map(|b| b.position), Some(pos(5, 7)));

    let mut t = session();
    let _backend = t.spawn_replay().unwrap();
    assert!(t.begin_teardown());
    assert!(t.keep_waiting(4999) && !t.keep_waiting(5000));
    assert_eq!(
        end_session(t).err(),
        Some("could not recover backend after session")
    );
}

#[test]
fn registers_memory_and_threads() {
    let t = session();
    let regs = t.read_registers(100).unwrap();
    assert_eq!(regs.core.regs[0], 0x11);
    assert_eq!(regs.gs_base, 0x7ffe_0000);
    assert_eq!(t.read_registers(5).err(), Some(TargetFault::NonFatal));
    let mut buf = [0u8; 8];
    let rip = TtdRegId::Core(X86_64CoreRegId::Rip);
    assert_eq!(t.read_register(100, rip, &mut buf), Ok(8));
    assert_eq!(buf, 0x1000u64.to_le_bytes());
    assert_eq!(t.read_register(5, rip, &mut buf), Err(TargetFault::NonFatal));
    let mut data = [0u8; 4];
    assert_eq!(t.read_addrs(0xfe, &mut data), Ok(4));
    assert_eq!(data, [0xfe, 0xff, 0x00, 0x01]);
    assert_eq!(t.read_addrs(0xfe, &mut []), Ok(0));
    assert_eq!(t.list_active_threads(), vec![100]);

    let mut backend = MockTarget::default();
    backend.thread_ids = vec![0, 3, 0, 4];
    assert_eq!(GdbTarget::new(backend, false).list_active_threads(), vec![3, 4]);
}

#[test]
fn replay_is_read_only() {
    let t = session();
    assert_eq!(t.write_registers(), Err(TargetFault::NonFatal));
    assert_eq!(t.write_register(), Err(TargetFault::NonFatal));
    assert_eq!(t.write_addrs(), Err(TargetFault::NonFatal));
    assert_eq!(t.attach(), Err(TargetFault::NonFatal));
}

#[test]
fn breakpoints_come_and_go() {
    let mut t = session();
    assert!(t.add_hw_breakpoint(0x3000));
    assert!(t.add_sw_breakpoint(0x2000));
    assert!(t.add_hw_watchpoint(0x1000, 8, WatchKind::ReadWrite));
    assert!(t.remove_hw_watchpoint(0x1000, 8, WatchKind::ReadWrite));
    assert!(t.remove_sw_breakpoint(0x2000));
    assert_eq!(
        t.into_backend().map(|mut b| b.continue_forward().ok()),
        Some(Some(StopReason::Breakpoint {
            bp_id: 0x3000,
            addr: 0x3000
        }))
    );

    let mut t = GdbTarget::new(MockTarget::default().with_failing_breakpoints(), false);
    assert!(!t.add_sw_breakpoint(0x2000));
    assert!(!t.add_hw_watchpoint(0x2000, 1, WatchKind::Write));
    assert!(t.remove_hw_breakpoint(0x2000), "a miss is no error");
}

#[test]
fn restarts_go_where_the_argument_says() {
    let mut t = session();
    assert_eq!(ask_rr(&mut t, "qRRCmd:checkpoint:-1:6d61696e"), "Checkpoint 1 at 1:0 main");
    assert_eq!(t.run(Some(b"c:12".as_slice())), Ok(1));
    assert_eq!(ask_rr(&mut t, "qRRCmd:when:-1"), "C:12");
    assert_eq!(t.run(Some(b"c1".as_slice())), Ok(1));
    assert_eq!(ask_rr(&mut t, "qRRCmd:when:-1"), "1:0");
    assert_eq!(t.run(None), Ok(1));
    assert_eq!(ask_rr(&mut t, "qRRCmd:when:-1"), "0:0");
    assert_eq!(t.run(Some(b"nowhere".as_slice())), Ok(1));
    assert_eq!(ask_rr(&mut t, "qRRCmd:when:-1"), "0:0");
    t.run(Some(b"3:3".as_slice())).unwrap();
    t.restart();
    assert_eq!(ask_rr(&mut t, "qRRCmd:when:-1"), "0:0");
    assert!(!t.checkpoints_full());

    let _backend = t.spawn_replay().unwrap();
    assert_eq!(t.run(None), Err(TargetFault::NonFatal));
}

#[test]
fn packets_are_answered() {
    let mut t = session();
    assert_eq!(ask(&mut t, "QThreadSuffixSupported"), "");
    assert_eq!(ask(&mut t, "QListThreadsInStopReply"), "");
    assert_eq!(ask(&mut t, "QPassSignals:e;10"), "OK");
    assert_eq!(ask(&mut t, "QProgramSignals:0"), "OK");
    assert_eq!(ask(&mut t, "qGetTLSAddr:p1.64,0,0"), "7ffe0000");
    assert_eq!(ask(&mut t, "qGetTLSAddr:65,0,0"), "E01");
    assert_eq!(ask(&mut t, "qGetTLSAddr:zz"), "E01");
    assert_eq!(ask(&mut t, "_M100,rwx"), "");
    assert_eq!(ask(&mut t, "qRRCmd"), "");
    assert_eq!(t.handle_unknown_packet(b"\xff\xfe").reply, "");
    let answer = t.handle_unknown_packet(b"vCtrlC");
    assert_eq!((answer.reply.as_str(), answer.interrupt), ("OK", false));

    let mut no_teb = MockTarget::default();
    no_teb.teb = 0;
    assert_eq!(ask(&mut GdbTarget::new(no_teb, false), "qGetTLSAddr:64"), "E01");
}

#[test]
fn running_replay_is_not_disturbed_by_packets() {
    let mut t = session();
    let backend = t.spawn_replay().unwrap();
    assert_eq!(ask(&mut t, "qRRCmd:when:-1"), "");
    assert_eq!(ask(&mut t, "qGetTLSAddr:64"), "E01");
    assert_eq!(
        t.handle_monitor_cmd(b"ttd info", ""),
        "target is running; retry when stopped\n"
    );
    assert!(t.handle_unknown_packet(b"vCtrlC").interrupt);
    t.finish_replay(backend, &Ok(StopReason::TraceEnd));
    assert_eq!(t.take_stop_reason(), Some(signal(100, Signal::SIGINT)));
}

#[test]
fn monitor_commands_reach_the_backend() {
    let t = session();
    assert!(t.handle_monitor_cmd(b"ttd module 140000800", "").contains("Sample.EXE"));
    assert!(t.handle_monitor_cmd(b"\xff", "").contains("unknown monitor subcommand ''"));
    let threads = t.handle_monitor_cmd(b"ttd threads", "");
    assert_eq!(
        threads,
        "  UTID      OS_TID      active_min      active_max\n\
         \u{20}    1  0x00000064          1:0000          9:03e8\n"
    );
}

fn read(serve: impl Fn(u64, usize, &mut [u8]) -> Result<usize, TargetFault>) -> Vec<u8> {
    let mut all = Vec::new();
    loop {
        let mut buf = [0u8; 7];
        let n = serve(all.len() as u64, 7, &mut buf).unwrap();
        if n == 0 {
            return all;
        }
        all.extend_from_slice(&buf[..n]);
    }
}

#[test]
fn documents_are_served_in_chunks() {
    let t = session();
    assert_eq!(read(|o, l, b| t.get_exec_file(o, l, b)), b"ntdll.dll");
    let auxv = read(|o, l, b| t.get_auxv(o, l, b));
    assert_eq!(auxv.len(), 32);
    assert_eq!(&auxv[0..8], &9u64.to_le_bytes());
    assert_eq!(&auxv[8..16], &0x7ff0_0000u64.to_le_bytes());
    assert_eq!(&auxv[16..], &[0; 16]);
    let map = String::from_utf8(read(|o, l, b| t.memory_map_xml(o, l, b))).unwrap();
    assert!(map.starts_with("<memory-map><memory type=\"ram\" start=\"0x7ff00000\""), "{map}");
    let libraries = String::from_utf8(read(|o, l, b| t.get_libraries(o, l, b))).unwrap();
    assert!(libraries.contains("<library name=\"Sample.EXE\">"), "{libraries}");
    assert_eq!(t.get_section_offsets(), (0x7ff0_0000, 0x7ff0_0000));

    let none = GdbTarget::new(MockTarget::default(), false);
    let mut buf = [0u8; 4];
    assert_eq!(none.get_exec_file(0, 4, &mut buf), Err(TargetFault::NonFatal));
    assert_eq!(none.get_auxv(0, 4, &mut buf), Err(TargetFault::NonFatal));
    assert_eq!(none.get_section_offsets(), (0, 0));
    assert_eq!(none.exe_module_base(), None);
}

#[test]
fn executable_is_found_among_the_modules() {
    let t = session().with_exe_path("dir/sample.exe".to_string());
    assert_eq!(read(|o, l, b| t.get_exec_file(o, l, b)), b"dir/sample.exe");
    assert_eq!(t.exe_module_base(), Some(0x1_4000_0000));
    let other = session().with_exe_path("dir/other.exe".to_string());
    assert_eq!(other.exe_module_base(), Some(0x7ff0_0000));

    // Single names are their own file names, on any system.
    let t = session().with_exe_path("sAMPLE.exe".to_string());
    assert_eq!(t.exe_module_base(), Some(0x1_4000_0000));
    let dots = session().with_exe_path("..".to_string());
    assert_eq!(dots.exe_module_base(), Some(0x7ff0_0000));

    let names = [Some("a.dll".to_string()), None];
    assert_eq!(main_module_base(Some("A.DLL"), &names, &modules()), Some(0x7ff0_0000));
    assert_eq!(main_module_base(None, &names, &modules()), Some(0x7ff0_0000));
    assert_eq!(main_module_base(Some("x"), &[], &[]), None);
    assert!(names_match("Ntdll.DLL", "nTDLL.dll"));
    assert!(!names_match("ntdll.dl", "ntdll.dll"));
}

#[test]
fn threads_are_described() {
    let t = session();
    let mut buf = [0u8; 64];
    let n = t.thread_extra_info(100, &mut buf);
    assert_eq!(&buf[..n], b"UTID 1 (OS 0x64); pos 1:0");
    let n = t.thread_extra_info(0xab, &mut buf);
    assert_eq!(&buf[..n], b"UTID ? (OS 0xab)");
    let mut short = [0u8; 4];
    assert_eq!(t.thread_extra_info(100, &mut short), 4);
    assert_eq!(&short, b"UTID");
}

#[test]
fn process_is_described() {
    let info = session().process_info();
    assert_eq!((info.pid, info.pointer_size), (1, 8));
    assert_eq!(info.triple, "x86_64-pc-windows-msvc");
    assert!(info.little_endian);
    assert_eq!(session().target_description_xml(b"64bit-seg.xml"), Ok(TargetXml::Seg));
    assert_eq!(session().target_description_xml(b"x"), Err(TargetFault::NonFatal));
    assert_eq!(session().target_description_xml(b"\xff"), Err(TargetFault::NonFatal));
}

#[test]
fn fixed_stops_leave_the_state_alone() {
    let fixed = MockTarget::new().with_fixed_forward(StopReason::PositionReached);
    let mut t = GdbTarget::new(fixed, false);
    assert_eq!(resume(&mut t, ReplayOp::Continue), signal(100, Signal::SIGTRAP));
    let backend = t.into_backend().unwrap();
    assert_eq!(backend.position, pos(1, 0));
    assert_eq!(backend.forward, ForwardStop::Fixed(StopReason::PositionReached));
    let mut usual = backend.with_forward(ForwardStop::BreakpointOrTraceEnd);
    assert!(matches!(usual.continue_forward(), Ok(StopReason::TraceEnd)));
    assert_eq!(usual.position, pos(1, 100));
}

#[test]
fn verbosity_and_shutdown() {
    assert_eq!(log_filter(0), "warn");
    assert_eq!(log_filter(1), "info,ttd_gdbserver=debug");
    assert_eq!(log_filter(2), "debug");
    assert_eq!(log_filter(9), "debug");
    assert_eq!(on_shutdown_request(false), None);
    assert_eq!(on_shutdown_request(true), Some(130));
}

/// A target that stops on one of its steps, and counts what it runs.
#[derive(Default)]
struct Stopping {
    inner: MockTarget,
    at: TtdPosition,
    reason: Option<StopReason>,
    steps: u32,
    continues: u32,
}

impl DebugTarget for Stopping {
    fn step(&mut self) -> Result<StopReason, DebugError> {
        self.steps += 1;
        let plain = self.inner.step();
        if self.inner.position != self.at {
            return plain;
        }
        match self.reason {
            Some(reason) => Ok(reason),
            None => Err(DebugError::NotLoaded),
        }
    }

    fn step_back(&mut self) -> Result<StopReason, DebugError> {
        self.inner.step_back()
    }

    fn continue_forward(&mut self) -> Result<StopReason, DebugError> {
        self.continues += 1;
        self.inner.continue_forward()
    }

    fn continue_backward(&mut self) -> Result<StopReason, DebugError> {
        self.inner.continue_backward()
    }

    fn goto(&mut self, pos: TtdPosition) -> Result<StopReason, DebugError> {
        DebugTarget::goto(&mut self.inner, pos)
    }

    fn read_memory(&self, addr: u64, buf: &mut [u8]) -> usize {
        self.inner.read_memory(addr, buf)
    }

    fn set_breakpoint(&mut self, addr: u64, thread_id: Option<u64>) -> Result<u64, DebugError> {
        self.inner.set_breakpoint(addr, thread_id)
    }

    fn set_data_breakpoint(
        &mut self,
        addr: u64,
        size: u64,
        kind: BreakpointKind,
    ) -> Result<u64, DebugError> {
        self.inner.set_data_breakpoint(addr, size, kind)
    }

    fn remove_breakpoint(&mut self, id: u64) -> bool {
        self.inner.remove_breakpoint(id)
    }

    fn remove_breakpoint_exact(&mut self, addr: u64, size: u64, access: u8) -> bool {
        self.inner.remove_breakpoint_exact(addr, size, access)
    }

    fn active_thread_ids(&self) -> Vec<u64> {
        self.inner.active_thread_ids()
    }

    fn thread_info(&self, thread_id: u64) -> Option<ThreadExtraInfoData> {
        self.inner.thread_info(thread_id)
    }

    fn thread_state(&self, thread_id: Option<u64>) -> Option<(TtdX64Regs, u64)> {
        self.inner.thread_state(thread_id)
    }

    fn current_thread_id(&self) -> Option<u64> {
        self.inner.current_thread_id()
    }

    fn set_current_thread(&mut self, id: u64) {
        self.inner.set_current_thread(id)
    }

    fn modules(&self) -> Vec<ModuleInfo> {
        DebugTarget::modules(&self.inner)
    }

    fn diagnostics(&self) -> TargetDiagnostics {
        DebugTarget::diagnostics(&self.inner)
    }

    fn exceptions(&self) -> Vec<TtdExceptionEvent> {
        DebugTarget::exceptions(&self.inner)
    }

    fn stats(&self) -> TargetStats {
        DebugTarget::stats(&self.inner)
    }

    fn position(&self) -> TtdPosition {
        DebugTarget::position(&self.inner)
    }

    fn lifetime(&self) -> (TtdPosition, TtdPosition) {
        DebugTarget::lifetime(&self.inner)
    }
}

#[test]
fn range_steps_end_with_a_stop_inside_the_range() {
    for reason in [
        Some(StopReason::Breakpoint { bp_id: 1, addr: 0x1000 }),
        Some(StopReason::TraceEnd),
        None,
    ] {
        let mut backend = Stopping { at: pos(1, 3), reason, ..Default::default() };
        let op = ReplayOp::RangeStep(100, 0x1000, 0x2000);
        let (stop, finished) = run_replay(&mut backend, op, 1000);
        assert!(finished);
        assert_eq!(stop.ok(), reason);
        assert_eq!(backend.inner.position, pos(1, 3));
    }
    // In portions, the run goes on until that stop.
    let reason = Some(StopReason::TraceEnd);
    let mut backend = Stopping { at: pos(1, 3), reason, ..Default::default() };
    assert!(!step_range(&mut backend, 100, 0x1000, 0x2000, 1).1);
    assert!(step_range(&mut backend, 100, 0x1000, 0x2000, 1).1);
}

#[test]
fn one_removal_clears_an_address() {
    let mut t = GdbTarget::new(MockTarget::default(), false);
    for addr in [0x1000, 0x1000, 0x2000] {
        assert!(t.add_sw_breakpoint(addr));
    }
    assert!(t.remove_sw_breakpoint(0x1000));
    assert!(t.remove_sw_breakpoint(0x1000));
    // Only the breakpoint at the other address can stop the target now.
    let mut backend = t.into_backend().unwrap();
    let stop = backend.continue_forward();
    assert!(matches!(stop, Ok(StopReason::Breakpoint { addr: 0x2000, .. })));
    assert!(!backend.remove_breakpoint_exact(0x1000, 1, 4));
    assert!(backend.remove_breakpoint_exact(0x2000, 1, 4));
}

#[test]
fn checkpoint_packets_are_told_apart() {
    assert!(is_checkpoint_packet(b"qRRCmd:checkpoint:-1"));
    assert!(is_checkpoint_packet(b"qRRCmd:636865636b706f696e74"));
    assert!(!is_checkpoint_packet(b"qRRCmd:when:-1"));
    assert!(!is_checkpoint_packet(b"qRRCmd"));
    assert!(!is_checkpoint_packet(b"vCtrlC"));
}

#[test]
fn register_reads_agree_with_the_file() {
    let t = session();
    let file = t.read_registers(100).unwrap().gdb_serialize();
    let mut from = 0;
    for number in 0.. {
        let Some((id, size)) = TtdRegId::from_raw_id(number) else {
            break;
        };
        for room in [size, size + 3, 2] {
            let mut buf = vec![0xaau8; room];
            let n = t.read_register(100, id, &mut buf).unwrap();
            assert_eq!(n, size.min(room));
            assert_eq!(buf[..n], file[from..from + n]);
            assert!(buf[n..].iter().all(|b| *b == 0xaa));
        }
        from += size;
    }
    assert_eq!(from, file.len());
    let mut buf = [0xaau8; 8];
    assert!(t.read_register(5, TtdRegId::GsBase, &mut buf).is_err());
    assert_eq!(buf, [0xaa; 8]);
}
