//! The replies to `monitor ttd ...`.

use ttd_gdbserver::gdb::monitor::{can_render, render, stats, TraceView, USAGE};
use ttd_gdbserver::target::mock::MockTarget;
use ttd_gdbserver::target::{
    DebugTarget, ModuleInfo, TargetDiagnostics, TargetStats, ThreadDiagnostics,
};
use ttd_gdbserver::ttd::types::{TtdExceptionEvent, TtdPosition};

/// A [`TraceView`] with fixed contents — no engine, no socket.
struct Stub {
    diagnostics: TargetDiagnostics,
    modules: Vec<ModuleInfo>,
    exceptions: Vec<TtdExceptionEvent>,
    stats: TargetStats,
}

impl TraceView for Stub {
    fn diagnostics(&self) -> TargetDiagnostics {
        self.diagnostics.clone()
    }
    fn modules(&self) -> Vec<ModuleInfo> {
        self.modules.clone()
    }
    fn exceptions(&self) -> Vec<TtdExceptionEvent> {
        self.exceptions.clone()
    }
    fn stats(&self) -> TargetStats {
        self.stats
    }
}

fn pos(sequence: u64, steps: u64) -> TtdPosition {
    TtdPosition { sequence, steps }
}

fn stub() -> Stub {
    Stub {
        diagnostics: TargetDiagnostics {
            first_position: pos(1, 0),
            last_position: pos(0x2F3, 0x1A),
            current_position: pos(0x10, 5),
            threads: vec![ThreadDiagnostics {
                unique_id: 2,
                os_thread_id: 0x3784,
                active_time: (pos(1, 0), pos(0x2F3, 0x1A)),
            }],
            exception_count: 1,
            module_count: 2,
        },
        modules: vec![
            ModuleInfo {
                base_addr: 0x1_4000_0000,
                size: 0x1000,
                name: "sample.exe".to_string(),
            },
            ModuleInfo {
                base_addr: 0x7ff_0000,
                size: 0x2000,
                name: "ntdll.dll".to_string(),
            },
        ],
        exceptions: vec![TtdExceptionEvent {
            code: 0xC000_0005,
            flags: 0,
            exception_address: 0xdead,
            program_counter: 0x1_4000_1000,
            position: pos(0x12, 3),
        }],
        stats: TargetStats {
            queries: 120,
            cursor_seeks: 4,
            steps: 30,
            replays: 2,
            watchpoint_adds: 3,
            watchpoint_removes: 2,
        },
    }
}

fn run(cmd: &str) -> String {
    let view = stub();
    let ratio = view.stats.cursor_seeks as f64 / view.stats.queries as f64;
    let mut out = String::new();
    render(cmd, &view, &format!("{ratio:.3}"), &mut out);
    out
}

#[test]
fn info_reports_lifetime_and_counts() {
    let s = run("ttd info");
    assert!(s.contains("trace: loaded"), "{s}");
    assert!(s.contains("lifetime: 1:0 .. 2f3:1a"), "{s}");
    assert!(s.contains("current: 10:5"), "{s}");
    assert!(s.contains("modules: 2"), "{s}");
    assert!(s.contains("threads (lifetime): 1"), "{s}");
    assert!(s.contains("exception events: 1"), "{s}");
}

#[test]
fn threads_table_has_header_and_one_row_per_thread() {
    let s = run("ttd threads");
    let lines: Vec<&str> = s.lines().collect();
    assert!(
        lines[0].contains("UTID") && lines[0].contains("OS_TID"),
        "{s}"
    );
    assert_eq!(lines.len(), 2, "{s}");
    assert!(lines[1].contains("0x00003784"), "{s}");
}

#[test]
fn module_resolves_address_and_reports_misses() {
    let s = run("ttd module 0x140000800");
    assert!(s.contains("0x140000000..0x140001000"), "{s}");
    assert!(s.contains("sample.exe"), "{s}");

    // Just past the end of the module is a miss, not a hit.
    assert!(run("ttd module 0x140001000").contains("no module contains"));
    assert!(run("ttd module 0xdeadbeef").contains("no module contains"));
}

#[test]
fn module_rejects_bad_arguments() {
    assert!(run("ttd module").contains("usage: monitor ttd module"));
    assert!(run("ttd module xyz").contains("bad address"));
    // Addresses are always hex, with or without the 0x prefix.
    assert!(run("ttd module 4096").contains("no module contains 0x4096"));
    assert!(run("ttd module 7ff0000").contains("ntdll.dll"));
}

#[test]
fn events_defaults_to_twenty_and_honours_a_limit() {
    let s = run("ttd events");
    assert!(s.contains("exception events: 1 (showing up to 20)"), "{s}");
    assert!(s.contains("0xc0000005 at 0xdead"), "{s}");

    let s = run("ttd events 0");
    assert!(s.lines().count() == 1, "limit 0 must print no rows: {s}");
}

/// A count that is not a plain number must be rejected loudly: falling
/// back to the default of 20 would hide a typo behind plausible output
/// (the user sees 20 events and assumes that is the answer).
#[test]
fn events_rejects_unparsable_counts() {
    for bad in ["0x5", "-1", "abc", "99999999999999999999999"] {
        let s = run(&format!("ttd events {bad}"));
        assert!(s.contains("bad event count"), "must reject {bad}: {s}");
        assert!(
            !s.contains("exception events:"),
            "{bad} must print no rows: {s}"
        );
    }
    // Parsable counts (including the default) still work.
    assert!(run("ttd events").contains("exception events: 1"));
    assert!(run("ttd events 1").contains("exception events: 1"));
}

#[test]
fn stats_reports_counters_and_the_seek_ratio() {
    let s = run("ttd stats");
    assert!(s.contains("queries: 120"), "{s}");
    assert!(s.contains("cursor seeks: 4"), "{s}");
    assert!(s.contains("steps: 30"), "{s}");
    assert!(s.contains("replays: 2"), "{s}");
    assert!(s.contains("watchpoint adds: 3"), "{s}");
    assert!(s.contains("watchpoint removes: 2"), "{s}");
    assert!(s.contains("seeks per query: 0.033"), "{s}");
}

/// A target that keeps no counters must not print a 0/0 ratio.
#[test]
fn stats_without_queries_omits_the_ratio() {
    let mut out = String::new();
    stats(&TargetStats::default(), "", &mut out);
    assert!(out.contains("queries: 0"), "{out}");
    assert!(!out.contains("seeks per query"), "{out}");
}

#[test]
fn unknown_commands_print_usage() {
    assert!(run("ttd bogus").contains("unknown subcommand 'bogus'"));
    assert!(run("ttd bogus").contains(USAGE));
    assert!(run("wat").contains("unknown monitor subcommand 'wat'"));
    assert!(run("").contains("unknown monitor subcommand ''"));
    assert!(run("ttd").contains(USAGE));
}

/// The blanket impl is what lets the protocol layer pass a `DebugTarget`
/// straight in. This is a compile-time check: if the blanket impl or either
/// bound drifts, the test target stops compiling.
#[test]
fn debug_target_satisfies_trace_view() {
    fn requires_trace_view<T: DebugTarget + TraceView>() {}
    requires_trace_view::<MockTarget>();
}

#[test]
fn replies_are_exact() {
    assert_eq!(
        run("ttd info"),
        "trace: loaded (TTD replay engine)\nversion: 0.1.0\nlifetime: 1:0 .. 2f3:1a\n\
         current: 10:5\nmodules: 2\nthreads (lifetime): 1\nexception events: 1\n"
    );
    assert_eq!(
        run("ttd threads"),
        format!(
            "{:>6}  {:>10}  {:>14}  {:>14}\n{:>6}  0x{:08x}  {:>9x}:{:>04x}  {:>9x}:{:>04x}\n",
            "UTID", "OS_TID", "active_min", "active_max", 2, 0x3784, 1, 0, 0x2F3, 0x1A
        )
    );
    assert_eq!(
        run("ttd events"),
        "exception events: 1 (showing up to 20)\n\
         0xc0000005 at 0xdead (pc 0x140001000) pos 12:3\n"
    );
    assert_eq!(
        run("ttd module 0x0x7ff1fff"),
        "0x7ff0000..0x7ff2000 (+0x2000) ntdll.dll\n"
    );
    assert_eq!(run("ttd module 0x"), "ttd: bad address '0x'\n");
    assert_eq!(
        run("  ttd \t stats  extra"),
        "queries: 120\ncursor seeks: 4\nsteps: 30\nreplays: 2\nwatchpoint adds: 3\n\
         watchpoint removes: 2\nseeks per query: 0.033\n"
    );
    assert_eq!(run("ttd bogus"), format!("ttd: unknown subcommand 'bogus'\n{USAGE}\n"));
}

#[test]
fn lookup_takes_the_first_module_that_holds_the_address() {
    let mut view = stub();
    view.modules.push(ModuleInfo {
        base_addr: 0x7ff_0000,
        size: 0x10,
        name: "later.dll".to_string(),
    });
    let mut out = String::new();
    render("ttd module 7ff0000", &view, "", &mut out);
    assert!(out.contains("ntdll.dll"), "{out}");
}

#[test]
fn wrapping_modules_cannot_be_looked_up() {
    let module = |base_addr: u64, size: u64| ModuleInfo { base_addr, size, name: String::new() };
    let modules = vec![module(0x1000, 0x1000), module(u64::MAX - 1, 0x1000)];
    assert!(can_render("ttd module 0x1800", &modules));
    assert!(can_render("ttd module 3000", &modules));
    assert!(!can_render("ttd module ffffffffffffffff", &modules));
    assert!(can_render("ttd module what", &modules));
    assert!(can_render("ttd module", &modules));
    assert!(can_render("ttd events ffffffffffffffff", &modules));
}

#[test]
fn three_words_decide() {
    let reply = |cmd: &str| {
        let mut out = String::from(">");
        render(cmd, &MockTarget::default(), "0.000", &mut out);
        out
    };
    for (long, short) in [
        ("  ttd   info ", "ttd info"),
        ("ttd events\t5 and more", "ttd events 5"),
        ("what  is this about", "what is this"),
    ] {
        assert_eq!(reply(long), reply(short));
        assert!(reply(long).starts_with('>'));
    }
}
