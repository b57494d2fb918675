//! Monitor commands: what the user reads.

use vstd::prelude::*;

use crate::gdb::monitor::{
    address, can_render, event_row, events, info, lookup_fits, module, module_at, render, stats,
    thread_row, threads, without_hex_marks, TraceView,
};
use crate::target::{
    module_views, Module, ModuleInfo, TargetDiagnostics, TargetStats, ThreadDiagnostics,
};
use crate::text::all_texts;
use crate::text::digits::{decimal, hex, padded};
use crate::text::parse::parse_radix;
use crate::text::split::words;
use crate::ttd::types::{TtdExceptionEvent, TtdPosition};

verus! {

/// Some lines, each with its line break.
pub open spec fn lines(ls: Seq<Seq<char>>) -> Seq<char>
    decreases ls.len(),
{
    if ls.len() == 0 {
        Seq::empty()
    } else {
        lines(ls.drop_last()) + ls.last() + seq!['\n']
    }
}

proof fn lemma_lines_push(ls: Seq<Seq<char>>, l: Seq<char>)
    ensures
        lines(ls.push(l)) == lines(ls) + l + seq!['\n'],
{
    assert(ls.push(l).drop_last() =~= ls);
}

/// A position in lower case hexadecimal.
pub open spec fn at(p: TtdPosition) -> Seq<char> {
    hex(p.sequence as nat) + seq![':'] + hex(p.steps as nat)
}

/// `ttd info`: the ends of the trace, where the target stands, and how many
/// modules, threads and exceptions there are.
pub proof fn law_info(d: TargetDiagnostics, out: &mut String)
    requires
        call_ensures(info, (&d, out), ()),
    ensures
        final(out)@ == old(out)@ + lines(
            seq![
                "trace: loaded (TTD replay engine)"@,
                "version: 0.1.0"@,
                "lifetime: "@ + at(d.first_position) + " .. "@ + at(d.last_position),
                "current: "@ + at(d.current_position),
                "modules: "@ + decimal(d.module_count as nat),
                "threads (lifetime): "@ + decimal(d.threads@.len()),
                "exception events: "@ + decimal(d.exception_count as nat),
            ],
        ),
{
    reveal_strlit("trace: loaded (TTD replay engine)");
    reveal_strlit("version: 0.1.0");
    reveal_strlit("trace: loaded (TTD replay engine)\nversion: ");
    reveal_strlit("0.1.0");
    reveal_strlit("\nlifetime: ");
    reveal_strlit("lifetime: ");
    reveal_strlit("\ncurrent: ");
    reveal_strlit("current: ");
    reveal_strlit("\n");
    reveal_strlit(":");
    let a = "trace: loaded (TTD replay engine)"@;
    let b = "version: 0.1.0"@;
    let c = "lifetime: "@ + at(d.first_position) + " .. "@ + at(d.last_position);
    let e = "current: "@ + at(d.current_position);
    let f = "modules: "@ + decimal(d.module_count as nat);
    let g = "threads (lifetime): "@ + decimal(d.threads@.len());
    let h = "exception events: "@ + decimal(d.exception_count as nat);
    let none = Seq::<Seq<char>>::empty();
    lemma_lines_push(none, a);
    lemma_lines_push(seq![a], b);
    lemma_lines_push(seq![a, b], c);
    lemma_lines_push(seq![a, b, c], e);
    lemma_lines_push(seq![a, b, c, e], f);
    lemma_lines_push(seq![a, b, c, e, f], g);
    lemma_lines_push(seq![a, b, c, e, f, g], h);
    assert(none.push(a) =~= seq![a]);
    assert(seq![a].push(b) =~= seq![a, b]);
    assert(seq![a, b].push(c) =~= seq![a, b, c]);
    assert(seq![a, b, c].push(e) =~= seq![a, b, c, e]);
    assert(seq![a, b, c, e].push(f) =~= seq![a, b, c, e, f]);
    assert(seq![a, b, c, e, f].push(g) =~= seq![a, b, c, e, f, g]);
    assert(seq![a, b, c, e, f, g].push(h) =~= seq![a, b, c, e, f, g, h]);
    assert(crate::gdb::monitor::position_hex(d.first_position) =~= at(d.first_position));
    assert(crate::gdb::monitor::position_hex(d.last_position) =~= at(d.last_position));
    assert(crate::gdb::monitor::position_hex(d.current_position) =~= at(d.current_position));
    let first_two = lines(seq![a, b]);
    assert("trace: loaded (TTD replay engine)\nversion: "@ + "0.1.0"@ + "\n"@ =~= first_two);
    assert("\nlifetime: "@ =~= "\n"@ + "lifetime: "@);
    assert("\ncurrent: "@ =~= "\n"@ + "current: "@);
    assert(final(out)@ =~= old(out)@ + lines(seq![a, b, c, e, f, g, h]));
}

/// `ttd stats`: the counters by name, and the seeks per query once there was a
/// query.
pub proof fn law_stats(s: TargetStats, ratio: &str, out: &mut String)
    requires
        call_ensures(stats, (&s, ratio, out), ()),
    ensures
        ({
            let counters = seq![
                "queries: "@ + decimal(s.queries as nat),
                "cursor seeks: "@ + decimal(s.cursor_seeks as nat),
                "steps: "@ + decimal(s.steps as nat),
                "replays: "@ + decimal(s.replays as nat),
                "watchpoint adds: "@ + decimal(s.watchpoint_adds as nat),
                "watchpoint removes: "@ + decimal(s.watchpoint_removes as nat),
            ];
            &&& s.queries == 0 ==> final(out)@ == old(out)@ + lines(counters)
            &&& s.queries > 0 ==> final(out)@ == old(out)@ + lines(counters) + "seeks per query: "@
                + ratio@ + seq!['\n']
        }),
{
    reveal_strlit("\n");
    let a = "queries: "@ + decimal(s.queries as nat);
    let b = "cursor seeks: "@ + decimal(s.cursor_seeks as nat);
    let c = "steps: "@ + decimal(s.steps as nat);
    let e = "replays: "@ + decimal(s.replays as nat);
    let f = "watchpoint adds: "@ + decimal(s.watchpoint_adds as nat);
    let g = "watchpoint removes: "@ + decimal(s.watchpoint_removes as nat);
    let none = Seq::<Seq<char>>::empty();
    lemma_lines_push(none, a);
    lemma_lines_push(seq![a], b);
    lemma_lines_push(seq![a, b], c);
    lemma_lines_push(seq![a, b, c], e);
    lemma_lines_push(seq![a, b, c, e], f);
    lemma_lines_push(seq![a, b, c, e, f], g);
    assert(none.push(a) =~= seq![a]);
    assert(seq![a].push(b) =~= seq![a, b]);
    assert(seq![a, b].push(c) =~= seq![a, b, c]);
    assert(seq![a, b, c].push(e) =~= seq![a, b, c, e]);
    assert(seq![a, b, c, e].push(f) =~= seq![a, b, c, e, f]);
    assert(seq![a, b, c, e, f].push(g) =~= seq![a, b, c, e, f, g]);
    let all = lines(seq![a, b, c, e, f, g]);
    if s.queries == 0 {
        assert(final(out)@ =~= old(out)@ + all);
    } else {
        assert(final(out)@ =~= old(out)@ + all + "seeks per query: "@ + ratio@ + seq!['\n']);
    }
}

/// A position in the columns of the thread list.
pub open spec fn column(p: TtdPosition) -> Seq<char> {
    padded(hex(p.sequence as nat), 9, ' ') + seq![':'] + padded(hex(p.steps as nat), 4, '0')
}

/// The line of a thread: its own id, its OS thread id, where it became live and
/// where it stopped.
pub open spec fn thread_line(t: ThreadDiagnostics) -> Seq<char> {
    padded(decimal(t.unique_id as nat), 6, ' ') + "  0x"@ + padded(
        hex(t.os_thread_id as nat),
        8,
        '0',
    ) + "  "@ + column(t.active_time.0) + "  "@ + column(t.active_time.1)
}

/// `ttd threads`: a heading and one line for each thread, in order.
pub proof fn law_threads(d: TargetDiagnostics, out: &mut String)
    requires
        call_ensures(threads, (&d, out), ()),
    ensures
        final(out)@ == old(out)@ + lines(
            seq!["  UTID      OS_TID      active_min      active_max"@]
                + d.threads@.map_values(|t: ThreadDiagnostics| thread_line(t)),
        ),
{
    let heading = "  UTID      OS_TID      active_min      active_max"@;
    reveal_strlit("  UTID      OS_TID      active_min      active_max");
    reveal_strlit("UTID");
    reveal_strlit("OS_TID");
    reveal_strlit("active_min");
    reveal_strlit("active_max");
    reveal_strlit("  ");
    reveal_strlit("\n");
    lemma_thread_lines(d.threads@, heading);
    let none = Seq::<Seq<char>>::empty();
    lemma_lines_push(none, heading);
    assert(none.push(heading) =~= seq![heading]);
    assert(crate::gdb::monitor::thread_heading() =~= heading + seq!['\n']);
    assert(final(out)@ =~= old(out)@ + lines(
        seq![heading] + d.threads@.map_values(|t: ThreadDiagnostics| thread_line(t)),
    ));
}

proof fn lemma_thread_line(t: ThreadDiagnostics)
    ensures
        thread_row(t) == thread_line(t).push('\n'),
{
    reveal_strlit("\n");
    reveal_strlit(":");
    assert(crate::gdb::monitor::position_column(t.active_time.0) =~= column(t.active_time.0));
    assert(crate::gdb::monitor::position_column(t.active_time.1) =~= column(t.active_time.1));
    assert(thread_row(t) =~= thread_line(t).push('\n'));
}

proof fn lemma_regrouped(a: Seq<char>, b: Seq<char>, c: Seq<char>)
    ensures
        a + b + c == a + (b + c),
{
    assert(a + b + c =~= a + (b + c));
}

proof fn lemma_thread_lines(ts: Seq<ThreadDiagnostics>, heading: Seq<char>)
    ensures
        lines(seq![heading] + ts.map_values(|t: ThreadDiagnostics| thread_line(t))) == lines(
            seq![heading],
        ) + all_texts(ts, |t: ThreadDiagnostics| thread_row(t)),
    decreases ts.len(),
{
    let line = |t: ThreadDiagnostics| thread_line(t);
    let rows = |t: ThreadDiagnostics| thread_row(t);
    if ts.len() == 0 {
        assert(seq![heading] + ts.map_values(line) =~= seq![heading]);
        assert(all_texts(ts, rows) =~= Seq::<char>::empty());
        assert(lines(seq![heading]) + all_texts(ts, rows) =~= lines(seq![heading]));
    } else {
        let front = ts.drop_last();
        let last = ts.last();
        lemma_thread_lines(front, heading);
        let before = seq![heading] + front.map_values(line);
        assert(seq![heading] + ts.map_values(line) =~= before.push(thread_line(last)));
        lemma_lines_push(before, thread_line(last));
        lemma_thread_line(last);
        let shown = thread_line(last).push('\n');
        assert(lines(before.push(thread_line(last))) =~= lines(before) + shown);
        lemma_regrouped(lines(seq![heading]), all_texts(front, rows), shown);
        assert(all_texts(ts, rows) == all_texts(front, rows) + rows(last));
    }
}

/// The line of a recorded exception: its code, address, program counter and
/// position.
pub open spec fn exception_line(e: TtdExceptionEvent) -> Seq<char> {
    "0x"@ + padded(hex(e.code as nat), 8, '0') + " at 0x"@ + hex(e.exception_address as nat)
        + " (pc 0x"@ + hex(e.program_counter as nat) + ") pos "@ + at(e.position)
}

/// `ttd events`: how many exceptions there are, and a line for each of the first
/// ones, as many as were asked for, else twenty. What is no number is refused.
pub proof fn law_events(
    all: &[TtdExceptionEvent],
    plain: &mut String,
    arg: Vec<char>,
    digits: &[char],
    n: Option<u64>,
    asked: &mut String,
)
    requires
        call_ensures(events, (None, all, plain), ()),
        digits@ == arg@,
        call_ensures(parse_radix, (digits, 10u64), n),
        call_ensures(events, (Some(&arg), all, asked), ()),
    ensures
        ({
            let shown = |limit: nat|
                "exception events: "@ + decimal(all@.len()) + " (showing up to "@ + decimal(limit)
                    + ")\n"@ + lines(
                    all@.take(
                        if limit <= all@.len() {
                            limit as int
                        } else {
                            all@.len() as int
                        },
                    ).map_values(|e: TtdExceptionEvent| exception_line(e)),
                );
            &&& final(plain)@ == old(plain)@ + shown(20)
            &&& n is Some && n->0 <= usize::MAX ==> final(asked)@ == old(asked)@ + shown(
                n->0 as nat,
            )
            &&& n is None ==> final(asked)@ == old(asked)@ + "ttd: bad event count '"@ + arg@
                + "'\n"@
        }),
{
    let k: int = if 20 <= all@.len() {
        20
    } else {
        all@.len() as int
    };
    lemma_exception_lines(all@.take(k));
    let heading = |limit: nat|
        "exception events: "@ + decimal(all@.len()) + " (showing up to "@ + decimal(limit)
            + ")\n"@;
    assert(final(plain)@ =~= old(plain)@ + (heading(20) + lines(
        all@.take(k).map_values(|e: TtdExceptionEvent| exception_line(e)),
    )));
    if n is Some && n->0 <= usize::MAX {
        let m: int = if n->0 <= all@.len() {
            n->0 as int
        } else {
            all@.len() as int
        };
        lemma_exception_lines(all@.take(m));
        assert(final(asked)@ =~= old(asked)@ + (heading(n->0 as nat) + lines(
            all@.take(m).map_values(|e: TtdExceptionEvent| exception_line(e)),
        )));
    }
    if n is None {
        assert(final(asked)@ =~= old(asked)@ + "ttd: bad event count '"@ + arg@ + "'\n"@);
    }
}

proof fn lemma_exception_lines(es: Seq<TtdExceptionEvent>)
    ensures
        lines(es.map_values(|e: TtdExceptionEvent| exception_line(e))) == all_texts(
            es,
            |e: TtdExceptionEvent| event_row(e),
        ),
    decreases es.len(),
{
    let line = |e: TtdExceptionEvent| exception_line(e);
    let rows = |e: TtdExceptionEvent| event_row(e);
    reveal_strlit("\n");
    reveal_strlit(":");
    reveal_strlit(" at ");
    reveal_strlit(" at 0x");
    reveal_strlit(" (pc ");
    reveal_strlit(" (pc 0x");
    if es.len() == 0 {
        assert(es.map_values(line) =~= Seq::<Seq<char>>::empty());
        assert(all_texts(es, rows) =~= lines(es.map_values(line)));
    } else {
        let front = es.drop_last();
        let last = es.last();
        lemma_exception_lines(front);
        assert(es.map_values(line) =~= front.map_values(line).push(exception_line(last)));
        lemma_lines_push(front.map_values(line), exception_line(last));
        assert(crate::gdb::monitor::position_hex(last.position) =~= at(last.position));
        assert(" at 0x"@ =~= " at "@ + seq!['0', 'x']);
        assert(" (pc 0x"@ =~= " (pc "@ + seq!['0', 'x']);
        assert(event_row(last) =~= exception_line(last) + seq!['\n']);
        assert(lines(es.map_values(line)) =~= all_texts(es, rows));
    }
}

/// `ttd module`: the first module whose bytes hold the address, with its range,
/// its size and its name, or that there is none.
pub proof fn law_module(
    arg: Vec<char>,
    digits: &[char],
    addr: Option<u64>,
    modules: &[ModuleInfo],
    out: &mut String,
    bare: &mut String,
    i: int,
)
    requires
        arg@.len() < 2 || arg@[0] != '0' || arg@[1] != 'x',
        digits@ == arg@,
        call_ensures(parse_radix, (digits, 16u64), addr),
        call_ensures(module, (Some(&arg), modules, out), ()),
        call_ensures(module, (None, modules, bare), ()),
    ensures
        ({
            let holds = |k: int| modules@[k].base_addr <= addr->0 && addr->0 < modules@[k].base_addr
                + modules@[k].size;
            let m = modules@[i];
            &&& final(bare)@ == old(bare)@ + "usage: monitor ttd module <hex-addr>\n"@
            &&& addr is None ==> final(out)@ == old(out)@ + "ttd: bad address '"@ + arg@ + "'\n"@
            &&& addr is Some && 0 <= i < modules@.len() && holds(i) && (forall|k: int|
                0 <= k < i ==> !#[trigger] holds(k)) ==> final(out)@ == old(out)@ + "0x"@ + hex(
                m.base_addr as nat,
            ) + "..0x"@ + hex((m.base_addr + m.size) as nat) + " (+0x"@ + hex(m.size as nat)
                + ") "@ + m.name@ + "\n"@
            &&& addr is Some && (forall|k: int| 0 <= k < modules@.len() ==> !#[trigger] holds(k))
                ==> final(out)@ == old(out)@ + "no module contains 0x"@ + hex(addr->0 as nat)
                + "\n"@
        }),
{
    let ms = module_views(modules@);
    reveal_strlit("0x");
    reveal_strlit("..");
    reveal_strlit("..0x");
    reveal_strlit(" (+");
    reveal_strlit(" (+0x");
    reveal_strlit("no module contains ");
    reveal_strlit("no module contains 0x");
    let holds = |k: int| modules@[k].base_addr <= addr->0 && addr->0 < modules@[k].base_addr
        + modules@[k].size;
    if addr is None {
        assert(final(out)@ =~= old(out)@ + "ttd: bad address '"@ + arg@ + "'\n"@);
    } else {
        assert forall|k: int| 0 <= k < modules@.len() implies ms[k].holds(addr->0 as nat)
            == #[trigger] holds(k) by {
            assert(ms[k] == modules@[k]@);
        }
        if 0 <= i < modules@.len() && holds(i) && (forall|k: int|
            0 <= k < i ==> !#[trigger] holds(k)) {
            let m = modules@[i];
            assert forall|k: int| 0 <= k < i implies !(#[trigger] ms[k]).holds(addr->0 as nat) by {
                assert(!holds(k));
            }
            lemma_found_at(ms, addr->0 as nat, i);
            assert(ms[i] == m@);
            assert(final(out)@ =~= old(out)@ + "0x"@ + hex(m.base_addr as nat) + "..0x"@ + hex(
                (m.base_addr + m.size) as nat,
            ) + " (+0x"@ + hex(m.size as nat) + ") "@ + m.name@ + "\n"@);
        }
        if forall|k: int| 0 <= k < modules@.len() ==> !#[trigger] holds(k) {
            assert forall|k: int| 0 <= k < ms.len() implies !(#[trigger] ms[k]).holds(
                addr->0 as nat,
            ) by {
                assert(!holds(k));
            }
            lemma_found_nowhere(ms, addr->0 as nat);
            assert(final(out)@ =~= old(out)@ + "no module contains 0x"@ + hex(addr->0 as nat)
                + "\n"@);
        }
    }
}

proof fn lemma_found_at(ms: Seq<Module>, addr: nat, i: int)
    requires
        0 <= i < ms.len(),
        ms[i].holds(addr),
        forall|k: int| 0 <= k < i ==> !(#[trigger] ms[k]).holds(addr),
    ensures
        module_at(ms, addr) == i,
    decreases ms.len(),
{
    if i > 0 {
        assert(!ms[0].holds(addr));
        assert forall|k: int| 0 <= k < i - 1 implies !(#[trigger] ms.skip(1)[k]).holds(addr) by {
            assert(!ms[k + 1].holds(addr));
        }
        lemma_found_at(ms.skip(1), addr, i - 1);
    }
}

proof fn lemma_found_nowhere(ms: Seq<Module>, addr: nat)
    requires
        forall|k: int| 0 <= k < ms.len() ==> !(#[trigger] ms[k]).holds(addr),
    ensures
        module_at(ms, addr) == ms.len(),
    decreases ms.len(),
{
    if ms.len() > 0 {
        assert(!ms[0].holds(addr));
        assert forall|k: int| 0 <= k < ms.skip(1).len() implies !(#[trigger] ms.skip(1)[k]).holds(
            addr,
        ) by {
            assert(!ms[k + 1].holds(addr));
        }
        lemma_found_nowhere(ms.skip(1), addr);
    }
}

/// An address may start with `0x`.
pub proof fn law_address_marks(arg: Seq<char>)
    ensures
        address(seq!['0', 'x'] + arg) == address(arg),
{
    let marked = seq!['0', 'x'] + arg;
    assert(marked.skip(2) =~= arg);
}

/// A monitor command is answered by what its subcommand says of the target, and
/// what is no command by how to use it.
pub proof fn law_commands_are_answered<V: TraceView>(
    cmd: &str,
    view: V,
    ratio: &str,
    out: &mut String,
    d: TargetDiagnostics,
    ms: &[ModuleInfo],
    es: &[TtdExceptionEvent],
    s: TargetStats,
    arg: Option<&Vec<char>>,
    i: &mut String,
    t: &mut String,
    m: &mut String,
    e: &mut String,
    c: &mut String,
)
    requires
        call_ensures(render::<V>, (cmd, &view, ratio, out), ()),
        d@ == view.diagnostics_view(),
        module_views(ms@) == view.modules_view(),
        es@ == view.exceptions_view(),
        s == view.stats_view(),
        words(cmd@).len() > 2 ==> (arg is Some && (arg->0)@ == words(cmd@)[2]),
        words(cmd@).len() <= 2 ==> arg is None,
        i@ == out@ && t@ == out@ && m@ == out@ && e@ == out@ && c@ == out@,
        call_ensures(info, (&d, i), ()),
        call_ensures(threads, (&d, t), ()),
        call_ensures(module, (arg, ms, m), ()),
        call_ensures(events, (arg, es, e), ()),
        call_ensures(stats, (&s, ratio, c), ()),
    ensures
        ({
            let ws = words(cmd@);
            let ttd = ws.len() > 0 && ws[0] == "ttd"@;
            let usage = "'\nsupported: ttd info | ttd threads | ttd module <addr> | ttd events [n] | ttd stats\n"@;
            let is_sub = |name: Seq<char>| ttd && ws.len() > 1 && ws[1] == name;
            &&& is_sub("info"@) ==> final(out)@ == final(i)@
            &&& is_sub("threads"@) ==> final(out)@ == final(t)@
            &&& is_sub("module"@) ==> final(out)@ == final(m)@
            &&& is_sub("events"@) ==> final(out)@ == final(e)@
            &&& is_sub("stats"@) ==> final(out)@ == final(c)@
            &&& ws.len() == 0 ==> final(out)@ == old(out)@
                + "ttd-gdbserver: unknown monitor subcommand '"@ + usage
            &&& ws.len() > 0 && !ttd ==> final(out)@ == old(out)@
                + "ttd-gdbserver: unknown monitor subcommand '"@ + ws[0] + usage
            &&& ttd && ws.len() == 1 ==> final(out)@ == old(out)@ + "ttd: unknown subcommand '"@
                + usage
            &&& ttd && ws.len() > 1 && !is_sub("info"@) && !is_sub("threads"@) && !is_sub(
                "module"@,
            ) && !is_sub("events"@) && !is_sub("stats"@) ==> final(out)@ == old(out)@
                + "ttd: unknown subcommand '"@ + ws[1] + usage
        }),
{
    reveal_strlit("ttd");
    reveal_strlit("info");
    reveal_strlit("threads");
    reveal_strlit("module");
    reveal_strlit("events");
    reveal_strlit("stats");
    reveal_strlit("\n");
    reveal_strlit("'\n");
    reveal_strlit(
        "'\nsupported: ttd info | ttd threads | ttd module <addr> | ttd events [n] | ttd stats\n",
    );
    reveal_strlit(
        "supported: ttd info | ttd threads | ttd module <addr> | ttd events [n] | ttd stats",
    );
    let usage = "'\nsupported: ttd info | ttd threads | ttd module <addr> | ttd events [n] | ttd stats\n"@;
    assert(usage =~= "'\n"@
        + "supported: ttd info | ttd threads | ttd module <addr> | ttd events [n] | ttd stats"@
        + "\n"@);
    let ws = words(cmd@);
    let head = crate::gdb::monitor::word(ws, 0);
    let sub = crate::gdb::monitor::word(ws, 1);
    assert("threads"@.len() == 7);
    assert("info"@[0] == 'i' && "module"@[0] == 'm' && "events"@[0] == 'e' && "stats"@[0] == 's');
    if head != "ttd"@ {
        assert(final(out)@ =~= old(out)@ + "ttd-gdbserver: unknown monitor subcommand '"@ + head
            + usage);
        if ws.len() == 0 {
            assert(head =~= Seq::<char>::empty());
            assert(final(out)@ =~= old(out)@ + "ttd-gdbserver: unknown monitor subcommand '"@
                + usage);
        }
    } else if sub != "info"@ && sub != "threads"@ && sub != "module"@ && sub != "events"@ && sub
        != "stats"@ {
        assert(final(out)@ =~= old(out)@ + "ttd: unknown subcommand '"@ + sub + usage);
        if ws.len() == 1 {
            assert(sub =~= Seq::<char>::empty());
            assert(final(out)@ =~= old(out)@ + "ttd: unknown subcommand '"@ + usage);
        }
    }
}

/// A session answers a monitor command with what the commands say of its target,
/// and asks for patience while a replay is running.
pub proof fn law_session_answers<T: crate::target::DebugTarget>(
    t: crate::gdb::target::GdbTarget<T>,
    cmd: &[u8],
    text: &str,
    ratio: &str,
    r: String,
    out: &mut String,
)
    requires
        cmd@ == vstd::utf8::encode_utf8(text@),
        call_ensures(
            crate::gdb::target::GdbTarget::<T>::handle_monitor_cmd,
            (&t, cmd, ratio),
            r,
        ),
        t@.runner.backend matches Some(backend) ==> call_ensures(
            render::<T>,
            (text, &backend, ratio, out),
            (),
        ),
    ensures
        t@.runner.backend is None ==> r@ == "target is running; retry when stopped\n"@,
        t@.runner.backend is Some ==> final(out)@ == old(out)@ + r@,
{
    vstd::utf8::encode_utf8_valid_utf8(text@);
    vstd::utf8::encode_utf8_decode_utf8(text@);
}

/// A command can be answered unless it looks for a module and comes across one
/// that wraps around the end of the address space before it finds one.
pub proof fn law_commands_that_can_be_answered(
    cmd: &str,
    ms: &[ModuleInfo],
    r: bool,
    digits: &[char],
    addr: Option<u64>,
)
    requires
        call_ensures(can_render, (cmd, ms), r),
        words(cmd@).len() > 2 ==> digits@ == without_hex_marks(words(cmd@)[2]),
        call_ensures(parse_radix, (digits, 16u64), addr),
    ensures
        !r <==> {
            &&& words(cmd@).len() > 2
            &&& words(cmd@)[0] == "ttd"@
            &&& words(cmd@)[1] == "module"@
            &&& addr is Some
            &&& exists|i: int|
                {
                    &&& 0 <= i < ms@.len()
                    &&& (#[trigger] ms@[i]).base_addr <= addr->0
                    &&& ms@[i].base_addr + ms@[i].size > u64::MAX
                    &&& forall|k: int|
                        0 <= k < i ==> !((#[trigger] ms@[k]).base_addr <= addr->0 && addr->0
                            < ms@[k].base_addr + ms@[k].size)
                }
        },
{
    let all = module_views(ms@);
    assert forall|k: int| 0 <= k < ms@.len() implies all[k] == (#[trigger] ms@[k])@ by {}
    if words(cmd@).len() > 2 && addr is Some {
        let a = addr->0 as nat;
        lemma_found_module(all, a);
        let found = module_at(all, a);
        if !lookup_fits(all, a) {
            let i = choose|i: int|
                0 <= i < all.len() && i <= found && (#[trigger] all[i]).base <= a && all[i].base
                    + all[i].size > u64::MAX;
            assert(ms@[i].base_addr <= a);
            assert forall|k: int| 0 <= k < i implies !((#[trigger] ms@[k]).base_addr <= addr->0
                && addr->0 < ms@[k].base_addr + ms@[k].size) by {
                assert(!all[k].holds(a));
            }
        }
        if exists|i: int|
            {
                &&& 0 <= i < ms@.len()
                &&& (#[trigger] ms@[i]).base_addr <= addr->0
                &&& ms@[i].base_addr + ms@[i].size > u64::MAX
                &&& forall|k: int|
                    0 <= k < i ==> !((#[trigger] ms@[k]).base_addr <= addr->0 && addr->0
                        < ms@[k].base_addr + ms@[k].size)
            } {
            let i = choose|i: int|
                {
                    &&& 0 <= i < ms@.len()
                    &&& (#[trigger] ms@[i]).base_addr <= addr->0
                    &&& ms@[i].base_addr + ms@[i].size > u64::MAX
                    &&& forall|k: int|
                        0 <= k < i ==> !((#[trigger] ms@[k]).base_addr <= addr->0 && addr->0
                            < ms@[k].base_addr + ms@[k].size)
                };
            if found < i {
                assert(all[found].holds(a));
                assert(ms@[found].base_addr <= addr->0);
            }
            assert(all[i].base <= a);
        }
    }
}

proof fn lemma_found_module(ms: Seq<Module>, addr: nat)
    ensures
        0 <= module_at(ms, addr) <= ms.len(),
        module_at(ms, addr) < ms.len() ==> ms[module_at(ms, addr)].holds(addr),
        forall|k: int| 0 <= k < module_at(ms, addr) ==> !(#[trigger] ms[k]).holds(addr),
    decreases ms.len(),
{
    if ms.len() > 0 && !ms[0].holds(addr) {
        lemma_found_module(ms.skip(1), addr);
        assert forall|k: int| 0 <= k < module_at(ms, addr) implies !(#[trigger] ms[k]).holds(
            addr,
        ) by {
            if k > 0 {
                assert(ms[k] == ms.skip(1)[k - 1]);
            }
        }
    }
}

/// The commands show what a target shows of itself, and so do those on a loaded
/// trace.
pub proof fn law_targets_show_themselves<T: crate::target::DebugTarget>(
    t: T,
    p: crate::target::process::TtdProcess,
    d: TargetDiagnostics,
    ms: Vec<ModuleInfo>,
    es: Vec<TtdExceptionEvent>,
    s: TargetStats,
)
    requires
        call_ensures(crate::target::process::TtdProcess::diagnostics, (&p,), d),
        call_ensures(crate::target::process::TtdProcess::modules, (&p,), ms),
        call_ensures(crate::target::process::TtdProcess::exceptions, (&p,), es),
        call_ensures(crate::target::process::TtdProcess::stats, (&p,), s),
    ensures
        t.diagnostics_view() == t.diagnosed(),
        t.modules_view() == t.module_list(),
        t.exceptions_view() == t.recorded(),
        t.stats_view() == t.counters(),
        p.diagnostics_view() == d@,
        p.modules_view() == module_views(ms@),
        p.exceptions_view() == es@,
        p.stats_view() == s,
{
}

} // verus!
