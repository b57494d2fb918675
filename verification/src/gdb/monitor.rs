//! `monitor ttd ...`: custom commands for trace introspection.
//!
//! The reply is plain text, one line per record:
//!
//!   - `info`: trace lifetime, current position, and the module, thread and
//!     exception counts
//!   - `threads`: every thread that ever existed
//!   - `module <addr>`: the module that holds an address
//!   - `events [n]`: the first n recorded exception events (20 by default)
//!   - `stats`: replay, query, cursor-seek and physical-watchpoint counters
//!
//! Rendering needs only a [`TraceView`], not the protocol layer.

use vstd::prelude::*;

use crate::target::{
    module_views, DebugTarget, Diagnostics, Module, ModuleInfo, TargetDiagnostics, TargetStats,
    ThreadDiagnostics,
};
use crate::text::digits::{
    decimal, hex, hex_prefixed, lemma_radix_text_digits, padded, push_decimal, push_hex,
    push_hex_prefixed, push_padded, push_padded_radix,
};
use crate::text::lines::{
    lemma_newlines_joined, lemma_no_newlines, lemma_number_has_no_newline, lemma_one_line_each,
    newlines,
};
use crate::text::parse::{lemma_rendered_number_parses, parse_radix, parsed};
use crate::text::split::{
    is_word, lemma_words_are_words, lemma_words_spaced, spaced, split_words, words,
};
use crate::text::{all_texts, char_texts, chars_of, push_chars, same_text, tail_of};
use crate::ttd::types::{TtdExceptionEvent, TtdPosition};

verus! {

/// Shown for anything that is not understood, including a bare `monitor`.
pub const USAGE: &'static str =
    "supported: ttd info | ttd threads | ttd module <addr> | ttd events [n] | ttd stats";

/// The version that `monitor ttd info` reports.
pub const VERSION: &'static str = "0.1.0";

/// How many events `monitor ttd events` shows unless told otherwise.
pub const DEFAULT_EVENTS: usize = 20;

/// What the monitor commands read out of the target. A target that no proof
/// speaks of leaves the spec functions as they are.
pub trait TraceView {
    closed spec fn diagnostics_view(&self) -> Diagnostics {
        arbitrary()
    }

    closed spec fn modules_view(&self) -> Seq<Module> {
        arbitrary()
    }

    closed spec fn exceptions_view(&self) -> Seq<TtdExceptionEvent> {
        arbitrary()
    }

    closed spec fn stats_view(&self) -> TargetStats {
        arbitrary()
    }

    fn diagnostics(&self) -> (r: TargetDiagnostics)
        ensures
            r@ == self.diagnostics_view(),
    ;

    fn modules(&self) -> (r: Vec<ModuleInfo>)
        ensures
            module_views(r@) == self.modules_view(),
    ;

    fn exceptions(&self) -> (r: Vec<TtdExceptionEvent>)
        ensures
            r@ == self.exceptions_view(),
    ;

    fn stats(&self) -> (r: TargetStats)
        ensures
            r == self.stats_view(),
    ;
}

impl<T: DebugTarget> TraceView for T {
    open spec fn diagnostics_view(&self) -> Diagnostics {
        self.diagnosed()
    }

    open spec fn modules_view(&self) -> Seq<Module> {
        self.module_list()
    }

    open spec fn exceptions_view(&self) -> Seq<TtdExceptionEvent> {
        self.recorded()
    }

    open spec fn stats_view(&self) -> TargetStats {
        self.counters()
    }

    fn diagnostics(&self) -> TargetDiagnostics {
        DebugTarget::diagnostics(self)
    }

    fn modules(&self) -> Vec<ModuleInfo> {
        DebugTarget::modules(self)
    }

    fn exceptions(&self) -> Vec<TtdExceptionEvent> {
        DebugTarget::exceptions(self)
    }

    fn stats(&self) -> TargetStats {
        DebugTarget::stats(self)
    }
}

/// `SEQ:STEPS` in lowercase hex.
pub open spec fn position_hex(p: TtdPosition) -> Seq<char> {
    hex(p.sequence as nat) + ":"@ + hex(p.steps as nat)
}

/// One line that gives a number a label.
pub open spec fn count_line(label: Seq<char>, n: nat) -> Seq<char> {
    label + decimal(n) + "\n"@
}

/// The reply to `monitor ttd info`.
pub open spec fn info_text(d: Diagnostics) -> Seq<char> {
    "trace: loaded (TTD replay engine)\nversion: "@ + VERSION@ + "\nlifetime: "@ + position_hex(
        d.first,
    ) + " .. "@ + position_hex(d.last) + "\ncurrent: "@ + position_hex(d.current) + "\n"@
        + count_line("modules: "@, d.module_count) + count_line(
        "threads (lifetime): "@,
        d.threads.len(),
    ) + count_line("exception events: "@, d.exception_count)
}

fn push_position(out: &mut String, p: TtdPosition)
    ensures
        final(out)@ == old(out)@ + position_hex(p),
{
    push_hex(out, p.sequence);
    out.append(":");
    push_hex(out, p.steps);
    assert(out@ =~= old(out)@ + position_hex(p));
}

fn push_count_line(out: &mut String, label: &str, n: u64)
    ensures
        final(out)@ == old(out)@ + count_line(label@, n as nat),
{
    out.append(label);
    push_decimal(out, n);
    out.append("\n");
    assert(out@ =~= old(out)@ + count_line(label@, n as nat));
}

/// `monitor ttd info`.
pub fn info(d: &TargetDiagnostics, out: &mut String)
    ensures
        final(out)@ == old(out)@ + info_text(d@),
{
    out.append("trace: loaded (TTD replay engine)\nversion: ");
    out.append(VERSION);
    out.append("\nlifetime: ");
    push_position(out, d.first_position);
    out.append(" .. ");
    push_position(out, d.last_position);
    out.append("\ncurrent: ");
    push_position(out, d.current_position);
    out.append("\n");
    push_count_line(out, "modules: ", d.module_count as u64);
    push_count_line(out, "threads (lifetime): ", d.threads.len() as u64);
    push_count_line(out, "exception events: ", d.exception_count as u64);
    assert(out@ =~= old(out)@ + info_text(d@));
}

/// The heading of the thread table.
pub open spec fn thread_heading() -> Seq<char> {
    padded("UTID"@, 6, ' ') + "  "@ + padded("OS_TID"@, 10, ' ') + "  "@ + padded(
        "active_min"@,
        14,
        ' ',
    ) + "  "@ + padded("active_max"@, 14, ' ') + "\n"@
}

/// A position as a column of the thread table.
pub open spec fn position_column(p: TtdPosition) -> Seq<char> {
    padded(hex(p.sequence as nat), 9, ' ') + ":"@ + padded(hex(p.steps as nat), 4, '0')
}

/// The row of one thread.
pub open spec fn thread_row(t: ThreadDiagnostics) -> Seq<char> {
    padded(decimal(t.unique_id as nat), 6, ' ') + "  0x"@ + padded(
        hex(t.os_thread_id as nat),
        8,
        '0',
    ) + "  "@ + position_column(t.active_time.0) + "  "@ + position_column(t.active_time.1) + "\n"@
}

/// The reply to `monitor ttd threads`.
pub open spec fn threads_text(d: Diagnostics) -> Seq<char> {
    thread_heading() + all_texts(d.threads, |t: ThreadDiagnostics| thread_row(t))
}

fn push_position_column(out: &mut String, p: TtdPosition)
    ensures
        final(out)@ == old(out)@ + position_column(p),
{
    push_padded_radix(out, p.sequence, 16, 9, ' ');
    out.append(":");
    push_padded_radix(out, p.steps, 16, 4, '0');
    assert(out@ =~= old(out)@ + position_column(p));
}

fn push_thread_row(out: &mut String, t: &ThreadDiagnostics)
    ensures
        final(out)@ == old(out)@ + thread_row(*t),
{
    push_padded_radix(out, t.unique_id as u64, 10, 6, ' ');
    out.append("  0x");
    push_padded_radix(out, t.os_thread_id as u64, 16, 8, '0');
    out.append("  ");
    push_position_column(out, t.active_time.0);
    out.append("  ");
    push_position_column(out, t.active_time.1);
    out.append("\n");
    assert(out@ =~= old(out)@ + thread_row(*t));
}

/// `monitor ttd threads`: every thread that ever existed, in the engine's
/// order.
pub fn threads(d: &TargetDiagnostics, out: &mut String)
    ensures
        final(out)@ == old(out)@ + threads_text(d@),
{
    push_padded(out, "UTID", 6, ' ');
    out.append("  ");
    push_padded(out, "OS_TID", 10, ' ');
    out.append("  ");
    push_padded(out, "active_min", 14, ' ');
    out.append("  ");
    push_padded(out, "active_max", 14, ' ');
    out.append("\n");
    assert(out@ =~= old(out)@ + thread_heading());
    let ghost row = |t: ThreadDiagnostics| thread_row(t);
    let ghost start = out@;
    for i in 0..d.threads.len()
        invariant
            row == (|t: ThreadDiagnostics| thread_row(t)),
            out@ == start + all_texts(d.threads@.take(i as int), row),
    {
        let t = &d.threads[i];
        push_thread_row(out, t);
        let ghost seen = d.threads@.take(i as int + 1);
        assert(seen.drop_last() =~= d.threads@.take(i as int));
        assert(out@ =~= start + all_texts(seen, row));
    }
    assert(d.threads@.take(d.threads@.len() as int) =~= d.threads@);
    assert(out@ =~= old(out)@ + threads_text(d@));
}

/// `s` without any `0x` in front.
pub open spec fn without_hex_marks(s: Seq<char>) -> Seq<char>
    decreases s.len(),
{
    if s.len() >= 2 && s[0] == '0' && s[1] == 'x' {
        without_hex_marks(s.skip(2))
    } else {
        s
    }
}

/// The address that an argument spells: hexadecimal, with or without `0x`.
pub open spec fn address(arg: Seq<char>) -> Option<u64> {
    parsed(without_hex_marks(arg), 16)
}

fn parse_address(arg: &[char]) -> (r: Option<u64>)
    ensures
        r == address(arg@),
{
    let mut from: usize = 0;
    assert(arg@.skip(0) =~= arg@);
    while arg.len() - from >= 2 && arg[from] == '0' && arg[from + 1] == 'x'
        invariant
            from <= arg@.len(),
            without_hex_marks(arg@.skip(from as int)) == without_hex_marks(arg@),
        decreases arg@.len() - from,
    {
        assert(arg@.skip(from as int).skip(2) =~= arg@.skip(from as int + 2));
        from = from + 2;
    }
    let digits = tail_of(arg, from);
    parse_radix(digits.as_slice(), 16)
}

/// The index of the first module that holds `addr`; the number of modules if
/// none does.
pub open spec fn module_at(modules: Seq<Module>, addr: nat) -> int
    decreases modules.len(),
{
    if modules.len() == 0 || modules[0].holds(addr) {
        0
    } else {
        1 + module_at(modules.skip(1), addr)
    }
}

/// No module that a lookup of `addr` comes across wraps around the end of the
/// address space.
pub open spec fn lookup_fits(modules: Seq<Module>, addr: nat) -> bool {
    forall|i: int|
        0 <= i < modules.len() && i <= module_at(modules, addr) && (#[trigger] modules[i]).base
            <= addr ==> modules[i].base + modules[i].size <= u64::MAX
}

/// The line that describes a module.
pub open spec fn module_line(m: Module) -> Seq<char> {
    hex_prefixed(m.base) + ".."@ + hex_prefixed(m.base + m.size) + " (+"@ + hex_prefixed(m.size)
        + ") "@ + m.name + "\n"@
}

/// The reply to `monitor ttd module`.
pub open spec fn module_text(arg: Option<Seq<char>>, modules: Seq<Module>) -> Seq<char> {
    match arg {
        None => "usage: monitor ttd module <hex-addr>\n"@,
        Some(rest) => match address(rest) {
            None => "ttd: bad address '"@ + rest + "'\n"@,
            Some(addr) => {
                let i = module_at(modules, addr as nat);
                if i < modules.len() {
                    module_line(modules[i])
                } else {
                    "no module contains "@ + hex_prefixed(addr as nat) + "\n"@
                }
            },
        },
    }
}

/// An argument as text.
pub open spec fn argument_view(arg: Option<&Vec<char>>) -> Option<Seq<char>> {
    match arg {
        Some(v) => Some(v@),
        None => None,
    }
}

proof fn lemma_module_at(modules: Seq<Module>, addr: nat, n: int)
    requires
        0 <= n <= modules.len(),
        forall|i: int| 0 <= i < n ==> !(#[trigger] modules[i]).holds(addr),
    ensures
        module_at(modules, addr) >= n,
        n < modules.len() && modules[n].holds(addr) ==> module_at(modules, addr) == n,
        module_at(modules, addr) <= modules.len(),
    decreases n, modules.len(),
{
    if n > 0 {
        assert forall|i: int| 0 <= i < n - 1 implies !(#[trigger] modules.skip(1)[i]).holds(
            addr,
        ) by {
            assert(!modules[i + 1].holds(addr));
        }
        assert(!modules[0].holds(addr));
        lemma_module_at(modules.skip(1), addr, n - 1);
    } else if modules.len() > 0 && !modules[0].holds(addr) {
        lemma_module_at(modules.skip(1), addr, 0);
    }
}

/// `monitor ttd module <hex-addr>`.
pub fn module(arg: Option<&Vec<char>>, modules: &[ModuleInfo], out: &mut String)
    requires
        argument_view(arg) matches Some(rest) ==> address(rest) matches Some(addr) ==> lookup_fits(
            module_views(modules@),
            addr as nat,
        ),
    ensures
        final(out)@ == old(out)@ + module_text(argument_view(arg), module_views(modules@)),
{
    let ghost ms = module_views(modules@);
    let rest = match arg {
        Some(rest) => rest,
        None => {
            out.append("usage: monitor ttd module <hex-addr>\n");
            return;
        },
    };
    let addr = match parse_address(rest.as_slice()) {
        Some(v) => v,
        None => {
            out.append("ttd: bad address '");
            push_chars(out, rest.as_slice());
            out.append("'\n");
            assert(out@ =~= old(out)@ + module_text(argument_view(arg), ms));
            return;
        },
    };
    for i in 0..modules.len()
        invariant
            ms == module_views(modules@),
            argument_view(arg) == Some(rest@),
            address(rest@) == Some(addr),
            lookup_fits(ms, addr as nat),
            out@ == old(out)@,
            forall|j: int| 0 <= j < i ==> !(#[trigger] ms[j]).holds(addr as nat),
    {
        let m = &modules[i];
        assert(ms[i as int] == m@);
        proof {
            lemma_module_at(ms, addr as nat, i as int);
        }
        if addr >= m.base_addr && addr < m.base_addr + m.size {
            push_hex_prefixed(out, m.base_addr);
            out.append("..");
            push_hex_prefixed(out, m.base_addr + m.size);
            out.append(" (+");
            push_hex_prefixed(out, m.size);
            out.append(") ");
            out.append(m.name.as_str());
            out.append("\n");
            assert(out@ =~= old(out)@ + module_line(m@));
            return;
        }
    }
    proof {
        lemma_module_at(ms, addr as nat, ms.len() as int);
    }
    out.append("no module contains ");
    push_hex_prefixed(out, addr);
    out.append("\n");
    assert(out@ =~= old(out)@ + module_text(argument_view(arg), ms));
}

/// The row of one recorded exception.
pub open spec fn event_row(ev: TtdExceptionEvent) -> Seq<char> {
    "0x"@ + padded(hex(ev.code as nat), 8, '0') + " at "@ + hex_prefixed(
        ev.exception_address as nat,
    ) + " (pc "@ + hex_prefixed(ev.program_counter as nat) + ") pos "@ + position_hex(ev.position)
        + "\n"@
}

/// How many events an argument asks for.
pub open spec fn event_limit(arg: Option<Seq<char>>) -> Option<nat> {
    match arg {
        None => Some(DEFAULT_EVENTS as nat),
        Some(s) => {
            if parsed(s, 10) matches Some(n) && n <= usize::MAX {
                Some(parsed(s, 10)->0 as nat)
            } else {
                None
            }
        },
    }
}

/// The heading of the event list.
pub open spec fn events_heading(count: nat, limit: nat) -> Seq<char> {
    "exception events: "@ + decimal(count) + " (showing up to "@ + decimal(limit) + ")\n"@
}

/// The reply to `monitor ttd events`. A count that is not a plain number is
/// rejected: falling back to the default would hide a typo.
pub open spec fn events_text(arg: Option<Seq<char>>, all: Seq<TtdExceptionEvent>) -> Seq<char> {
    match event_limit(arg) {
        None => "ttd: bad event count '"@ + arg->0 + "'\n"@,
        Some(n) => events_heading(all.len(), n) + all_texts(
            all.take(
                if n <= all.len() {
                    n as int
                } else {
                    all.len() as int
                },
            ),
            |ev: TtdExceptionEvent| event_row(ev),
        ),
    }
}

fn push_event_row(out: &mut String, ev: &TtdExceptionEvent)
    ensures
        final(out)@ == old(out)@ + event_row(*ev),
{
    out.append("0x");
    push_padded_radix(out, ev.code as u64, 16, 8, '0');
    out.append(" at ");
    push_hex_prefixed(out, ev.exception_address);
    out.append(" (pc ");
    push_hex_prefixed(out, ev.program_counter);
    out.append(") pos ");
    push_position(out, ev.position);
    out.append("\n");
    assert(out@ =~= old(out)@ + event_row(*ev));
}

fn push_events_heading(out: &mut String, count: u64, limit: u64)
    ensures
        final(out)@ == old(out)@ + events_heading(count as nat, limit as nat),
{
    out.append("exception events: ");
    push_decimal(out, count);
    out.append(" (showing up to ");
    push_decimal(out, limit);
    out.append(")\n");
    assert(out@ =~= old(out)@ + events_heading(count as nat, limit as nat));
}

/// `monitor ttd events [n]`.
pub fn events(arg: Option<&Vec<char>>, all: &[TtdExceptionEvent], out: &mut String)
    ensures
        final(out)@ == old(out)@ + events_text(argument_view(arg), all@),
{
    let n: u64 = match arg {
        None => DEFAULT_EVENTS as u64,
        Some(s) => match parse_radix(s.as_slice(), 10) {
            Some(v) if v <= usize::MAX as u64 => v,
            _ => {
                out.append("ttd: bad event count '");
                push_chars(out, s.as_slice());
                out.append("'\n");
                assert(out@ =~= old(out)@ + events_text(argument_view(arg), all@));
                return;
            },
        },
    };
    push_events_heading(out, all.len() as u64, n);
    let ghost start = out@;
    let ghost row = |ev: TtdExceptionEvent| event_row(ev);
    let shown: usize = if n < all.len() as u64 {
        n as usize
    } else {
        all.len()
    };
    for i in 0..shown
        invariant
            shown <= all@.len(),
            row == (|ev: TtdExceptionEvent| event_row(ev)),
            out@ == start + all_texts(all@.take(i as int), row),
    {
        let ev = &all[i];
        push_event_row(out, ev);
        let ghost seen = all@.take(i as int + 1);
        assert(seen.drop_last() =~= all@.take(i as int));
        assert(out@ =~= start + all_texts(seen, row));
    }
    let ghost rows = all_texts(all@.take(shown as int), row);
    assert(start + rows =~= old(out)@ + (events_heading(all@.len(), n as nat) + rows));
}

/// The reply to `monitor ttd stats`. A target that answered no query has no
/// ratio.
pub open spec fn stats_text(s: TargetStats, seek_ratio: Seq<char>) -> Seq<char> {
    count_line("queries: "@, s.queries as nat) + count_line(
        "cursor seeks: "@,
        s.cursor_seeks as nat,
    ) + count_line("steps: "@, s.steps as nat) + count_line("replays: "@, s.replays as nat)
        + count_line("watchpoint adds: "@, s.watchpoint_adds as nat) + count_line(
        "watchpoint removes: "@,
        s.watchpoint_removes as nat,
    ) + (if s.queries > 0 {
        "seeks per query: "@ + seek_ratio + "\n"@
    } else {
        Seq::empty()
    })
}

/// `monitor ttd stats`.
///
/// `seek_ratio` is the text of the quotient of cursor seeks and queries, to
/// three decimals. The ratio is the number to watch: a cursor has to be moved
/// to the debug position before it can answer, and the target remembers that,
/// so a stopped target should serve many queries per seek.
pub fn stats(s: &TargetStats, seek_ratio: &str, out: &mut String)
    ensures
        final(out)@ == old(out)@ + stats_text(*s, seek_ratio@),
{
    push_count_line(out, "queries: ", s.queries);
    push_count_line(out, "cursor seeks: ", s.cursor_seeks);
    push_count_line(out, "steps: ", s.steps);
    push_count_line(out, "replays: ", s.replays);
    push_count_line(out, "watchpoint adds: ", s.watchpoint_adds);
    push_count_line(out, "watchpoint removes: ", s.watchpoint_removes);
    if s.queries > 0 {
        out.append("seeks per query: ");
        out.append(seek_ratio);
        out.append("\n");
    }
    assert(out@ =~= old(out)@ + stats_text(*s, seek_ratio@));
}

/// Word `i` of a command; empty if there are fewer words.
pub open spec fn word(ws: Seq<Seq<char>>, i: int) -> Seq<char> {
    if i < ws.len() {
        ws[i]
    } else {
        Seq::empty()
    }
}

/// The argument of a subcommand: the third word.
pub open spec fn argument(ws: Seq<Seq<char>>) -> Option<Seq<char>> {
    if ws.len() > 2 {
        Some(ws[2])
    } else {
        None
    }
}

/// The reply to `monitor` with these words.
pub open spec fn monitor_text(
    ws: Seq<Seq<char>>,
    d: Diagnostics,
    modules: Seq<Module>,
    exceptions: Seq<TtdExceptionEvent>,
    stats: TargetStats,
    seek_ratio: Seq<char>,
) -> Seq<char> {
    let sub = word(ws, 1);
    if word(ws, 0) != "ttd"@ {
        "ttd-gdbserver: unknown monitor subcommand '"@ + word(ws, 0) + "'\n"@ + USAGE@ + "\n"@
    } else if sub == "info"@ {
        info_text(d)
    } else if sub == "threads"@ {
        threads_text(d)
    } else if sub == "module"@ {
        module_text(argument(ws), modules)
    } else if sub == "events"@ {
        events_text(argument(ws), exceptions)
    } else if sub == "stats"@ {
        stats_text(stats, seek_ratio)
    } else {
        "ttd: unknown subcommand '"@ + sub + "'\n"@ + USAGE@ + "\n"@
    }
}

/// A `ttd module` command comes across no module that wraps around the end of
/// the address space.
pub open spec fn monitor_fits(ws: Seq<Seq<char>>, modules: Seq<Module>) -> bool {
    word(ws, 0) == "ttd"@ && word(ws, 1) == "module"@ ==> (argument(ws) matches Some(rest)
        ==> address(rest) matches Some(addr) ==> lookup_fits(modules, addr as nat))
}

/// Whether a lookup of `addr` comes across no module that wraps around the end
/// of the address space.
fn lookup_is_safe(modules: &[ModuleInfo], addr: u64) -> (r: bool)
    ensures
        r == lookup_fits(module_views(modules@), addr as nat),
{
    let ghost ms = module_views(modules@);
    for i in 0..modules.len()
        invariant
            ms == module_views(modules@),
            forall|j: int| 0 <= j < i ==> !(#[trigger] ms[j]).holds(addr as nat),
            forall|j: int|
                0 <= j < i && (#[trigger] ms[j]).base <= addr ==> ms[j].base + ms[j].size
                    <= u64::MAX,
    {
        let m = &modules[i];
        assert(ms[i as int] == m@);
        proof {
            lemma_module_at(ms, addr as nat, i as int);
        }
        if m.base_addr <= addr {
            if m.size > u64::MAX - m.base_addr {
                assert(ms[i as int].base + ms[i as int].size > u64::MAX);
                return false;
            }
            if addr < m.base_addr + m.size {
                return true;
            }
        }
    }
    true
}

/// Whether a command can be rendered: see [`monitor_fits`].
pub fn can_render(cmd: &str, modules: &[ModuleInfo]) -> (r: bool)
    ensures
        r == monitor_fits(words(cmd@), module_views(modules@)),
{
    let chars = chars_of(cmd);
    let ws = split_words(chars.as_slice());
    let ghost texts = words(cmd@);
    assert(char_texts(ws@) == texts);
    assert(ws.len() > 0 ==> ws[0]@ == texts[0]);
    assert(ws.len() > 1 ==> ws[1]@ == texts[1]);
    assert(ws.len() > 2 ==> ws[2]@ == texts[2]);
    if ws.len() <= 2 || !same_text(ws[0].as_slice(), "ttd") || !same_text(
        ws[1].as_slice(),
        "module",
    ) {
        return true;
    }
    match parse_address(ws[2].as_slice()) {
        Some(addr) => lookup_is_safe(modules, addr),
        None => true,
    }
}

/// Render the reply for `monitor <cmd>` into `out`. `seek_ratio` is the text
/// that `ttd stats` shows for the seeks per query.
pub fn render<V: TraceView>(cmd: &str, view: &V, seek_ratio: &str, out: &mut String)
    requires
        monitor_fits(words(cmd@), view.modules_view()),
    ensures
        final(out)@ == old(out)@ + monitor_text(
            words(cmd@),
            view.diagnostics_view(),
            view.modules_view(),
            view.exceptions_view(),
            view.stats_view(),
            seek_ratio@,
        ),
{
    let chars = chars_of(cmd);
    let ws = split_words(chars.as_slice());
    let ghost texts = words(cmd@);
    let empty: Vec<char> = Vec::new();
    let head = if ws.len() > 0 {
        &ws[0]
    } else {
        &empty
    };
    let sub = if ws.len() > 1 {
        &ws[1]
    } else {
        &empty
    };
    let arg = if ws.len() > 2 {
        Some(&ws[2])
    } else {
        None
    };
    assert(head@ == word(texts, 0) && sub@ == word(texts, 1)) by {
        assert(char_texts(ws@) == texts);
        assert(empty@ =~= Seq::<char>::empty());
    }
    assert(argument_view(arg) == argument(texts));
    let ghost reply = monitor_text(
        texts,
        view.diagnostics_view(),
        view.modules_view(),
        view.exceptions_view(),
        view.stats_view(),
        seek_ratio@,
    );
    if !same_text(head.as_slice(), "ttd") {
        out.append("ttd-gdbserver: unknown monitor subcommand '");
        push_chars(out, head.as_slice());
        out.append("'\n");
        out.append(USAGE);
        out.append("\n");
        assert(out@ =~= old(out)@ + reply);
    } else if same_text(sub.as_slice(), "info") {
        info(&view.diagnostics(), out);
    } else if same_text(sub.as_slice(), "threads") {
        threads(&view.diagnostics(), out);
    } else if same_text(sub.as_slice(), "module") {
        let modules = view.modules();
        module(arg, modules.as_slice(), out);
    } else if same_text(sub.as_slice(), "events") {
        let all = view.exceptions();
        events(arg, all.as_slice(), out);
    } else if same_text(sub.as_slice(), "stats") {
        stats(&view.stats(), seek_ratio, out);
    } else {
        out.append("ttd: unknown subcommand '");
        push_chars(out, sub.as_slice());
        out.append("'\n");
        out.append(USAGE);
        out.append("\n");
        assert(out@ =~= old(out)@ + reply);
    }
}

/// A command with only its first three words, and a single space between them.
pub open spec fn short_command(cmd: Seq<char>) -> Seq<char> {
    let ws = words(cmd);
    spaced(
        if ws.len() > 3 {
            ws.take(3)
        } else {
            ws
        },
    )
}

/// Blanks at either end, repeated blanks, and words after the third do not
/// change the reply to a command, nor whether it can be rendered.
pub proof fn law_three_words_decide(
    cmd: Seq<char>,
    d: Diagnostics,
    modules: Seq<Module>,
    exceptions: Seq<TtdExceptionEvent>,
    stats: TargetStats,
    seek_ratio: Seq<char>,
)
    ensures
        monitor_text(words(short_command(cmd)), d, modules, exceptions, stats, seek_ratio)
            == monitor_text(words(cmd), d, modules, exceptions, stats, seek_ratio),
        monitor_fits(words(short_command(cmd)), modules) == monitor_fits(words(cmd), modules),
{
    let ws = words(cmd);
    let short = if ws.len() > 3 {
        ws.take(3)
    } else {
        ws
    };
    lemma_words_are_words(cmd);
    assert forall|i: int| 0 <= i < short.len() implies is_word(#[trigger] short[i]) by {
        assert(short[i] == ws[i]);
    }
    lemma_words_spaced(short);
}

/// A module lookup finds a module that holds the address, and the first such
/// module; it misses exactly when no module holds the address.
pub proof fn law_lookup_finds_the_first_module(modules: Seq<Module>, addr: nat)
    ensures
        0 <= module_at(modules, addr) <= modules.len(),
        module_at(modules, addr) < modules.len() ==> modules[module_at(modules, addr)].holds(addr),
        forall|i: int| 0 <= i < module_at(modules, addr) ==> !(#[trigger] modules[i]).holds(addr),
    decreases modules.len(),
{
    if modules.len() > 0 && !modules[0].holds(addr) {
        law_lookup_finds_the_first_module(modules.skip(1), addr);
        assert forall|i: int| 0 <= i < module_at(modules, addr) implies !(
        #[trigger] modules[i]).holds(addr) by {
            if i > 0 {
                assert(modules[i] == modules.skip(1)[i - 1]);
            }
        }
    }
}

/// Addresses are read the same with and without the `0x` that replies carry.
pub proof fn law_addresses_read_back(addr: u64)
    ensures
        address(hex_prefixed(addr as nat)) == Some(addr),
        address(hex(addr as nat)) == Some(addr),
{
    let h = hex(addr as nat);
    lemma_radix_text_digits(addr as nat, 16, false);
    assert(h.len() >= 2 ==> h[1] != 'x');
    assert(without_hex_marks(h) == h);
    assert(hex_prefixed(addr as nat).skip(2) =~= h);
    lemma_rendered_number_parses(addr, 16, false);
}

proof fn lemma_position_column(p: TtdPosition)
    ensures
        newlines(position_column(p)) == 0,
{
    lemma_number_has_no_newline(p.sequence as nat, 16, false, 9, ' ');
    lemma_number_has_no_newline(p.steps as nat, 16, false, 4, '0');
    reveal_strlit(":");
    lemma_no_newlines(":"@);
    let a = padded(hex(p.sequence as nat), 9, ' ');
    lemma_newlines_joined(a, ":"@);
    lemma_newlines_joined(a + ":"@, padded(hex(p.steps as nat), 4, '0'));
}

proof fn lemma_thread_row(t: ThreadDiagnostics)
    ensures
        newlines(thread_row(t)) == 1,
{
    let a = padded(decimal(t.unique_id as nat), 6, ' ');
    let b = padded(hex(t.os_thread_id as nat), 8, '0');
    let c = position_column(t.active_time.0);
    let d = position_column(t.active_time.1);
    lemma_number_has_no_newline(t.unique_id as nat, 10, false, 6, ' ');
    lemma_number_has_no_newline(t.os_thread_id as nat, 16, false, 8, '0');
    lemma_position_column(t.active_time.0);
    lemma_position_column(t.active_time.1);
    lemma_marks();
    lemma_newlines_joined(a, "  0x"@);
    lemma_newlines_joined(a + "  0x"@, b);
    lemma_newlines_joined(a + "  0x"@ + b, "  "@);
    lemma_newlines_joined(a + "  0x"@ + b + "  "@, c);
    lemma_newlines_joined(a + "  0x"@ + b + "  "@ + c, "  "@);
    lemma_newlines_joined(a + "  0x"@ + b + "  "@ + c + "  "@, d);
    lemma_newlines_joined(a + "  0x"@ + b + "  "@ + c + "  "@ + d, "\n"@);
}

/// The separators of a row, and what ends it.
proof fn lemma_marks()
    ensures
        newlines("  "@) == 0,
        newlines("  0x"@) == 0,
        newlines("0x"@) == 0,
        newlines(":"@) == 0,
        newlines("\n"@) == 1,
{
    reveal_strlit("  ");
    reveal_strlit("  0x");
    reveal_strlit("0x");
    reveal_strlit(":");
    reveal_strlit("\n");
    lemma_no_newlines("  "@);
    lemma_no_newlines("  0x"@);
    lemma_no_newlines("0x"@);
    lemma_no_newlines(":"@);
    assert("\n"@.drop_last() =~= Seq::<char>::empty());
    assert(newlines("\n"@.drop_last()) == 0);
}

proof fn lemma_heading()
    ensures
        newlines(thread_heading()) == 1,
{
    reveal_strlit("UTID");
    reveal_strlit("OS_TID");
    reveal_strlit("active_min");
    reveal_strlit("active_max");
    lemma_marks();
    let a = padded("UTID"@, 6, ' ');
    let b = padded("OS_TID"@, 10, ' ');
    let c = padded("active_min"@, 14, ' ');
    let d = padded("active_max"@, 14, ' ');
    lemma_no_newlines(a);
    lemma_no_newlines(b);
    lemma_no_newlines(c);
    lemma_no_newlines(d);
    lemma_newlines_joined(a, "  "@);
    lemma_newlines_joined(a + "  "@, b);
    lemma_newlines_joined(a + "  "@ + b, "  "@);
    lemma_newlines_joined(a + "  "@ + b + "  "@, c);
    lemma_newlines_joined(a + "  "@ + b + "  "@ + c, "  "@);
    lemma_newlines_joined(a + "  "@ + b + "  "@ + c + "  "@, d);
    lemma_newlines_joined(a + "  "@ + b + "  "@ + c + "  "@ + d, "\n"@);
}

/// The thread table has a heading and one line per thread.
pub proof fn law_one_line_per_thread(d: Diagnostics)
    ensures
        newlines(threads_text(d)) == 1 + d.threads.len(),
{
    let row = |t: ThreadDiagnostics| thread_row(t);
    lemma_heading();
    assert forall|i: int| 0 <= i < d.threads.len() implies newlines(row(#[trigger] d.threads[i]))
        == 1 by {
        lemma_thread_row(d.threads[i]);
    }
    lemma_one_line_each(d.threads, row);
    lemma_newlines_joined(thread_heading(), all_texts(d.threads, row));
}

proof fn lemma_event_row(ev: TtdExceptionEvent)
    ensures
        newlines(event_row(ev)) == 1,
{
    let a = padded(hex(ev.code as nat), 8, '0');
    let b = hex_prefixed(ev.exception_address as nat);
    let c = hex_prefixed(ev.program_counter as nat);
    let p = position_hex(ev.position);
    lemma_marks();
    lemma_number_has_no_newline(ev.code as nat, 16, false, 8, '0');
    lemma_prefixed(ev.exception_address as nat);
    lemma_prefixed(ev.program_counter as nat);
    lemma_position_hex(ev.position);
    reveal_strlit(" at ");
    reveal_strlit(" (pc ");
    reveal_strlit(") pos ");
    lemma_no_newlines(" at "@);
    lemma_no_newlines(" (pc "@);
    lemma_no_newlines(") pos "@);
    lemma_newlines_joined("0x"@, a);
    lemma_newlines_joined("0x"@ + a, " at "@);
    lemma_newlines_joined("0x"@ + a + " at "@, b);
    lemma_newlines_joined("0x"@ + a + " at "@ + b, " (pc "@);
    lemma_newlines_joined("0x"@ + a + " at "@ + b + " (pc "@, c);
    lemma_newlines_joined("0x"@ + a + " at "@ + b + " (pc "@ + c, ") pos "@);
    lemma_newlines_joined("0x"@ + a + " at "@ + b + " (pc "@ + c + ") pos "@, p);
    lemma_newlines_joined("0x"@ + a + " at "@ + b + " (pc "@ + c + ") pos "@ + p, "\n"@);
}

proof fn lemma_prefixed(n: nat)
    ensures
        newlines(hex_prefixed(n)) == 0,
{
    lemma_number_has_no_newline(n, 16, false, 0, ' ');
    lemma_no_newlines(seq!['0', 'x']);
    lemma_newlines_joined(seq!['0', 'x'], hex(n));
}

proof fn lemma_position_hex(p: TtdPosition)
    ensures
        newlines(position_hex(p)) == 0,
{
    lemma_number_has_no_newline(p.sequence as nat, 16, false, 0, ' ');
    lemma_number_has_no_newline(p.steps as nat, 16, false, 0, ' ');
    lemma_marks();
    lemma_newlines_joined(hex(p.sequence as nat), ":"@);
    lemma_newlines_joined(hex(p.sequence as nat) + ":"@, hex(p.steps as nat));
}

/// The event list has a heading and one line per event, up to the limit.
pub proof fn law_one_line_per_event(arg: Option<Seq<char>>, all: Seq<TtdExceptionEvent>)
    requires
        event_limit(arg) is Some,
    ensures
        newlines(events_text(arg, all)) == 1 + (if event_limit(arg)->0 <= all.len() {
            event_limit(arg)->0
        } else {
            all.len()
        }),
{
    let n = event_limit(arg)->0;
    let shown = all.take(
        if n <= all.len() {
            n as int
        } else {
            all.len() as int
        },
    );
    let row = |ev: TtdExceptionEvent| event_row(ev);
    reveal_strlit("exception events: ");
    reveal_strlit(" (showing up to ");
    reveal_strlit(")\n");
    let a = "exception events: "@;
    let b = decimal(all.len());
    let c = " (showing up to "@;
    let d = decimal(n);
    let e = ")\n"@;
    lemma_no_newlines(a);
    lemma_no_newlines(c);
    lemma_number_has_no_newline(all.len(), 10, false, 0, ' ');
    lemma_number_has_no_newline(n, 10, false, 0, ' ');
    assert(newlines(e) == 1) by {
        assert(e.drop_last() =~= seq![')']);
        lemma_no_newlines(e.drop_last());
    }
    lemma_newlines_joined(a, b);
    lemma_newlines_joined(a + b, c);
    lemma_newlines_joined(a + b + c, d);
    lemma_newlines_joined(a + b + c + d, e);
    assert forall|i: int| 0 <= i < shown.len() implies newlines(row(#[trigger] shown[i])) == 1 by {
        lemma_event_row(shown[i]);
    }
    lemma_one_line_each(shown, row);
    lemma_newlines_joined(a + b + c + d + e, all_texts(shown, row));
}

} // verus!
