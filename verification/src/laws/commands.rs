//! Commands: positions, checkpoints, restarts, and how they travel.

use vstd::prelude::*;
use vstd::utf8::encode_utf8;

use super::numbers::{is_numeral, law_numerals};
use crate::gdb::checkpoint::{format_position, row, rows_below, CheckpointTable, Saved};
use crate::gdb::commands::{
    handle_qrrcmd, handle_vrun, restart_position, run_rr_command, CommandTarget,
};
use crate::gdb::packet::{decode_hex, encode_hex, parse_qrrcmd_args, parse_tid_from_qpacket};
use crate::gdb::target::GdbTarget;
use crate::gdb::xml::TargetFault;
use crate::target::process::TtdProcess;
use crate::target::stop_reason::StopReason;
use crate::target::DebugTarget;
use crate::text::digits::{decimal, hex_upper};
use crate::text::parse::parse_radix;
use crate::text::split::{lemma_first_index_is, lemma_trimmed_is, white_space};
use crate::text::texts;
use crate::text::utf8::lemma_text_survives_lossy;
use crate::ttd::types::TtdPosition;

verus! {

/// A position is written as its sequence and its steps in upper case
/// hexadecimal, with a colon between them.
pub proof fn law_positions_are_written(pos: TtdPosition, r: String, a: Seq<char>, b: Seq<char>)
    requires
        call_ensures(format_position, (pos,), r),
        a == hex_upper(pos.sequence as nat),
        b == hex_upper(pos.steps as nat),
    ensures
        is_numeral(a, 16, true, pos.sequence as nat),
        is_numeral(b, 16, true, pos.steps as nat),
        r@ == a + seq![':'] + b,
{
    law_numerals(pos.sequence as nat);
    law_numerals(pos.steps as nat);
    assert(r@ =~= a + seq![':'] + b);
}

/// `when` answers with the position and changes nothing.
pub proof fn law_when(
    pos: TtdPosition,
    t: &mut CheckpointTable,
    args: &[String],
    r: String,
    text: String,
)
    requires
        args@.len() > 0,
        args@[0]@ == "when"@,
        call_ensures(run_rr_command, (pos, t, args), r),
        call_ensures(format_position, (pos,), text),
    ensures
        r@ == text@,
        final(t)@ == old(t)@,
{
    assert(texts(args@)[0] == args@[0]@);
}

/// `checkpoint` saves the position under an id that was not handed out before,
/// keeps all other checkpoints, and answers with the id and the position.
pub proof fn law_checkpoint_saves_the_position(
    pos: TtdPosition,
    t: &mut CheckpointTable,
    args: &[String],
    r: String,
    text: String,
    after: CheckpointTable,
    before: CheckpointTable,
    other: u64,
    saved: Option<TtdPosition>,
    was: Option<TtdPosition>,
    is_now: Option<TtdPosition>,
)
    requires
        old(t).wf(),
        args@.len() == 1,
        args@[0]@ == "checkpoint"@,
        call_ensures(run_rr_command, (pos, t, args), r),
        call_ensures(format_position, (pos,), text),
        before == *t,
        after == *final(t),
        call_ensures(CheckpointTable::position, (&after, before@.next_id as u64), saved),
        call_ensures(CheckpointTable::position, (&before, other), was),
        call_ensures(CheckpointTable::position, (&after, other), is_now),
    ensures
        saved == Some(pos),
        other != before@.next_id ==> is_now == was,
        after@.next_id == before@.next_id + 1,
        r@ == "Checkpoint "@ + decimal(before@.next_id) + " at "@ + text@,
        forall|id: u64| #[trigger] before@.saved.contains_key(id) ==> id < before@.next_id,
{
    old(t).lemma_contents_valid();
    reveal_strlit("checkpoint");
    reveal_strlit("when");
    assert(texts(args@)[0] == args@[0]@);
    assert("checkpoint"@.len() != "when"@.len());
}

/// `checkpoint` with a location says the location too, on one line and in one
/// cell.
pub proof fn law_checkpoint_locations(
    t: &mut CheckpointTable,
    pos: TtdPosition,
    place: &str,
    r: (u64, String),
    text: String,
)
    requires
        old(t).wf(),
        call_ensures(CheckpointTable::insert, (t, pos, place), r),
        call_ensures(format_position, (pos,), text),
    ensures
        r.0 == old(t)@.next_id,
        ({
            let head = "Checkpoint "@ + decimal(r.0 as nat) + " at "@ + text@;
            let cell = r.1@.skip(head.len() as int + 1);
            &&& place@.len() == 0 ==> r.1@ == head
            &&& place@.len() > 0 ==> {
                &&& r.1@.len() == head.len() + 1 + place@.len()
                &&& r.1@.take(head.len() as int) == head
                &&& r.1@[head.len() as int] == ' '
                &&& forall|i: int|
                    0 <= i < place@.len() ==> if place@[i] == '\t' || place@[i] == '\n' || place@[i]
                        == '\r' {
                        #[trigger] cell[i] == ' '
                    } else {
                        cell[i] == place@[i]
                    }
            }
        }),
{
    let head = "Checkpoint "@ + decimal(r.0 as nat) + " at "@ + text@;
    if place@.len() > 0 {
        assert(r.1@.take(head.len() as int) =~= head);
    }
}

/// `delete checkpoint` forgets the checkpoint that it names and no other, and
/// says whether there was one.
pub proof fn law_delete_forgets_one(
    pos: TtdPosition,
    t: &mut CheckpointTable,
    args: &[String],
    r: String,
    digits: &[char],
    id: Option<u64>,
)
    requires
        args@.len() >= 2,
        args@[0]@ == "delete checkpoint"@,
        digits@ == args@[1]@,
        call_ensures(parse_radix, (digits, 10u64), id),
        call_ensures(run_rr_command, (pos, t, args), r),
    ensures
        ({
            let known = id is Some && old(t)@.saved.contains_key(id->0);
            &&& known ==> r@ == "Deleted checkpoint "@ + decimal(id->0 as nat)
            &&& known ==> final(t)@.saved == old(t)@.saved.remove(id->0)
            &&& !known ==> r@ == "No such checkpoint"@ && final(t)@ == old(t)@
            &&& final(t)@.next_id == old(t)@.next_id
        }),
{
    reveal_strlit("delete checkpoint");
    reveal_strlit("checkpoint");
    reveal_strlit("info checkpoints");
    reveal_strlit("when");
    assert(texts(args@)[0] == args@[0]@);
    assert(texts(args@)[1] == args@[1]@);
    assert("delete checkpoint"@.len() == 17);
    assert("info checkpoints"@.len() == 16);
}

/// Any other command is answered with nothing and changes nothing.
pub proof fn law_other_commands_do_nothing(
    pos: TtdPosition,
    t: &mut CheckpointTable,
    args: &[String],
    r: String,
)
    requires
        args@.len() > 0 ==> args@[0]@ != "when"@ && args@[0]@ != "checkpoint"@ && args@[0]@
            != "info checkpoints"@ && args@[0]@ != "delete checkpoint"@,
        call_ensures(run_rr_command, (pos, t, args), r),
    ensures
        r@.len() == 0,
        final(t)@ == old(t)@,
{
    if args@.len() > 0 {
        assert(texts(args@)[0] == args@[0]@);
    }
}

/// The list of checkpoints is empty but for its heading at first, and a new
/// checkpoint adds one line at its end: id, position and location, with tabs
/// between them, and a dash for no location.
pub proof fn law_list_grows_by_a_line(
    empty: CheckpointTable,
    heading: String,
    t: &mut CheckpointTable,
    pos: TtdPosition,
    place: &str,
    r: (u64, String),
    before: CheckpointTable,
    after: CheckpointTable,
    shown: String,
    then_shown: String,
    text: String,
)
    requires
        old(t).wf(),
        call_ensures(CheckpointTable::new, (), empty),
        call_ensures(CheckpointTable::render, (&empty,), heading),
        call_ensures(CheckpointTable::insert, (t, pos, place), r),
        before == *t,
        after == *final(t),
        call_ensures(CheckpointTable::render, (&before,), shown),
        call_ensures(CheckpointTable::render, (&after,), then_shown),
        call_ensures(format_position, (pos,), text),
        forall|i: int|
            0 <= i < place@.len() ==> place@[i] != '\t' && place@[i] != '\n' && place@[i] != '\r',
    ensures
        heading@ == "Num\tWhen\tWhere\n"@,
        then_shown@ == shown@ + decimal(r.0 as nat) + seq!['\t'] + text@ + seq!['\t'] + (
        if place@.len() == 0 {
            seq!['-']
        } else {
            place@
        }) + seq!['\n'],
{
    old(t).lemma_contents_valid();
    lemma_no_rows(empty@.saved, 1);
    let (was, is_now) = (before@.saved, after@.saved);
    let n = before@.next_id;
    lemma_same_rows(was, is_now, n);
    let cell = is_now[n as u64].place;
    assert(cell =~= place@);
    assert(rows_below(is_now, n + 1) == rows_below(is_now, n) + row(n, is_now[n as u64]));
    assert(then_shown@ =~= shown@ + decimal(r.0 as nat) + seq!['\t'] + text@ + seq!['\t'] + (
    if place@.len() == 0 {
        seq!['-']
    } else {
        place@
    }) + seq!['\n']);
    assert(heading@ =~= "Num\tWhen\tWhere\n"@);
}

proof fn lemma_no_rows(saved: Map<u64, Saved>, n: nat)
    requires
        forall|id: u64| id < n ==> !#[trigger] saved.contains_key(id),
    ensures
        rows_below(saved, n).len() == 0,
    decreases n,
{
    if n > 0 {
        lemma_no_rows(saved, (n - 1) as nat);
        if n <= u64::MAX + 1 {
            assert(!saved.contains_key((n - 1) as u64));
        }
    }
}

proof fn lemma_same_rows(a: Map<u64, Saved>, b: Map<u64, Saved>, n: nat)
    requires
        forall|id: u64|
            id < n ==> (#[trigger] a.contains_key(id) <==> b.contains_key(id)) && (a.contains_key(
                id,
            ) ==> a[id] == b[id]),
    ensures
        rows_below(a, n) == rows_below(b, n),
    decreases n,
{
    if n > 0 {
        lemma_same_rows(a, b, (n - 1) as nat);
        if n <= u64::MAX + 1 {
            let id = (n - 1) as u64;
            assert(a.contains_key(id) <==> b.contains_key(id));
        }
    }
}

/// Forgetting a checkpoint takes its line out of the list and leaves the others.
pub proof fn law_list_loses_a_line(
    t: &mut CheckpointTable,
    id: u64,
    r: bool,
    before: CheckpointTable,
    after: CheckpointTable,
    shown: String,
    then_shown: String,
)
    requires
        old(t).wf(),
        call_ensures(CheckpointTable::remove, (t, id), r),
        before == *t,
        after == *final(t),
        call_ensures(CheckpointTable::render, (&before,), shown),
        call_ensures(CheckpointTable::render, (&after,), then_shown),
    ensures
        r <==> before@.saved.contains_key(id),
        !r ==> then_shown@ == shown@,
        r ==> exists|a: Seq<char>, line: Seq<char>, b: Seq<char>|
            {
                &&& shown@ == #[trigger] (a + line + b)
                &&& then_shown@ == a + b
                &&& decimal(id as nat).push('\t').is_prefix_of(line)
                &&& line.last() == '\n'
            },
{
    old(t).lemma_contents_valid();
    let (was, is_now) = (before@.saved, after@.saved);
    let n = before@.next_id;
    if r {
        lemma_split_rows(was, id, n);
        let line = row(id as nat, was[id]);
        let head = "Num\tWhen\tWhere\n"@ + rows_below(was, id as nat);
        let (mid, tail) = choose|mid: Seq<char>, tail: Seq<char>|
            rows_below(was, n) == #[trigger] (mid + line + tail) && rows_below(
                was.remove(id),
                n,
            ) == mid + tail;
        let a = "Num\tWhen\tWhere\n"@ + mid;
        assert(shown@ =~= a + line + tail);
        assert(then_shown@ =~= a + tail);
        assert(decimal(id as nat).push('\t') =~= line.take(
            decimal(id as nat).push('\t').len() as int,
        ));
    } else {
        lemma_same_rows(was, is_now, n);
    }
}

proof fn lemma_split_rows(saved: Map<u64, Saved>, id: u64, n: nat)
    requires
        saved.contains_key(id),
        id < n <= u64::MAX + 1,
    ensures
        exists|mid: Seq<char>, tail: Seq<char>|
            rows_below(saved, n) == #[trigger] (mid + row(id as nat, saved[id]) + tail)
                && rows_below(saved.remove(id), n) == mid + tail,
    decreases n,
{
    let line = row(id as nat, saved[id]);
    let rest = saved.remove(id);
    if n == id + 1 {
        lemma_same_rows(saved, rest, id as nat);
        let mid = rows_below(saved, id as nat);
        let none = Seq::<char>::empty();
        assert(rows_below(saved, n) =~= mid + line + none);
        assert(rows_below(rest, n) =~= mid + none);
    } else {
        lemma_split_rows(saved, id, (n - 1) as nat);
        let (mid, tail) = choose|mid: Seq<char>, tail: Seq<char>|
            rows_below(saved, (n - 1) as nat) == #[trigger] (mid + line + tail) && rows_below(
                rest,
                (n - 1) as nat,
            ) == mid + tail;
        let last = (n - 1) as u64;
        let more = if saved.contains_key(last) {
            row((n - 1) as nat, saved[last])
        } else {
            Seq::empty()
        };
        assert(rows_below(saved, n) =~= mid + line + (tail + more));
        assert(rows_below(rest, n) =~= mid + (tail + more));
    }
}

/// A restart at what `when` shows goes back to that position, whatever
/// checkpoints there are.
pub proof fn law_restart_at_a_shown_position(
    pos: TtdPosition,
    shown: String,
    text: &str,
    t: CheckpointTable,
    first: TtdPosition,
    r: Option<TtdPosition>,
)
    requires
        call_ensures(format_position, (pos,), shown),
        text@ == shown@,
        call_ensures(restart_position, (text, &t, first), r),
    ensures
        r == Some(pos),
{
    crate::gdb::commands::law_restart_at_a_position(pos, t@, first);
}

/// A restart at `c` or `C` and a number goes to the checkpoint with that number,
/// one with nothing goes to the start of the trace, and one with anything else
/// but a position goes nowhere.
pub proof fn law_restart_forms(
    text: &str,
    t: CheckpointTable,
    first: TtdPosition,
    r: Option<TtdPosition>,
    digits: &[char],
    id: Option<u64>,
    saved: Option<TtdPosition>,
)
    requires
        text@.len() > 0 ==> !white_space(text@[0]) && !white_space(text@.last()),
        forall|i: int| 0 <= i < text@.len() ==> text@[i] != ':',
        digits@ == text@.skip(1),
        call_ensures(parse_radix, (digits, 10u64), id),
        id is Some ==> call_ensures(CheckpointTable::position, (&t, id->0), saved),
        call_ensures(restart_position, (text, &t, first), r),
    ensures
        text@.len() == 0 ==> r == Some(first),
        text@.len() > 0 && (text@[0] == 'c' || text@[0] == 'C') && id is Some ==> r == saved,
        text@.len() > 0 && (text@[0] == 'c' || text@[0] == 'C') && id is None ==> r is None,
        text@.len() > 0 && text@[0] != 'c' && text@[0] != 'C' ==> r is None,
{
    lemma_trimmed_is(text@);
    lemma_first_index_is(text@, ':', text@.len() as int);
}

/// A restart at two hexadecimal numbers with a colon between them goes to that
/// position; if either is none, it goes nowhere.
pub proof fn law_restart_at_two_numbers(
    text: &str,
    a: &[char],
    b: &[char],
    x: Option<u64>,
    y: Option<u64>,
    t: CheckpointTable,
    first: TtdPosition,
    r: Option<TtdPosition>,
)
    requires
        text@ == a@ + seq![':'] + b@,
        forall|i: int| 0 <= i < a@.len() ==> a@[i] != ':',
        !white_space(text@[0]) && !white_space(text@.last()),
        call_ensures(parse_radix, (a, 16u64), x),
        call_ensures(parse_radix, (b, 16u64), y),
        call_ensures(restart_position, (text, &t, first), r),
    ensures
        x is Some && y is Some ==> r == Some(TtdPosition { sequence: x->0, steps: y->0 }),
        x is None || y is None ==> r is None,
{
    lemma_trimmed_is(text@);
    lemma_first_index_is(text@, ':', a@.len() as int);
    assert(text@.take(a@.len() as int) =~= a@);
    assert(text@.skip(a@.len() as int + 1) =~= b@);
}

/// White space around what a restart names does not matter.
pub proof fn law_restarts_are_trimmed(
    lead: Seq<char>,
    core: &str,
    tail: Seq<char>,
    text: &str,
    t: CheckpointTable,
    first: TtdPosition,
    r: Option<TtdPosition>,
    q: Option<TtdPosition>,
)
    requires
        super::text::is_blank(lead) && super::text::is_blank(tail),
        core@.len() > 0 ==> !white_space(core@[0]) && !white_space(core@.last()),
        text@ == lead + core@ + tail,
        call_ensures(restart_position, (text, &t, first), r),
        call_ensures(restart_position, (core, &t, first), q),
    ensures
        r == q,
{
    super::text::lemma_trimmed(lead, core@, tail);
    lemma_trimmed_is(core@);
}

/// A restart request moves the target where its argument says, and nowhere if
/// that is no place.
pub proof fn law_restart_requests<T: CommandTarget>(
    backend: &mut T,
    t: CheckpointTable,
    arg: &[u8],
    text: &str,
    r: Option<TtdPosition>,
)
    requires
        arg@ == encode_utf8(text@),
        call_ensures(restart_position, (text, &t, backend.span().0), r),
        call_ensures(handle_vrun::<T>, (backend, &t, Some(arg)), ()),
    ensures
        r matches Some(pos) ==> old(backend).may_move(pos, *final(backend)),
        r is None ==> *final(backend) == *old(backend),
{
    lemma_text_survives_lossy(text@);
}

/// A session restarts like that, keeps its checkpoints, and refuses while a
/// replay is running.
pub proof fn law_session_restarts<T: DebugTarget>(
    s: &mut GdbTarget<T>,
    t: CheckpointTable,
    arg: &[u8],
    text: &str,
    to: Option<TtdPosition>,
    r: Result<u64, TargetFault>,
    plain: &mut GdbTarget<T>,
)
    requires
        arg@ == encode_utf8(text@),
        t@ == s@.checkpoints,
        call_ensures(restart_position, (text, &t, s@.backend().extent().0), to),
        call_ensures(GdbTarget::<T>::run, (s, Some(arg)), r),
        call_ensures(GdbTarget::<T>::restart, (plain,), ()),
    ensures
        r is Err <==> old(s)@.runner.running(),
        r matches Ok(pid) ==> pid == 1,
        r is Err || to is None ==> final(s)@ == old(s)@,
        r is Ok && to is Some ==> exists|b: T, why: Result<
            crate::target::stop_reason::StopReason,
            crate::target::error::DebugError,
        >| #[trigger]
            old(s)@.backend().may_goto(to->0, b, why) && final(s)@.backend() == b,
        final(s)@.checkpoints == old(s)@.checkpoints,
        exists|b: T, why: Result<
            crate::target::stop_reason::StopReason,
            crate::target::error::DebugError,
        >| #[trigger]
            old(plain)@.backend().may_goto(old(plain)@.backend().extent().0, b, why)
                && final(plain)@.backend() == b,
{
    lemma_text_survives_lossy(text@);
}

/// A run without an argument starts at the beginning of the trace, in a session
/// as on a target.
pub proof fn law_bare_runs_start_over<T: DebugTarget, U: CommandTarget>(
    s: &mut GdbTarget<T>,
    r: Result<u64, TargetFault>,
    target: &mut U,
    t: CheckpointTable,
)
    requires
        s@.runner.backend is Some,
        call_ensures(GdbTarget::<T>::run, (s, None), r),
        call_ensures(handle_vrun::<U>, (target, &t, None), ()),
    ensures
        r is Ok,
        exists|b: T, why: Result<
            crate::target::stop_reason::StopReason,
            crate::target::error::DebugError,
        >| #[trigger]
            old(s)@.backend().may_goto(old(s)@.backend().extent().0, b, why)
                && final(s)@.backend() == b,
        old(target).may_move(old(target).span().0, *final(target)),
        final(s)@.checkpoints == old(s)@.checkpoints,
{
    let none = Seq::<char>::empty();
    lemma_trimmed_is(none);
    lemma_first_index_is(none, ':', 0);
}

/// Commands of a target are carried out at its position.
pub proof fn law_commands_are_carried_out_here<T: CommandTarget>(
    backend: T,
    t: &mut CheckpointTable,
    u: &mut CheckpointTable,
    body: &str,
    args: Vec<String>,
    list: &[String],
    r: String,
    q: String,
)
    requires
        *t == *u,
        call_ensures(parse_qrrcmd_args, (body,), args),
        list@ == args@,
        call_ensures(handle_qrrcmd::<T>, (&backend, t, body), r),
        call_ensures(run_rr_command, (backend.at(), u, list), q),
    ensures
        r@ == q@,
        final(t)@ == final(u)@,
{
}

/// Bytes in hex: two digits for each byte, the high half first, in lower case.
pub proof fn law_hex_digits(bytes: &[u8], r: String, i: int)
    requires
        0 <= i < bytes@.len(),
        call_ensures(encode_hex, (bytes,), r),
    ensures
        r@.len() == 2 * bytes@.len(),
        super::numbers::digit(r@[2 * i]) == Some((bytes@[i] / 16) as nat),
        super::numbers::digit(r@[2 * i + 1]) == Some((bytes@[i] % 16) as nat),
        !('A' <= r@[2 * i] <= 'F') && !('A' <= r@[2 * i + 1] <= 'F'),
{
}

/// Hex is read in either case; an odd number of digits or anything that is no
/// digit is refused.
pub proof fn law_hex_is_read(s: &[u8], r: Option<Vec<u8>>)
    requires
        call_ensures(decode_hex, (s,), r),
    ensures
        r is Some <==> s@.len() % 2 == 0 && forall|i: int|
            0 <= i < s@.len() ==> super::numbers::digit(#[trigger] s@[i] as char) is Some,
        r matches Some(v) ==> v@.len() == s@.len() / 2 && forall|i: int|
            0 <= i < v@.len() ==> #[trigger] v@[i] == super::numbers::digit(
                s@[2 * i] as char,
            )->0 * 16 + super::numbers::digit(s@[2 * i + 1] as char)->0,
{
    assert forall|b: u8| crate::gdb::packet::nibble(b) is Some <==> super::numbers::digit(
        #[trigger] (b as char),
    ) is Some by {
        lemma_nibble(b);
    }
    if r is Some {
        assert forall|i: int| 0 <= i < s@.len() implies super::numbers::digit(
            #[trigger] s@[i] as char,
        ) is Some by {
            lemma_nibble(s@[i]);
            assert(crate::gdb::packet::nibble(s@[i]) is Some);
        }
        assert forall|i: int| 0 <= i < r->0@.len() implies #[trigger] r->0@[i]
            == super::numbers::digit(s@[2 * i] as char)->0 * 16 + super::numbers::digit(
            s@[2 * i + 1] as char,
        )->0 by {
            lemma_nibble(s@[2 * i]);
            lemma_nibble(s@[2 * i + 1]);
            assert(crate::gdb::packet::nibble(s@[2 * i]) is Some);
            assert(crate::gdb::packet::nibble(s@[2 * i + 1]) is Some);
        }
    } else if s@.len() % 2 == 0 {
        let i = choose|i: int|
            0 <= i < s@.len() && crate::gdb::packet::nibble(#[trigger] s@[i]) is None;
        lemma_nibble(s@[i]);
    }
}

proof fn lemma_nibble(b: u8)
    ensures
        crate::gdb::packet::nibble(b) is Some <==> super::numbers::digit(b as char) is Some,
        crate::gdb::packet::nibble(b) is Some ==> crate::gdb::packet::nibble(b)->0
            == super::numbers::digit(b as char)->0,
{
}

/// A thread of a packet is a hexadecimal number, with or without a process in
/// front.
pub proof fn law_packet_threads(
    pid: Seq<char>,
    digits: &[char],
    long: &str,
    short: &str,
    n: Option<u64>,
    r: Option<u64>,
    q: Option<u64>,
)
    requires
        forall|i: int| 0 <= i < pid.len() ==> pid[i] != '.',
        long@ == seq!['p'] + pid + seq!['.'] + digits@,
        short@ == digits@,
        digits@.len() > 0 ==> digits@[0] != 'p',
        call_ensures(parse_radix, (digits, 16u64), n),
        call_ensures(parse_tid_from_qpacket, (long,), r),
        call_ensures(parse_tid_from_qpacket, (short,), q),
    ensures
        r == n,
        q == n,
{
    let rest = long@.skip(1);
    assert(rest =~= pid + seq!['.'] + digits@);
    lemma_first_index_is(rest, '.', pid.len() as int);
    assert(rest.skip(pid.len() as int + 1) =~= digits@);
}

/// A thread with a process in front has a point behind the process.
pub proof fn law_packet_threads_without_a_point(text: &str, r: Option<u64>)
    requires
        text@.len() > 0,
        text@[0] == 'p',
        forall|i: int| 0 <= i < text@.len() ==> text@[i] != '.',
        call_ensures(parse_tid_from_qpacket, (text,), r),
    ensures
        r is None,
{
    let rest = text@.skip(1);
    assert forall|i: int| 0 <= i < rest.len() implies rest[i] != '.' by {
        assert(text@[i + 1] != '.');
    }
    lemma_first_index_is(rest, '.', rest.len() as int);
}

/// The commands work on the table of checkpoints: `checkpoint` inserts at its
/// first argument, or nowhere in particular, `info checkpoints` lists, and
/// `delete checkpoint` without a number finds nothing.
pub proof fn law_commands_use_the_table(
    pos: TtdPosition,
    t: &mut CheckpointTable,
    u: &mut CheckpointTable,
    args: &[String],
    r: String,
    place: &str,
    inserted: (u64, String),
    before: CheckpointTable,
    listed: String,
)
    requires
        *t == *u && before == *t,
        args@.len() > 0,
        call_ensures(run_rr_command, (pos, t, args), r),
        args@.len() > 1 ==> place@ == args@[1]@,
        args@.len() == 1 ==> place@.len() == 0,
        call_ensures(CheckpointTable::insert, (u, pos, place), inserted),
        call_ensures(CheckpointTable::render, (&before,), listed),
    ensures
        args@[0]@ == "checkpoint"@ ==> r@ == inserted.1@ && final(t)@ == final(u)@,
        args@[0]@ == "info checkpoints"@ ==> r@ == listed@ && final(t)@ == before@,
        args@[0]@ == "delete checkpoint"@ && args@.len() == 1 ==> r@ == "No such checkpoint"@
            && final(t)@ == before@,
{
    reveal_strlit("delete checkpoint");
    reveal_strlit("checkpoint");
    reveal_strlit("info checkpoints");
    reveal_strlit("when");
    assert(texts(args@)[0] == args@[0]@);
    if args@.len() > 1 {
        assert(texts(args@)[1] == args@[1]@);
    } else {
        assert(place@ =~= Seq::<char>::empty());
    }
    assert("delete checkpoint"@.len() == 17);
    assert("info checkpoints"@.len() == 16);
    assert("checkpoint"@.len() == 10);
    assert("when"@.len() == 4);
}

/// The arguments of a command in the new style: its name, `-1`, and each further
/// argument, decoded if it is in hex and as it is if not. Colons in front do not
/// matter.
pub proof fn law_new_style_arguments(
    colons: nat,
    body: &[char],
    parts: Vec<Vec<char>>,
    rest: &str,
    r: Vec<String>,
    i: int,
    bytes: &[u8],
    d: Option<Vec<u8>>,
    text: Seq<char>,
)
    requires
        body@.len() > 0,
        body@[0] != ':',
        call_ensures(crate::text::split::split_on, (body, ':'), parts),
        rest@ == Seq::new(colons, |k: int| ':') + body@,
        parts@.len() >= 2,
        parts@[1]@ == seq!['-', '1'],
        call_ensures(parse_qrrcmd_args, (rest,), r),
        2 <= i < parts@.len() ==> bytes@ == encode_utf8(parts@[i]@) && call_ensures(
            decode_hex,
            (bytes,),
            d,
        ),
    ensures
        r@.len() == parts@.len() - 1,
        r@[0]@ == parts@[0]@,
        2 <= i < parts@.len() && d is None ==> r@[i - 1]@ == parts@[i]@,
        2 <= i < parts@.len() && d is Some && d->0@ == encode_utf8(text) ==> r@[i - 1]@ == text,
{
    super::text::lemma_leading(colons, ':', body@);
    let ps = crate::text::char_texts(parts@);
    assert(ps[1] == parts@[1]@);
    assert(ps[0] == parts@[0]@);
    assert(texts(r@).len() == r@.len());
    assert(texts(r@)[0] == r@[0]@);
    if 2 <= i < parts@.len() {
        assert(texts(r@)[i - 1] == r@[i - 1]@);
        assert(ps.skip(2)[i - 2] == parts@[i]@);
        crate::text::utf8::lemma_text_survives_lossy(text);
    }
}

/// The arguments of a command in the old style: one more piece is one more
/// argument if it is in hex, and none if not.
pub proof fn law_old_style_arguments(
    body: &[char],
    parts: Vec<Vec<char>>,
    rest: &str,
    r: Vec<String>,
    piece: Seq<char>,
    more: &str,
    q: Vec<String>,
    bytes: &[u8],
    d: Option<Vec<u8>>,
    text: Seq<char>,
)
    requires
        body@.len() > 0,
        body@[0] != ':',
        call_ensures(crate::text::split::split_on, (body, ':'), parts),
        parts@.len() >= 2 ==> parts@[1]@ != seq!['-', '1'],
        !piece.contains(':'),
        parts@.len() == 1 ==> piece != seq!['-', '1'],
        rest@ == body@,
        more@ == body@.push(':') + piece,
        call_ensures(parse_qrrcmd_args, (rest,), r),
        call_ensures(parse_qrrcmd_args, (more,), q),
        bytes@ == encode_utf8(piece),
        call_ensures(decode_hex, (bytes,), d),
    ensures
        d is None ==> texts(q@) == texts(r@),
        d is Some && d->0@ == encode_utf8(text) ==> texts(q@) == texts(r@).push(text),
{
    let ps = crate::text::char_texts(parts@);
    super::text::lemma_leading(0, ':', body@);
    assert(Seq::new(0, |k: int| ':') + body@ =~= body@);
    super::text::lemma_leading(0, ':', more@);
    assert(Seq::new(0, |k: int| ':') + more@ =~= more@);
    assert(more@[0] == body@[0]);
    crate::text::split::lemma_pieces_joined(body@, ':', piece);
    crate::text::split::lemma_one_piece(piece, ':');
    let qs = crate::text::split::pieces(more@, ':');
    assert(qs =~= ps.push(piece));
    assert(qs.drop_last() =~= ps);
    if ps.len() >= 2 {
        assert(ps[1] == parts@[1]@);
    }
    crate::text::utf8::lemma_text_survives_lossy(text);
}

/// The only piece of a command is its only argument, if it is in hex.
pub proof fn law_single_arguments(
    rest: &str,
    r: Vec<String>,
    bytes: &[u8],
    d: Option<Vec<u8>>,
    text: Seq<char>,
)
    requires
        rest@.len() > 0,
        !rest@.contains(':'),
        call_ensures(parse_qrrcmd_args, (rest,), r),
        bytes@ == encode_utf8(rest@),
        call_ensures(decode_hex, (bytes,), d),
    ensures
        d is None ==> r@.len() == 0,
        d is Some && d->0@ == encode_utf8(text) ==> r@.len() == 1 && r@[0]@ == text,
{
    super::text::lemma_leading(0, ':', rest@);
    assert(Seq::new(0, |k: int| ':') + rest@ =~= rest@);
    crate::text::split::lemma_one_piece(rest@, ':');
    assert(seq![rest@].drop_last() =~= Seq::<Seq<char>>::empty());
    reveal_with_fuel(crate::gdb::packet::decoded_only, 2);
    crate::text::utf8::lemma_text_survives_lossy(text);
    assert(texts(r@).len() == r@.len());
    if r@.len() == 1 {
        assert(texts(r@)[0] == r@[0]@);
    }
}

/// A loaded trace carries commands out at its own position, and restarts by a
/// jump of its own.
pub proof fn law_traces_carry_out_commands(
    p: TtdProcess,
    t: &mut CheckpointTable,
    u: &mut CheckpointTable,
    body: &str,
    args: Vec<String>,
    list: &[String],
    pos: TtdPosition,
    r: String,
    q: String,
    run: &mut TtdProcess,
    jump: &mut TtdProcess,
    table: CheckpointTable,
    arg: &[u8],
    text: &str,
    first: TtdPosition,
    last: TtdPosition,
    to: Option<TtdPosition>,
    why: StopReason,
)
    requires
        *t == *u,
        call_ensures(parse_qrrcmd_args, (body,), args),
        list@ == args@,
        call_ensures(TtdProcess::position, (&p,), pos),
        call_ensures(handle_qrrcmd::<TtdProcess>, (&p, t, body), r),
        call_ensures(run_rr_command, (pos, u, list), q),
        *run == p && *jump == p,
        arg@ == encode_utf8(text@),
        call_ensures(TtdProcess::lifetime, (&p,), (first, last)),
        call_ensures(restart_position, (text, &table, first), to),
        call_ensures(handle_vrun::<TtdProcess>, (run, &table, Some(arg)), ()),
        to is Some ==> call_ensures(TtdProcess::goto, (jump, to->0), why),
    ensures
        r@ == q@,
        final(t)@ == final(u)@,
        to is Some ==> final(run)@ == final(jump)@,
        to is None ==> final(run)@ == p@,
{
    lemma_text_survives_lossy(text@);
}

/// A target carries commands out where it stands, and restarts by a jump within
/// its own trace.
pub proof fn law_targets_carry_out_commands<T: DebugTarget>(t: T, pos: TtdPosition, after: T)
    ensures
        t.at() == t.now(),
        t.span() == t.extent(),
        t.may_move(pos, after) <==> exists|r: Result<
            StopReason,
            crate::target::error::DebugError,
        >| #[trigger] t.may_goto(pos, after, r),
{
}

/// A checkpoint that is removed is gone, the others stay, and it is told whether
/// there was one. Its id is not handed out again.
pub proof fn law_removed_checkpoints(
    t: &mut CheckpointTable,
    id: u64,
    r: bool,
    before: CheckpointTable,
    after: CheckpointTable,
    other: u64,
    found: Option<TtdPosition>,
    gone: Option<TtdPosition>,
    was: Option<TtdPosition>,
    now: Option<TtdPosition>,
    next: &mut CheckpointTable,
    pos: TtdPosition,
    place: &str,
    fresh: (u64, String),
)
    requires
        t.wf(),
        before == *t,
        call_ensures(CheckpointTable::remove, (t, id), r),
        after == *final(t),
        call_ensures(CheckpointTable::position, (&before, id), found),
        call_ensures(CheckpointTable::position, (&after, id), gone),
        call_ensures(CheckpointTable::position, (&before, other), was),
        call_ensures(CheckpointTable::position, (&after, other), now),
        *next == after,
        call_ensures(CheckpointTable::insert, (next, pos, place), fresh),
    ensures
        r <==> found is Some,
        gone is None,
        other != id ==> now == was,
        r ==> fresh.0 > id,
        was is Some ==> fresh.0 > other,
{
    before.lemma_contents_valid();
}

} // verus!
