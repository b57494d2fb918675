//! rr-style command handling (`qRRCmd`, `vRun`).
//!
//! These commands need only a small slice of the debug target: the current
//! position, the trace lifetime, and a jump. `CommandTarget` is that slice.

use vstd::prelude::*;
use vstd::utf8::encode_utf8;

use super::checkpoint::{
    acknowledgement, format_position, listing, position_text, sanitized, CheckpointTable,
    Checkpoints,
};
use super::packet::{parse_qrrcmd_args, qrrcmd_args};
use crate::target::error::DebugError;
use crate::target::stop_reason::StopReason;
use crate::target::DebugTarget;
use crate::text::digits::{
    decimal, hex_upper, lemma_radix_text_digits, push_decimal, radix_text,
};
use crate::text::parse::{lemma_rendered_number_parses, parse_radix, parsed};
use crate::text::split::{
    cut_once, lemma_first_index_is, lemma_trimmed_is, split_once, trim, trimmed, white_space,
};
use crate::text::utf8::{lemma_text_survives_lossy, lossy_text, text_lossy};
use crate::text::{chars_of, tail_of, text_is, texts};
use crate::ttd::types::TtdPosition;

verus! {

/// The command-visible slice of a debug target. A target that no proof speaks of
/// leaves the spec functions as they are.
pub trait CommandTarget: Sized {
    /// The current position.
    closed spec fn at(&self) -> TtdPosition {
        arbitrary()
    }

    /// The first and the last position of the trace.
    closed spec fn span(&self) -> (TtdPosition, TtdPosition) {
        arbitrary()
    }

    /// A jump to `pos` can end in this state.
    closed spec fn may_move(&self, pos: TtdPosition, after: Self) -> bool {
        arbitrary()
    }

    /// The current position.
    fn position(&self) -> (r: TtdPosition)
        ensures
            r == self.at(),
    ;

    /// The first and the last position of the trace.
    fn lifetime(&self) -> (r: (TtdPosition, TtdPosition))
        ensures
            r == self.span(),
    ;

    /// Jump to `pos`.
    fn goto(&mut self, pos: TtdPosition)
        ensures
            old(self).may_move(pos, *final(self)),
    ;
}

impl<T: DebugTarget> CommandTarget for T {
    open spec fn at(&self) -> TtdPosition {
        self.now()
    }

    open spec fn span(&self) -> (TtdPosition, TtdPosition) {
        self.extent()
    }

    open spec fn may_move(&self, pos: TtdPosition, after: Self) -> bool {
        exists|r: Result<StopReason, DebugError>| #[trigger] self.may_goto(pos, after, r)
    }

    fn position(&self) -> TtdPosition {
        DebugTarget::position(self)
    }

    fn lifetime(&self) -> (TtdPosition, TtdPosition) {
        DebugTarget::lifetime(self)
    }

    fn goto(&mut self, pos: TtdPosition) {
        // Where the jump stopped shows at the next query.
        let _ = DebugTarget::goto(self, pos);
    }
}

/// The checkpoint that a `delete checkpoint` command names.
pub open spec fn doomed(t: Checkpoints, args: Seq<Seq<char>>) -> Option<u64> {
    if args.len() > 1 && parsed(args[1], 10) is Some && t.saved.contains_key(
        parsed(args[1], 10)->0,
    ) {
        parsed(args[1], 10)
    } else {
        None
    }
}

/// The location that a `checkpoint` command carries.
pub open spec fn location(args: Seq<Seq<char>>) -> Seq<char> {
    if args.len() > 1 {
        args[1]
    } else {
        Seq::empty()
    }
}

/// The reply to a `qRRCmd` with these arguments at position `pos`.
pub open spec fn rr_reply(pos: TtdPosition, t: Checkpoints, args: Seq<Seq<char>>) -> Seq<char> {
    if args.len() == 0 {
        Seq::empty()
    } else if args[0] == "when"@ {
        position_text(pos)
    } else if args[0] == "checkpoint"@ {
        acknowledgement(t.next_id, pos, sanitized(location(args)))
    } else if args[0] == "info checkpoints"@ {
        listing(t)
    } else if args[0] == "delete checkpoint"@ {
        match doomed(t, args) {
            Some(id) => "Deleted checkpoint "@ + decimal(id as nat),
            None => "No such checkpoint"@,
        }
    } else {
        Seq::empty()
    }
}

/// The checkpoints after a `qRRCmd` with these arguments at position `pos`.
pub open spec fn rr_checkpoints(pos: TtdPosition, t: Checkpoints, args: Seq<Seq<char>>) -> Checkpoints {
    if args.len() == 0 || args[0] == "when"@ {
        t
    } else if args[0] == "checkpoint"@ {
        t.inserted(pos, location(args))
    } else if args[0] == "info checkpoints"@ {
        t
    } else if args[0] == "delete checkpoint"@ {
        match doomed(t, args) {
            Some(id) => t.removed(id),
            None => t,
        }
    } else {
        t
    }
}

/// A `qRRCmd` with these arguments saves a checkpoint.
pub open spec fn saves_checkpoint(args: Seq<Seq<char>>) -> bool {
    args.len() > 0 && args[0] == "checkpoint"@
}

/// Carry out a parsed `qRRCmd` (`when`, `checkpoint`, `info checkpoints`,
/// `delete checkpoint`). Everything else is an empty reply.
pub fn run_rr_command(pos: TtdPosition, checkpoints: &mut CheckpointTable, args: &[String]) -> (r:
    String)
    requires
        old(checkpoints).wf(),
        saves_checkpoint(texts(args@)) ==> old(checkpoints)@.next_id < u64::MAX,
    ensures
        final(checkpoints).wf(),
        r@ == rr_reply(pos, old(checkpoints)@, texts(args@)),
        final(checkpoints)@ == rr_checkpoints(pos, old(checkpoints)@, texts(args@)),
{
    let ghost ts = texts(args@);
    if args.len() == 0 {
        return String::new();
    }
    let command = args[0].as_str();
    assert(command@ == ts[0]);
    if text_is(command, "when") {
        format_position(pos)
    } else if text_is(command, "checkpoint") {
        if args.len() > 1 {
            assert(args@[1]@ == ts[1]);
            checkpoints.insert(pos, args[1].as_str()).1
        } else {
            let nowhere = String::new();
            assert(nowhere@ == location(ts));
            checkpoints.insert(pos, nowhere.as_str()).1
        }
    } else if text_is(command, "info checkpoints") {
        checkpoints.render()
    } else if text_is(command, "delete checkpoint") {
        if args.len() > 1 {
            assert(args@[1]@ == ts[1]);
            let number = chars_of(args[1].as_str());
            if let Some(id) = parse_radix(number.as_slice(), 10) {
                if checkpoints.remove(id) {
                    let mut reply = String::new();
                    reply.append("Deleted checkpoint ");
                    push_decimal(&mut reply, id);
                    return reply;
                }
                assert(checkpoints@.saved =~= old(checkpoints)@.saved);
            }
        }
        let mut reply = String::new();
        reply.append("No such checkpoint");
        assert(reply@ =~= "No such checkpoint"@);
        reply
    } else {
        String::new()
    }
}

/// Answer rr's `qRRCmd`.
pub fn handle_qrrcmd<T: CommandTarget>(
    backend: &T,
    checkpoints: &mut CheckpointTable,
    args: &str,
) -> (r: String)
    requires
        old(checkpoints).wf(),
        saves_checkpoint(qrrcmd_args(args@)) ==> old(checkpoints)@.next_id < u64::MAX,
    ensures
        final(checkpoints).wf(),
        r@ == rr_reply(backend.at(), old(checkpoints)@, qrrcmd_args(args@)),
        final(checkpoints)@ == rr_checkpoints(
            backend.at(),
            old(checkpoints)@,
            qrrcmd_args(args@),
        ),
{
    let parsed_args = parse_qrrcmd_args(args);
    run_rr_command(backend.position(), checkpoints, parsed_args.as_slice())
}

/// The position that a restart argument names: `SEQ:STEPS` in hex, `c<N>` or
/// `C<N>` for a checkpoint, nothing for the trace start. A colon decides for a
/// position, since a sequence number may itself start with the digit `c`.
pub open spec fn restart_goal(arg: Seq<char>, t: Checkpoints, first: TtdPosition) -> Option<
    TtdPosition,
> {
    let s = trimmed(arg);
    match cut_once(s, ':') {
        Some((seq, steps)) => {
            if parsed(seq, 16) is Some && parsed(steps, 16) is Some {
                Some(TtdPosition { sequence: parsed(seq, 16)->0, steps: parsed(steps, 16)->0 })
            } else {
                None
            }
        },
        None => {
            if s.len() == 0 {
                Some(first)
            } else if s[0] == 'c' || s[0] == 'C' {
                match parsed(s.skip(1), 10) {
                    Some(id) => t.position_of(id),
                    None => None,
                }
            } else {
                None
            }
        },
    }
}

/// Where a restart with this argument goes. `None` for a malformed position,
/// an unknown checkpoint or anything else: the target then stays where it is.
pub fn restart_position(arg: &str, checkpoints: &CheckpointTable, first: TtdPosition) -> (r: Option<
    TtdPosition,
>)
    ensures
        r == restart_goal(arg@, checkpoints@, first),
{
    let chars = chars_of(arg);
    let s = trim(chars.as_slice());
    if let Some((seq, steps)) = split_once(s.as_slice(), ':') {
        return match (parse_radix(seq.as_slice(), 16), parse_radix(steps.as_slice(), 16)) {
            (Some(sequence), Some(steps)) => Some(TtdPosition { sequence, steps }),
            _ => None,
        };
    }
    if s.len() == 0 {
        Some(first)
    } else if s[0] == 'c' || s[0] == 'C' {
        let id_text = tail_of(s.as_slice(), 1);
        match parse_radix(id_text.as_slice(), 10) {
            Some(id) => checkpoints.position(id),
            None => None,
        }
    } else {
        None
    }
}

/// The text of the first argument of a `vRun`; empty if there is none.
pub open spec fn restart_text(arg: Option<Seq<u8>>) -> Seq<char> {
    match arg {
        Some(bytes) => lossy_text(bytes),
        None => Seq::empty(),
    }
}

/// Handle `vRun[;arg...]`, given its first argument.
pub fn handle_vrun<T: CommandTarget>(
    backend: &mut T,
    checkpoints: &CheckpointTable,
    arg: Option<&[u8]>,
)
    ensures
        (match restart_goal(
            restart_text(
                match arg {
                    Some(a) => Some(a@),
                    None => None,
                },
            ),
            checkpoints@,
            old(backend).span().0,
        ) {
            Some(pos) => old(backend).may_move(pos, *final(backend)),
            None => *final(backend) == *old(backend),
        }),
{
    let text = match arg {
        Some(bytes) => text_lossy(bytes),
        None => String::new(),
    };
    let (first, _) = backend.lifetime();
    if let Some(pos) = restart_position(text.as_str(), checkpoints, first) {
        backend.goto(pos);
    }
}

/// Digits are neither white space nor separators.
proof fn lemma_number_is_plain(n: nat, base: nat, upper: bool)
    requires
        2 <= base <= 16,
    ensures
        radix_text(n, base, upper).len() > 0,
        forall|i: int|
            0 <= i < radix_text(n, base, upper).len() ==> !white_space(
                #[trigger] radix_text(n, base, upper)[i],
            ) && radix_text(n, base, upper)[i] != ':',
{
    lemma_radix_text_digits(n, base, upper);
}

/// A restart at the text of a position goes to that position: what `when`
/// replies can be handed back to `vRun`.
pub proof fn law_restart_at_a_position(pos: TtdPosition, t: Checkpoints, first: TtdPosition)
    ensures
        restart_goal(position_text(pos), t, first) == Some(pos),
        restart_goal(restart_text(Some(encode_utf8(position_text(pos)))), t, first) == Some(pos),
{
    let s = position_text(pos);
    let a = hex_upper(pos.sequence as nat);
    let b = hex_upper(pos.steps as nat);
    lemma_number_is_plain(pos.sequence as nat, 16, true);
    lemma_number_is_plain(pos.steps as nat, 16, true);
    assert(s[0] == a[0]);
    assert(s.last() == b.last());
    lemma_trimmed_is(s);
    lemma_first_index_is(s, ':', a.len() as int);
    assert(s.take(a.len() as int) =~= a);
    assert(s.skip(a.len() as int + 1) =~= b);
    lemma_rendered_number_parses(pos.sequence, 16, true);
    lemma_rendered_number_parses(pos.steps, 16, true);
    lemma_text_survives_lossy(s);
}

/// A restart at `c<id>` or `C<id>` goes to the position saved under that id,
/// and nowhere if there is none.
pub proof fn law_restart_at_a_checkpoint(id: u64, mark: char, t: Checkpoints, first: TtdPosition)
    requires
        mark == 'c' || mark == 'C',
    ensures
        restart_goal(seq![mark] + decimal(id as nat), t, first) == t.position_of(id),
        restart_goal(restart_text(Some(encode_utf8(seq![mark] + decimal(id as nat)))), t, first)
            == t.position_of(id),
{
    let s = seq![mark] + decimal(id as nat);
    let d = decimal(id as nat);
    lemma_number_is_plain(id as nat, 10, false);
    assert(s.last() == d.last());
    assert forall|i: int| 0 <= i < s.len() implies s[i] != ':' by {
        if i > 0 {
            assert(s[i] == d[i - 1]);
        }
    }
    lemma_trimmed_is(s);
    lemma_first_index_is(s, ':', s.len() as int);
    assert(s.skip(1) =~= d);
    lemma_rendered_number_parses(id, 10, false);
    lemma_text_survives_lossy(s);
}

/// A restart without an argument goes to the start of the trace.
pub proof fn law_restart_at_the_start(t: Checkpoints, first: TtdPosition)
    ensures
        restart_goal(restart_text(None), t, first) == Some(first),
{
}

/// A checkpoint saved by `qRRCmd` is where a restart at its id goes, whatever
/// else was saved before.
pub proof fn law_saved_checkpoint_is_restart_target(
    pos: TtdPosition,
    t: Checkpoints,
    args: Seq<Seq<char>>,
    first: TtdPosition,
)
    requires
        t.valid(),
        t.next_id < u64::MAX,
        args.len() > 0,
        args[0] == "checkpoint"@,
    ensures
        restart_goal(seq!['c'] + decimal(t.next_id), rr_checkpoints(pos, t, args), first) == Some(
            pos,
        ),
{
    reveal_strlit("checkpoint");
    reveal_strlit("when");
    assert("checkpoint"@.len() != "when"@.len());
    law_restart_at_a_checkpoint(t.next_id as u64, 'c', rr_checkpoints(pos, t, args), first);
}

/// Commands other than `checkpoint` and `delete checkpoint` leave the
/// checkpoints alone.
pub proof fn law_queries_keep_checkpoints(pos: TtdPosition, t: Checkpoints, args: Seq<Seq<char>>)
    requires
        args.len() == 0 || (args[0] != "checkpoint"@ && args[0] != "delete checkpoint"@),
    ensures
        rr_checkpoints(pos, t, args) == t,
{
}

} // verus!
