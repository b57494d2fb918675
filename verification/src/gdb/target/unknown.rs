//! The packets that the stub answers itself.
//!
//! `qRRCmd`, `qGetTLSAddr`, `QPassSignals`, `QProgramSignals`, `vCtrlC`, and the
//! queries that every client probes and that are not supported.

use vstd::prelude::*;
use vstd::utf8::encode_utf8;

use super::inspect::{packet_text, text_of_packet};
use super::{GdbState, GdbTarget};
use crate::gdb::commands::{handle_qrrcmd, rr_checkpoints, rr_reply, saves_checkpoint};
use crate::gdb::packet::{
    encode_hex, hex_decoded, hex_encoded, law_hex_round_trip, parse_qrrcmd_args,
    parse_tid_from_qpacket, qpacket_tid, qrrcmd_args,
};
use crate::target::DebugTarget;
use crate::text::digits::{hex, push_hex};
use crate::text::split::{pieces, split_on};
use crate::text::{
    char_texts, chars_of, has_prefix, starts_with, string_of, tail_of, text_is, texts,
};

verus! {

/// The part of a text behind a prefix.
pub open spec fn after(s: Seq<char>, prefix: Seq<char>) -> Seq<char> {
    s.skip(prefix.len() as int)
}

/// The reply to `qGetTLSAddr`: the TEB address of the thread. Offset and link
/// map have no meaning on Windows and are ignored. While a replay is running,
/// and for a thread without a TEB, it is an error.
pub open spec fn tls_reply<T: DebugTarget>(s: GdbState<T>, args: Seq<char>) -> Seq<char> {
    let tid = qpacket_tid(pieces(args, ',')[0]);
    let info = s.backend().thread_of(tid->0);
    if !s.runner.running() && tid is Some && info is Some && info->0.teb != 0 {
        hex(info->0.teb as nat)
    } else {
        "E01"@
    }
}

/// The reply to a packet; an empty reply means that it is not supported.
pub open spec fn unknown_reply<T: DebugTarget>(s: GdbState<T>, text: Seq<char>) -> Seq<char> {
    if starts_with(text, "qRRCmd"@) {
        if s.runner.running() {
            Seq::empty()
        } else {
            hex_encoded(
                encode_utf8(
                    rr_reply(
                        s.backend().now(),
                        s.checkpoints,
                        qrrcmd_args(after(text, "qRRCmd"@)),
                    ),
                ),
            )
        }
    } else if text == "QThreadSuffixSupported"@ || text == "QListThreadsInStopReply"@ {
        Seq::empty()
    } else if starts_with(text, "QPassSignals"@) || starts_with(text, "QProgramSignals"@) {
        "OK"@
    } else if text == "vCtrlC"@ {
        "OK"@
    } else if starts_with(text, "qGetTLSAddr:"@) {
        tls_reply(s, after(text, "qGetTLSAddr:"@))
    } else {
        Seq::empty()
    }
}

/// The state after a packet: `qRRCmd` works on the checkpoints, and `vCtrlC`
/// asks for an interrupt.
pub open spec fn unknown_state<T: DebugTarget>(s: GdbState<T>, text: Seq<char>) -> GdbState<T> {
    if starts_with(text, "qRRCmd"@) {
        if s.runner.running() {
            s
        } else {
            GdbState {
                checkpoints: rr_checkpoints(
                    s.backend().now(),
                    s.checkpoints,
                    qrrcmd_args(after(text, "qRRCmd"@)),
                ),
                ..s
            }
        }
    } else if text == "vCtrlC"@ {
        s.with_runner(s.runner.interrupt_asked())
    } else {
        s
    }
}

/// A packet saves a checkpoint, unless a replay is running.
pub open spec fn asks_for_checkpoint(text: Seq<char>) -> bool {
    starts_with(text, "qRRCmd"@) && saves_checkpoint(qrrcmd_args(after(text, "qRRCmd"@)))
}

/// Whether a packet saves a checkpoint, unless a replay is running.
pub fn is_checkpoint_packet(body: &[u8]) -> (r: bool)
    ensures
        r == asks_for_checkpoint(packet_text(body@)),
{
    let text = text_of_packet(body);
    let chars = chars_of(text.as_str());
    proof {
        reveal_strlit("qRRCmd");
    }
    if !has_prefix(chars.as_slice(), "qRRCmd") {
        return false;
    }
    let args = string_of(tail_of(chars.as_slice(), 6).as_slice());
    let parts = parse_qrrcmd_args(args.as_str());
    if parts.len() == 0 {
        return false;
    }
    assert(texts(parts@)[0] == parts@[0]@);
    text_is(parts[0].as_str(), "checkpoint")
}

/// The answer to a packet.
pub struct Answer {
    /// What to send; nothing if the packet is not supported.
    pub reply: String,
    /// Whether to fire the backend's interrupt handle.
    pub interrupt: bool,
}

impl<T: DebugTarget> GdbTarget<T> {
    /// Answer `qRRCmd` with the hex-encoded reply; with nothing while a replay
    /// is running.
    fn answer_qrrcmd(&mut self, args: &str) -> (r: String)
        requires
            old(self).wf(),
            saves_checkpoint(qrrcmd_args(args@)) && !old(self)@.runner.running()
                ==> old(self)@.checkpoints.next_id < u64::MAX,
        ensures
            final(self).wf(),
            r@ == (if old(self)@.runner.running() {
                Seq::empty()
            } else {
                hex_encoded(
                    encode_utf8(
                        rr_reply(
                            old(self)@.backend().now(),
                            old(self)@.checkpoints,
                            qrrcmd_args(args@),
                        ),
                    ),
                )
            }),
            final(self)@ == (if old(self)@.runner.running() {
                old(self)@
            } else {
                GdbState {
                    checkpoints: rr_checkpoints(
                        old(self)@.backend().now(),
                        old(self)@.checkpoints,
                        qrrcmd_args(args@),
                    ),
                    ..old(self)@
                }
            }),
    {
        match self.runner.peek() {
            Some(backend) => {
                let reply = handle_qrrcmd(backend, &mut self.checkpoints, args);
                encode_hex(reply.as_str().as_bytes())
            },
            None => {
                let none = String::new();
                assert(none@ =~= Seq::<char>::empty());
                none
            },
        }
    }

    /// Answer `qGetTLSAddr`.
    fn answer_qget_tls_addr(&self, args: &[char]) -> (r: String)
        ensures
            r@ == tls_reply(self@, args@),
    {
        let parts = split_on(args, ',');
        let mut reply = String::new();
        proof {
            lemma_pieces_not_empty(args@, ',');
        }
        assert(char_texts(parts@)[0] == parts@[0]@);
        let first = string_of(parts[0].as_slice());
        if let Some(backend) = self.runner.peek() {
            if let Some(tid) = parse_tid_from_qpacket(first.as_str()) {
                if let Some(info) = backend.thread_info(tid) {
                    if info.teb != 0 {
                        push_hex(&mut reply, info.teb);
                        assert(reply@ =~= hex(info.teb as nat));
                        return reply;
                    }
                }
            }
        }
        reply.append("E01");
        assert(reply@ =~= "E01"@);
        reply
    }

    /// Answer a packet that the protocol engine does not know.
    pub fn handle_unknown_packet(&mut self, body: &[u8]) -> (r: Answer)
        requires
            old(self).wf(),
            asks_for_checkpoint(packet_text(body@)) && !old(self)@.runner.running()
                ==> old(self)@.checkpoints.next_id < u64::MAX,
        ensures
            final(self).wf(),
            r.reply@ == unknown_reply(old(self)@, packet_text(body@)),
            final(self)@ == unknown_state(old(self)@, packet_text(body@)),
            r.interrupt == (packet_text(body@) == "vCtrlC"@ && old(self)@.runner.running()
                && old(self)@.runner.has_handle),
    {
        let text = text_of_packet(body);
        let chars = chars_of(text.as_str());
        let s = text.as_str();
        let nothing = String::new();
        assert(nothing@ =~= Seq::<char>::empty());
        proof {
            reveal_strlit("qRRCmd");
            reveal_strlit("QThreadSuffixSupported");
            reveal_strlit("QListThreadsInStopReply");
            reveal_strlit("QPassSignals");
            reveal_strlit("QProgramSignals");
            reveal_strlit("vCtrlC");
            reveal_strlit("qGetTLSAddr:");
            lemma_first_characters(s@);
        }
        if has_prefix(chars.as_slice(), "qRRCmd") {
            let args = string_of(tail_of(chars.as_slice(), 6).as_slice());
            return Answer { reply: self.answer_qrrcmd(args.as_str()), interrupt: false };
        }
        if text_is(s, "QThreadSuffixSupported") || text_is(s, "QListThreadsInStopReply") {
            return Answer { reply: nothing, interrupt: false };
        }
        if has_prefix(chars.as_slice(), "QPassSignals") || has_prefix(
            chars.as_slice(),
            "QProgramSignals",
        ) {
            return Answer { reply: String::from_str("OK"), interrupt: false };
        }
        if text_is(s, "vCtrlC") {
            let interrupt = self.interrupt_replay();
            return Answer { reply: String::from_str("OK"), interrupt };
        }
        if has_prefix(chars.as_slice(), "qGetTLSAddr:") {
            let args = tail_of(chars.as_slice(), 12);
            return Answer {
                reply: self.answer_qget_tls_addr(args.as_slice()),
                interrupt: false,
            };
        }
        Answer { reply: nothing, interrupt: false }
    }
}

/// The client reads the reply to a command by undoing the hex encoding.
pub proof fn law_command_replies_decode<T: DebugTarget>(s: GdbState<T>, args: Seq<char>)
    requires
        !s.runner.running(),
    ensures
        hex_decoded(encode_utf8(unknown_reply(s, "qRRCmd"@ + args))) == Some(
            encode_utf8(rr_reply(s.backend().now(), s.checkpoints, qrrcmd_args(args))),
        ),
{
    let text = "qRRCmd"@ + args;
    assert(text.take("qRRCmd"@.len() as int) =~= "qRRCmd"@);
    assert(after(text, "qRRCmd"@) =~= args);
    law_hex_round_trip(
        encode_utf8(rr_reply(s.backend().now(), s.checkpoints, qrrcmd_args(args))),
    );
}

/// A packet changes nothing but the checkpoints and a pending interrupt, and
/// the checkpoints only while no replay is running.
pub proof fn law_packets_keep_the_rest<T: DebugTarget>(s: GdbState<T>, text: Seq<char>)
    ensures
        unknown_state(s, text).runner.backend == s.runner.backend,
        unknown_state(s, text).runner.result == s.runner.result,
        unknown_state(s, text).exe_path == s.exe_path,
        unknown_state(s, text).pending == s.pending,
        s.runner.running() ==> unknown_state(s, text).checkpoints == s.checkpoints,
        !s.runner.running() ==> unknown_state(s, text).runner == s.runner,
{
}

/// `vCtrlC` starts like none of the other packets.
proof fn lemma_first_characters(s: Seq<char>)
    ensures
        s == "vCtrlC"@ ==> !starts_with(s, "qRRCmd"@) && s != "QThreadSuffixSupported"@ && s
            != "QListThreadsInStopReply"@ && !starts_with(s, "QPassSignals"@) && !starts_with(
            s,
            "QProgramSignals"@,
        ),
{
    reveal_strlit("qRRCmd");
    reveal_strlit("QThreadSuffixSupported");
    reveal_strlit("QListThreadsInStopReply");
    reveal_strlit("QPassSignals");
    reveal_strlit("QProgramSignals");
    reveal_strlit("vCtrlC");
    if s == "vCtrlC"@ {
        assert(s[0] == 'v');
        if starts_with(s, "qRRCmd"@) {
            assert(s.take(6)[0] == 'q');
        }
        if starts_with(s, "QPassSignals"@) {
            assert(s.take(12)[0] == 'Q');
        }
        if starts_with(s, "QProgramSignals"@) {
            assert(s.take(15)[0] == 'Q');
        }
    }
}

proof fn lemma_pieces_not_empty(s: Seq<char>, sep: char)
    ensures
        pieces(s, sep).len() > 0,
{
}

} // verus!
