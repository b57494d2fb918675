//! A client of the remote serial protocol: the requests that it sends, the
//! replies that it reads, and the handshake of Delve.
//!
//! The client works on two buffers. Whoever owns the connection sends what is
//! in one of them and puts what arrives into the other.

use vstd::prelude::*;
use vstd::utf8::{decode_utf8, encode_utf8, valid_utf8};

use crate::gdb::checkpoint::position_text;
use crate::gdb::commands::rr_reply;
use crate::gdb::packet::{
    encode_hex, hex_argument, hex_arguments, hex_encoded, law_hex_round_trip,
    law_qrrcmd_new_style, law_qrrcmd_old_style,
};
use crate::gdb::target::inspect::packet_text;
use crate::gdb::target::unknown::{after, unknown_reply};
use crate::gdb::target::GdbState;
use crate::rsp::{
    digit_pair, frame, framed, from_hex, is_hex_text, monitor_chunk, pair_bytes, receive, received,
    MonitorChunk,
};
use crate::target::DebugTarget;
use crate::text::digits::digit_char;
use crate::text::parse::{digits_value, parsed, unsigned_part};
use crate::text::utf8::{lemma_text_survives_lossy, text_strict};
use crate::text::{chars_of, has_prefix, range_of, same_text, starts_with, text_is};

verus! {

/// The hex spelling of a text.
pub open spec fn hex_text(text: Seq<char>) -> Seq<char> {
    hex_encoded(encode_utf8(text))
}

/// The packet of a request.
pub open spec fn packet(request: Seq<char>) -> Seq<u8> {
    framed(encode_utf8(request))
}

/// A client.
pub struct RspClient {
    /// What arrived and was not read yet.
    pub incoming: Vec<u8>,
    /// What is to be sent.
    pub outgoing: Vec<u8>,
}

impl RspClient {
    /// A client of a new connection.
    pub fn new() -> (r: RspClient)
        ensures
            r.incoming@.len() == 0,
            r.outgoing@.len() == 0,
    {
        RspClient { incoming: Vec::new(), outgoing: Vec::new() }
    }

    /// Bytes have arrived.
    pub fn feed(&mut self, bytes: &[u8])
        ensures
            final(self).incoming@ == old(self).incoming@ + bytes@,
            final(self).outgoing@ == old(self).outgoing@,
    {
        for i in 0..bytes.len()
            invariant
                self.incoming@ == old(self).incoming@ + bytes@.take(i as int),
                self.outgoing@ == old(self).outgoing@,
        {
            self.incoming.push(bytes[i]);
            assert(self.incoming@ =~= old(self).incoming@ + bytes@.take(i as int + 1));
        }
        assert(bytes@.take(bytes@.len() as int) =~= bytes@);
    }

    /// Send a packet.
    pub fn send(&mut self, payload: &str)
        ensures
            final(self).outgoing@ == old(self).outgoing@ + packet(payload@),
            final(self).incoming@ == old(self).incoming@,
    {
        let mut bytes = frame(payload.as_bytes());
        self.outgoing.append(&mut bytes);
    }

    /// Send an acknowledgement.
    pub fn ack(&mut self)
        ensures
            final(self).outgoing@ == old(self).outgoing@.push(0x2b),
            final(self).incoming@ == old(self).incoming@,
    {
        self.outgoing.push(0x2b);
    }

    /// Read a packet, if a whole one has arrived.
    pub fn recv(&mut self) -> (r: Option<Vec<u8>>)
        ensures
            final(self).outgoing@ == old(self).outgoing@,
            (match received(old(self).incoming@) {
                Some((body, n)) => r is Some && r->0@ == body && final(self).incoming@ == old(
                    self,
                ).incoming@.skip(n as int),
                None => r is None && final(self).incoming@ == old(self).incoming@,
            }),
    {
        match receive(self.incoming.as_slice()) {
            Some((body, n)) => {
                let rest = self.incoming.split_off(n);
                self.incoming = rest;
                Some(body)
            },
            None => None,
        }
    }

    /// Send a command of `qRRCmd`.
    pub fn qrrcmd(&mut self, body: &str)
        ensures
            final(self).outgoing@ == old(self).outgoing@ + packet("qRRCmd:"@ + body@),
            final(self).incoming@ == old(self).incoming@,
    {
        let mut request = String::from_str("qRRCmd:");
        request.append(body);
        self.send(request.as_str());
    }

    /// Send a command of `qRRCmd` in its old style, which is hex throughout.
    pub fn qrrcmd_hex(&mut self, cmd: &str)
        ensures
            final(self).outgoing@ == old(self).outgoing@ + packet("qRRCmd:"@ + hex_text(cmd@)),
            final(self).incoming@ == old(self).incoming@,
    {
        let encoded = encode_hex(cmd.as_bytes());
        self.qrrcmd(encoded.as_str());
    }

    /// Ask for the current trace position.
    pub fn when(&mut self)
        ensures
            final(self).outgoing@ == old(self).outgoing@ + packet("qRRCmd:"@ + "when:-1"@),
            final(self).incoming@ == old(self).incoming@,
    {
        self.qrrcmd("when:-1");
    }

    /// Ask for a restart at what `arg` names.
    pub fn vrun(&mut self, arg: &str)
        ensures
            final(self).outgoing@ == old(self).outgoing@ + packet("vRun;;"@ + hex_text(arg@)),
            final(self).incoming@ == old(self).incoming@,
    {
        let encoded = encode_hex(arg.as_bytes());
        let mut request = String::from_str("vRun;;");
        request.append(encoded.as_str());
        self.send(request.as_str());
    }

    /// Send a monitor command.
    pub fn monitor(&mut self, cmd: &str)
        ensures
            final(self).outgoing@ == old(self).outgoing@.push(0x2b) + packet(
                "qRcmd,"@ + hex_text(cmd@),
            ),
            final(self).incoming@ == old(self).incoming@,
    {
        let encoded = encode_hex(cmd.as_bytes());
        let mut request = String::from_str("qRcmd,");
        request.append(encoded.as_str());
        self.ack();
        self.send(request.as_str());
    }
}

/// The text of the reply to a `qRRCmd` command, if it is text.
pub fn command_text(reply: &str) -> (r: Option<String>)
    requires
        is_hex_text(reply@),
    ensures
        r is Some <==> valid_utf8(pair_bytes(reply@)),
        r matches Some(text) ==> text@ == decode_utf8(pair_bytes(reply@)),
{
    let bytes = from_hex(reply);
    text_strict(bytes.as_slice())
}

/// A reply that was encoded in hex is read as it was, digit pair by digit pair.
pub proof fn law_hex_reply_is_read(bytes: Seq<u8>)
    ensures
        is_hex_text(hex_encoded(bytes)),
        pair_bytes(hex_encoded(bytes)) == bytes,
{
    let text = hex_encoded(bytes);
    assert forall|i: int| 0 <= i < text.len() / 2 implies parsed(
        #[trigger] digit_pair(text, i),
        16,
    ) == Some(bytes[i] as u64) by {
        let pair = digit_pair(text, i);
        assert(pair[0] == digit_char((bytes[i] / 16) as nat, false));
        assert(pair[1] == digit_char((bytes[i] % 16) as nat, false));
        assert(unsigned_part(pair) == pair);
        reveal_with_fuel(digits_value, 3);
        assert(pair.drop_last()[0] == pair[0]);
        assert(pair.drop_last().drop_last().len() == 0);
    }
    assert(pair_bytes(text) =~= bytes);
}

/// A client that asks for the position while nothing is running reads the
/// position that the target stands at.
pub proof fn law_when_reads_the_position<T: DebugTarget>(s: GdbState<T>)
    requires
        !s.runner.running(),
    ensures
        pair_bytes(unknown_reply(s, "qRRCmd:"@ + "when:-1"@)) == encode_utf8(
            position_text(s.backend().now()),
        ),
{
    let request = "qRRCmd:"@ + "when:-1"@;
    reveal_strlit("qRRCmd:");
    reveal_strlit("qRRCmd");
    reveal_strlit("when:-1");
    reveal_strlit("when");
    assert(request.take("qRRCmd"@.len() as int) =~= "qRRCmd"@);
    let args = seq![':'] + "when"@ + seq![':', '-', '1'] + hex_arguments(Seq::empty());
    assert(after(request, "qRRCmd"@) =~= args);
    law_qrrcmd_new_style("when"@, Seq::empty());
    assert(seq!["when"@] + Seq::<Seq<char>>::empty() =~= seq!["when"@]);
    law_hex_reply_is_read(encode_utf8(position_text(s.backend().now())));
}

/// A command that is sent in the old style is the one that is carried out.
pub proof fn law_old_style_command_is_carried_out<T: DebugTarget>(s: GdbState<T>, cmd: Seq<char>)
    requires
        !s.runner.running(),
        cmd.len() > 0,
    ensures
        pair_bytes(unknown_reply(s, "qRRCmd:"@ + hex_text(cmd))) == encode_utf8(
            rr_reply(s.backend().now(), s.checkpoints, seq![cmd]),
        ),
{
    let request = "qRRCmd:"@ + hex_text(cmd);
    reveal_strlit("qRRCmd:");
    reveal_strlit("qRRCmd");
    assert(request.take("qRRCmd"@.len() as int) =~= "qRRCmd"@);
    let all = seq![cmd] + Seq::<Seq<char>>::empty();
    assert(all =~= seq![cmd]);
    assert(all.drop_last() =~= Seq::<Seq<char>>::empty());
    reveal_with_fuel(hex_arguments, 2);
    assert(after(request, "qRRCmd"@) =~= hex_arguments(all));
    law_qrrcmd_old_style(cmd, Seq::empty());
    law_hex_reply_is_read(
        encode_utf8(rr_reply(s.backend().now(), s.checkpoints, seq![cmd])),
    );
}

/// What the console shows after a packet of the reply to a monitor command, and
/// whether more packets follow. `OK` ends the reply, `O` brings output in hex,
/// and anything else is the reply itself.
pub open spec fn console_step(shown: Seq<char>, text: Seq<char>) -> (Seq<char>, bool) {
    if text == "OK"@ {
        (shown, false)
    } else if text.len() > 0 && text[0] == 'O' {
        (
            shown + (match hex_argument(text.skip(1)) {
                Some(output) => output,
                None => text.skip(1),
            }),
            true,
        )
    } else {
        (shown + text, false)
    }
}

/// Show a packet of the reply to a monitor command. Returns whether more
/// packets follow.
pub fn show_monitor_packet(shown: &mut String, body: &[u8]) -> (r: bool)
    ensures
        (final(shown)@, r) == console_step(old(shown)@, packet_text(body@)),
{
    match monitor_chunk(body) {
        MonitorChunk::Done => false,
        MonitorChunk::More(text) => {
            shown.append(text.as_str());
            true
        },
        MonitorChunk::Last(text) => {
            shown.append(text.as_str());
            false
        },
    }
}

/// What the console shows after some packets, and whether more follow.
pub open spec fn console(shown: Seq<char>, packets: Seq<Seq<char>>) -> (Seq<char>, bool)
    decreases packets.len(),
{
    if packets.len() == 0 {
        (shown, true)
    } else {
        let (now, more) = console_step(shown, packets[0]);
        if more {
            console(now, packets.skip(1))
        } else {
            (now, false)
        }
    }
}

/// The packet that brings console output.
pub open spec fn output_packet(output: Seq<char>) -> Seq<char> {
    seq!['O'] + hex_text(output)
}

/// A monitor reply that comes in parts is shown as one text, whatever the
/// parts.
pub proof fn law_monitor_output_is_joined(shown: Seq<char>, parts: Seq<Seq<char>>)
    ensures
        console(shown, parts.map_values(|p: Seq<char>| output_packet(p)).push("OK"@)) == (
            shown + parts.flatten(),
            false,
        ),
    decreases parts.len(),
{
    let packets = parts.map_values(|p: Seq<char>| output_packet(p)).push("OK"@);
    if parts.len() == 0 {
        assert(packets[0] == "OK"@);
        assert(shown + parts.flatten() =~= shown);
    } else {
        let first = parts[0];
        lemma_output_is_shown(shown, first);
        let rest = parts.skip(1);
        assert(packets.skip(1) =~= rest.map_values(|p: Seq<char>| output_packet(p)).push("OK"@));
        assert(packets[0] == output_packet(first));
        law_monitor_output_is_joined(shown + first, rest);
        assert(parts.drop_first() =~= rest);
        assert(shown + first + rest.flatten() =~= shown + parts.flatten());
    }
}

proof fn lemma_output_is_shown(shown: Seq<char>, output: Seq<char>)
    ensures
        console_step(shown, output_packet(output)) == (shown + output, true),
{
    let text = output_packet(output);
    law_hex_round_trip(encode_utf8(output));
    lemma_text_survives_lossy(output);
    assert(text.skip(1) =~= hex_text(output));
    reveal_strlit("OK");
    if text == "OK"@ {
        assert(text[1] == 'K');
        assert(hex_text(output)[0] == 'K');
    }
}

/// How many requests the handshake of Delve makes.
pub const HANDSHAKE_REQUESTS: usize = 9;

/// A request of the handshake.
pub open spec fn handshake_request_text(step: int) -> Seq<char> {
    if step == 0 {
        "QStartNoAckMode"@
    } else if step == 1 {
        "QThreadSuffixSupported"@
    } else if step == 2 {
        "qSupported:multiprocess+;swbreak+;hwbreak+;no-resumed+;xmlRegisters=i386"@
    } else if step == 3 {
        "qRegisterInfo0"@
    } else if step == 4 {
        "qXfer:features:read:target.xml:0,fff"@
    } else if step == 5 {
        "qXfer:features:read:64bit-core.xml:0,fff"@
    } else if step == 6 {
        "qXfer:features:read:64bit-seg.xml:0,fff"@
    } else if step == 7 {
        "QListThreadsInStopReply"@
    } else {
        "x0,0"@
    }
}

/// A request of the handshake.
pub fn handshake_request(step: usize) -> (r: &'static str)
    requires
        step < HANDSHAKE_REQUESTS,
    ensures
        r@ == handshake_request_text(step as int),
{
    match step {
        0 => "QStartNoAckMode",
        1 => "QThreadSuffixSupported",
        2 => "qSupported:multiprocess+;swbreak+;hwbreak+;no-resumed+;xmlRegisters=i386",
        3 => "qRegisterInfo0",
        4 => "qXfer:features:read:target.xml:0,fff",
        5 => "qXfer:features:read:64bit-core.xml:0,fff",
        6 => "qXfer:features:read:64bit-seg.xml:0,fff",
        7 => "QListThreadsInStopReply",
        _ => "x0,0",
    }
}

/// `part` occurs in `s`.
pub open spec fn mentions(s: Seq<char>, part: Seq<char>) -> bool {
    exists|i: int| 0 <= i <= s.len() - part.len() && #[trigger] s.subrange(i, i + part.len()) == part
}

fn has_part(s: &[char], part: &str) -> (r: bool)
    ensures
        r == mentions(s@, part@),
{
    let size = chars_of(part).len();
    if s.len() < size {
        return false;
    }
    let last: usize = s.len() - size;
    let mut i: usize = 0;
    loop
        invariant
            size == part@.len(),
            last == s@.len() - size,
            last + size <= usize::MAX,
            i <= last,
            forall|k: int| 0 <= k < i ==> #[trigger] s@.subrange(k, k + size) != part@,
        decreases last - i,
    {
        if same_text(range_of(s, i, i + size).as_slice(), part) {
            assert(s@.subrange(i as int, i + size) == part@);
            return true;
        }
        if i == last {
            return false;
        }
        i = i + 1;
    }
}

/// A reply is a piece of a document: its first letter says whether it is the
/// last piece.
pub open spec fn is_document(reply: Seq<char>) -> bool {
    starts_with(reply, "l"@) || starts_with(reply, "m"@)
}

/// Delve goes on with this reply to a request of the handshake. The features
/// that it asks for have to be described; `qRegisterInfo` may be unsupported.
pub open spec fn handshake_accepts(step: int, reply: Seq<char>) -> bool {
    if step == 0 {
        reply == "OK"@
    } else if step == 2 {
        mentions(reply, "PacketSize="@)
    } else if step == 4 {
        &&& is_document(reply)
        &&& mentions(reply, "64bit-core.xml"@)
        &&& mentions(reply, "64bit-sse.xml"@)
        &&& mentions(reply, "64bit-seg.xml"@)
    } else if step == 5 {
        &&& is_document(reply)
        &&& mentions(reply, "rip"@)
        &&& mentions(reply, "rsp"@)
        &&& mentions(reply, "rbp"@)
        &&& mentions(reply, "rcx"@)
    } else if step == 6 {
        &&& is_document(reply)
        &&& mentions(reply, "gs_base"@)
        &&& mentions(reply, "fs_base"@)
    } else {
        reply.len() == 0
    }
}

fn accepts(step: usize, reply: &str) -> (r: bool)
    ensures
        r == handshake_accepts(step as int, reply@),
{
    let chars = chars_of(reply);
    let s = chars.as_slice();
    let document = has_prefix(s, "l") || has_prefix(s, "m");
    match step {
        0 => text_is(reply, "OK"),
        2 => has_part(s, "PacketSize="),
        4 => document && has_part(s, "64bit-core.xml") && has_part(s, "64bit-sse.xml")
            && has_part(s, "64bit-seg.xml"),
        5 => document && has_part(s, "rip") && has_part(s, "rsp") && has_part(s, "rbp")
            && has_part(s, "rcx"),
        6 => document && has_part(s, "gs_base") && has_part(s, "fs_base"),
        _ => s.len() == 0,
    }
}

/// How a handshake goes on.
#[derive(Clone, Copy, Debug, PartialEq, Eq, Structural)]
pub enum HandshakeProgress {
    /// The next request was sent.
    Asked,
    /// Every reply was accepted.
    Done,
    /// A reply was not accepted.
    Refused,
}

/// The handshake of Delve.
pub struct Handshake {
    step: usize,
}

impl Handshake {
    /// The request whose reply is awaited.
    pub closed spec fn awaited(&self) -> int {
        self.step as int
    }

    /// There is such a request.
    pub closed spec fn wf(&self) -> bool {
        self.step < HANDSHAKE_REQUESTS
    }

    /// Begin the handshake with an acknowledgement and the first request.
    pub fn start(client: &mut RspClient) -> (r: Handshake)
        ensures
            r.wf(),
            r.awaited() == 0,
            final(client).outgoing@ == old(client).outgoing@.push(0x2b) + packet(
                handshake_request_text(0),
            ),
            final(client).incoming@ == old(client).incoming@,
    {
        client.ack();
        client.send(handshake_request(0));
        Handshake { step: 0 }
    }

    /// The reply to the awaited request has come.
    pub fn on_reply(&mut self, reply: &str, client: &mut RspClient) -> (r: HandshakeProgress)
        requires
            old(self).wf(),
        ensures
            final(self).wf(),
            0 <= old(self).awaited() < HANDSHAKE_REQUESTS,
            final(client).incoming@ == old(client).incoming@,
            r == (if !handshake_accepts(old(self).awaited(), reply@) {
                HandshakeProgress::Refused
            } else if old(self).awaited() + 1 == HANDSHAKE_REQUESTS {
                HandshakeProgress::Done
            } else {
                HandshakeProgress::Asked
            }),
            r != HandshakeProgress::Asked ==> *final(self) == *old(self)
                && final(client).outgoing@ == old(client).outgoing@,
            r == HandshakeProgress::Asked ==> final(self).awaited() == old(self).awaited() + 1
                && final(client).outgoing@ == old(client).outgoing@ + packet(
                handshake_request_text(final(self).awaited()),
            ),
    {
        if !accepts(self.step, reply) {
            return HandshakeProgress::Refused;
        }
        if self.step + 1 == HANDSHAKE_REQUESTS {
            return HandshakeProgress::Done;
        }
        self.step = self.step + 1;
        client.send(handshake_request(self.step));
        HandshakeProgress::Asked
    }
}

/// The requests of the handshake that a session answers itself are answered the
/// way that Delve accepts, whether or not a replay is running.
pub proof fn law_sessions_pass_the_handshake<T: DebugTarget>(s: GdbState<T>, step: int)
    requires
        step == 1 || step == 7,
    ensures
        handshake_accepts(step, unknown_reply(s, handshake_request_text(step))),
{
    reveal_strlit("qRRCmd");
    reveal_strlit("QThreadSuffixSupported");
    reveal_strlit("QListThreadsInStopReply");
    let request = handshake_request_text(step);
    assert(request[0] == 'Q');
    if starts_with(request, "qRRCmd"@) {
        assert(request.take(6)[0] == 'q');
    }
}

} // verus!
