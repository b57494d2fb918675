//! The wire format of the remote serial protocol, from the client's side.

use vstd::prelude::*;
use vstd::utf8::{encode_utf8, is_ascii_chars};

use crate::gdb::packet::{
    decode_hex, encode_hex, hex_argument, hex_encoded, law_hex_round_trip,
};
use crate::gdb::target::inspect::{packet_text, text_of_packet};
use crate::text::parse::{digits_value, is_digit, parse_radix, parsed, unsigned_part};
use crate::text::utf8::{lemma_text_survives_lossy, text_lossy};
use crate::text::{chars_of, string_of, tail_of, text_is};

verus! {

/// `n` times the same byte.
pub open spec fn repeated(b: u8, n: nat) -> Seq<u8> {
    Seq::new(n, |i: int| b)
}

/// How often a run-length byte repeats the byte before it.
pub open spec fn run_length(b: u8) -> nat {
    ((b + 256 - 29) % 256) as nat
}

/// `out` followed by what the rest of a packet body stands for. `}` escapes the
/// next byte, and `*` repeats the last byte.
pub open spec fn unpacked(body: Seq<u8>, out: Seq<u8>) -> Seq<u8>
    decreases body.len(),
{
    if body.len() == 0 {
        out
    } else if body[0] == 0x7d && body.len() > 1 {
        unpacked(body.skip(2), out.push(body[1] ^ 0x20))
    } else if body[0] == 0x2a && body.len() > 1 && out.len() > 0 {
        unpacked(body.skip(2), out + repeated(out.last(), run_length(body[1])))
    } else {
        unpacked(body.skip(1), out.push(body[0]))
    }
}

/// Undo escapes and run-length encoding.
pub fn decode(body: &[u8]) -> (r: Vec<u8>)
    ensures
        r@ == unpacked(body@, Seq::empty()),
{
    let mut out: Vec<u8> = Vec::new();
    let mut i: usize = 0;
    assert(body@.skip(0) =~= body@);
    assert(out@ =~= Seq::<u8>::empty());
    while i < body.len()
        invariant
            i <= body@.len(),
            unpacked(body@.skip(i as int), out@) == unpacked(body@, Seq::empty()),
        decreases body@.len() - i,
    {
        let ghost rest = body@.skip(i as int);
        let c = body[i];
        if c == 0x7d && body.len() - i > 1 {
            out.push(body[i + 1] ^ 0x20);
            assert(rest.skip(2) =~= body@.skip(i as int + 2));
            i = i + 2;
        } else if c == 0x2a && body.len() - i > 1 && out.len() > 0 {
            let n: u8 = body[i + 1].wrapping_sub(29);
            let last = out[out.len() - 1];
            let ghost before = out@;
            assert(n == run_length(body@[i as int + 1]));
            for k in 0..n
                invariant
                    out@ == before + repeated(last, k as nat),
            {
                out.push(last);
                assert(out@ =~= before + repeated(last, k as nat + 1));
            }
            assert(rest.skip(2) =~= body@.skip(i as int + 2));
            i = i + 2;
        } else {
            out.push(c);
            assert(rest.skip(1) =~= body@.skip(i as int + 1));
            i = i + 1;
        }
    }
    out
}

/// Pair `i` of the digits of a hex text.
pub open spec fn digit_pair(s: Seq<char>, i: int) -> Seq<char> {
    seq![s[2 * i], s[2 * i + 1]]
}

/// A hex text whose digit pairs can all be read.
pub open spec fn is_hex_text(s: Seq<char>) -> bool {
    is_ascii_chars(s) && forall|i: int|
        0 <= i < s.len() / 2 ==> parsed(#[trigger] digit_pair(s, i), 16) is Some
}

/// The bytes that the digit pairs of a hex text spell; a single last digit is
/// left out.
pub open spec fn pair_bytes(s: Seq<char>) -> Seq<u8> {
    Seq::new(s.len() / 2, |i: int| parsed(digit_pair(s, i), 16)->0 as u8)
}

/// The bytes that the digit pairs of a hex text spell.
pub fn from_hex(s: &str) -> (r: Vec<u8>)
    requires
        is_hex_text(s@),
    ensures
        r@ == pair_bytes(s@),
{
    let chars = chars_of(s);
    let mut out: Vec<u8> = Vec::new();
    let count: usize = chars.len() / 2;
    for i in 0..count
        invariant
            chars@ == s@,
            count == s@.len() / 2,
            2 * count <= usize::MAX,
            is_hex_text(s@),
            out@ == pair_bytes(s@).take(i as int),
    {
        let mut pair: Vec<char> = Vec::new();
        pair.push(chars[2 * i]);
        pair.push(chars[2 * i + 1]);
        assert(pair@ =~= digit_pair(s@, i as int));
        proof {
            lemma_pair_fits(pair@);
        }
        let value = parse_radix(pair.as_slice(), 16);
        match value {
            Some(v) => out.push(v as u8),
            None => {},
        }
        assert(out@ =~= pair_bytes(s@).take(i as int + 1));
    }
    assert(pair_bytes(s@).take(count as int) =~= pair_bytes(s@));
    out
}

/// Two digits spell a byte.
proof fn lemma_pair_fits(pair: Seq<char>)
    requires
        pair.len() == 2,
        parsed(pair, 16) is Some,
    ensures
        parsed(pair, 16)->0 < 256,
{
    reveal_with_fuel(digits_value, 3);
    let t = unsigned_part(pair);
    assert(t.len() <= 2);
    assert(is_digit(t[0], 16));
    if t.len() == 2 {
        assert(is_digit(t[1], 16));
        assert(t.drop_last()[0] == t[0]);
        assert(t.drop_last().drop_last().len() == 0);
    } else {
        assert(t.drop_last().len() == 0);
    }
}

/// The checksum of a payload: the sum of its bytes.
pub open spec fn checksum(payload: Seq<u8>) -> nat
    decreases payload.len(),
{
    if payload.len() == 0 {
        0
    } else {
        (checksum(payload.drop_last()) + payload.last() as nat) % 256
    }
}

/// The two hex digits of a byte.
pub open spec fn two_digits(b: u8) -> Seq<u8> {
    hex_encoded(seq![b]).map_values(|c: char| c as u8)
}

/// A packet on the wire: `$`, the payload, `#` and the checksum.
pub open spec fn framed(payload: Seq<u8>) -> Seq<u8> {
    seq![0x24u8] + payload + seq![0x23u8] + two_digits(checksum(payload) as u8)
}

fn sum_of(payload: &[u8]) -> (r: u8)
    ensures
        r == checksum(payload@),
{
    let mut sum: u8 = 0;
    for i in 0..payload.len()
        invariant
            sum == checksum(payload@.take(i as int)),
    {
        assert(payload@.take(i as int + 1).drop_last() =~= payload@.take(i as int));
        sum = sum.wrapping_add(payload[i]);
    }
    assert(payload@.take(payload@.len() as int) =~= payload@);
    sum
}

fn push_two_digits(out: &mut Vec<u8>, b: u8)
    ensures
        final(out)@ == old(out)@ + two_digits(b),
{
    let mut one: Vec<u8> = Vec::new();
    one.push(b);
    let digits = chars_of(encode_hex(one.as_slice()).as_str());
    assert(one@ =~= seq![b]);
    let ghost all = two_digits(b);
    for i in 0..digits.len()
        invariant
            digits@ == hex_encoded(seq![b]),
            all == two_digits(b),
            out@ == old(out)@ + all.take(i as int),
    {
        out.push(digits[i] as u8);
        assert(out@ =~= old(out)@ + all.take(i as int + 1));
    }
    assert(all.take(digits@.len() as int) =~= all);
}

/// The packet that carries a payload.
pub fn frame(payload: &[u8]) -> (r: Vec<u8>)
    ensures
        r@ == framed(payload@),
{
    let mut out: Vec<u8> = Vec::new();
    out.push(0x24);
    for i in 0..payload.len()
        invariant
            out@ == seq![0x24u8] + payload@.take(i as int),
    {
        out.push(payload[i]);
        assert(out@ =~= seq![0x24u8] + payload@.take(i as int + 1));
    }
    assert(payload@.take(payload@.len() as int) =~= payload@);
    out.push(0x23);
    assert(out@ =~= seq![0x24u8] + payload@ + seq![0x23u8]);
    push_two_digits(&mut out, sum_of(payload));
    out
}

/// A payload without escapes and run lengths stands for itself.
pub proof fn law_plain_payload_is_kept(body: Seq<u8>, out: Seq<u8>)
    requires
        forall|i: int| 0 <= i < body.len() ==> #[trigger] body[i] != 0x7d && body[i] != 0x2a,
    ensures
        unpacked(body, out) == out + body,
    decreases body.len(),
{
    if body.len() == 0 {
        assert(out + body =~= out);
    } else {
        assert(body[0] != 0x7d && body[0] != 0x2a);
        assert forall|i: int| 0 <= i < body.skip(1).len() implies #[trigger] body.skip(1)[i] != 0x7d
            && body.skip(1)[i] != 0x2a by {
            assert(body[i + 1] != 0x7d);
        }
        law_plain_payload_is_kept(body.skip(1), out.push(body[0]));
        assert(out.push(body[0]) + body.skip(1) =~= out + body);
    }
}

/// The bytes that a payload has to escape: `#` and `$`, which frame a packet,
/// `}`, which escapes, and `*`, which repeats.
pub open spec fn is_special(b: u8) -> bool {
    b == 0x23 || b == 0x24 || b == 0x7d || b == 0x2a
}

/// A payload with its special bytes escaped.
pub open spec fn escaped_payload(payload: Seq<u8>) -> Seq<u8>
    decreases payload.len(),
{
    if payload.len() == 0 {
        Seq::empty()
    } else if is_special(payload[0]) {
        seq![0x7du8, payload[0] ^ 0x20] + escaped_payload(payload.skip(1))
    } else {
        seq![payload[0]] + escaped_payload(payload.skip(1))
    }
}

/// Decoding an escaped payload gives the payload.
pub proof fn law_escaped_payload_decodes(payload: Seq<u8>, out: Seq<u8>)
    ensures
        unpacked(escaped_payload(payload), out) == out + payload,
    decreases payload.len(),
{
    let body = escaped_payload(payload);
    if payload.len() == 0 {
        assert(out + payload =~= out);
    } else {
        let b = payload[0];
        let rest = payload.skip(1);
        assert((b ^ 0x20) ^ 0x20 == b) by (bit_vector);
        law_escaped_payload_decodes(rest, out.push(b));
        if is_special(b) {
            assert(body.skip(2) =~= escaped_payload(rest));
        } else {
            assert(body.skip(1) =~= escaped_payload(rest));
        }
        assert(out.push(b) + rest =~= out + payload);
    }
}

/// An escaped payload holds no `#`.
proof fn lemma_escaped_has_no_end(payload: Seq<u8>)
    ensures
        forall|i: int|
            0 <= i < escaped_payload(payload).len() ==> #[trigger] escaped_payload(payload)[i]
                != 0x23,
    decreases payload.len(),
{
    let body = escaped_payload(payload);
    if payload.len() > 0 {
        let b = payload[0];
        let rest = escaped_payload(payload.skip(1));
        lemma_escaped_has_no_end(payload.skip(1));
        assert(is_special(b) ==> b ^ 0x20 != 0x23) by {
            assert(0x23u8 ^ 0x20 == 0x03) by (bit_vector);
            assert(0x24u8 ^ 0x20 == 0x04) by (bit_vector);
            assert(0x7du8 ^ 0x20 == 0x5d) by (bit_vector);
            assert(0x2au8 ^ 0x20 == 0x0a) by (bit_vector);
        }
        assert forall|i: int| 0 <= i < body.len() implies #[trigger] body[i] != 0x23 by {
            let n: int = if is_special(b) {
                2
            } else {
                1
            };
            if i >= n {
                assert(body[i] == rest[i - n]);
            }
        }
    }
}

/// Any payload comes through: escaped and framed, it is received as it was.
pub proof fn law_any_payload_is_received(acks: Seq<u8>, payload: Seq<u8>, rest: Seq<u8>)
    requires
        forall|i: int| 0 <= i < acks.len() ==> #[trigger] acks[i] == 0x2b || acks[i] == 0x2d,
    ensures
        received(acks + framed(escaped_payload(payload)) + rest) == Some(
            (payload, acks.len() + framed(escaped_payload(payload)).len()),
        ),
{
    lemma_escaped_has_no_end(payload);
    law_framed_payload_is_received(acks, escaped_payload(payload), rest);
    law_escaped_payload_decodes(payload, Seq::empty());
    assert(Seq::<u8>::empty() + payload =~= payload);
}

/// How many acknowledgements (`+` and `-`) a stream starts with.
pub open spec fn ack_count(stream: Seq<u8>) -> nat
    decreases stream.len(),
{
    if stream.len() > 0 && (stream[0] == 0x2b || stream[0] == 0x2d) {
        1 + ack_count(stream.skip(1))
    } else {
        0
    }
}

/// The index of the first `#`; the length if there is none.
pub open spec fn body_end(s: Seq<u8>) -> nat
    decreases s.len(),
{
    if s.len() == 0 || s[0] == 0x23 {
        0
    } else {
        1 + body_end(s.skip(1))
    }
}

/// A letter in lower case; other bytes as they are.
pub open spec fn lower_byte(b: u8) -> u8 {
    if 0x41 <= b <= 0x5a {
        (b + 32) as u8
    } else {
        b
    }
}

/// The payload of the packet that a stream starts with, and how many bytes the
/// packet and the acknowledgements before it take. Nothing if the packet is not
/// complete, does not start with `$`, or has a wrong checksum.
pub open spec fn received(stream: Seq<u8>) -> Option<(Seq<u8>, nat)> {
    let start = ack_count(stream);
    let rest = stream.skip(start as int + 1);
    let end = body_end(rest);
    if start >= stream.len() || stream[start as int] != 0x24 || end + 2 >= rest.len() {
        None
    } else {
        let body = rest.take(end as int);
        let digits = two_digits(checksum(body) as u8);
        if lower_byte(rest[end as int + 1]) == digits[0] && lower_byte(rest[end as int + 2])
            == digits[1] {
            Some((unpacked(body, Seq::empty()), start + 1 + end + 3))
        } else {
            None
        }
    }
}

fn lower_of(b: u8) -> (r: u8)
    ensures
        r == lower_byte(b),
{
    if 0x41 <= b && b <= 0x5a {
        b + 32
    } else {
        b
    }
}

/// Take a packet off a stream: its payload, and how many bytes it took.
pub fn receive(stream: &[u8]) -> (r: Option<(Vec<u8>, usize)>)
    ensures
        (match r {
            Some((body, n)) => received(stream@) == Some((body@, n as nat)),
            None => received(stream@) is None,
        }),
{
    let mut start: usize = 0;
    assert(stream@.skip(0) =~= stream@);
    while start < stream.len() && (stream[start] == 0x2b || stream[start] == 0x2d)
        invariant
            start <= stream@.len(),
            ack_count(stream@) == start + ack_count(stream@.skip(start as int)),
        decreases stream@.len() - start,
    {
        assert(stream@.skip(start as int).skip(1) =~= stream@.skip(start as int + 1));
        start = start + 1;
    }
    if start == stream.len() || stream[start] != 0x24 {
        return None;
    }
    let from: usize = start + 1;
    let ghost rest = stream@.skip(from as int);
    let mut end: usize = from;
    assert(rest.skip(0) =~= rest);
    while end < stream.len() && stream[end] != 0x23
        invariant
            from <= end <= stream@.len(),
            rest == stream@.skip(from as int),
            body_end(rest) == (end - from) + body_end(rest.skip(end - from)),
        decreases stream@.len() - end,
    {
        assert(rest.skip(end - from).skip(1) =~= rest.skip(end - from + 1));
        end = end + 1;
    }
    if stream.len() - end < 3 {
        return None;
    }
    let body = vstd::slice::slice_subrange(stream, from, end);
    assert(body@ =~= rest.take(end - from));
    let mut digits: Vec<u8> = Vec::new();
    push_two_digits(&mut digits, sum_of(body));
    assert(digits@ =~= two_digits(checksum(body@) as u8));
    if lower_of(stream[end + 1]) == digits[0] && lower_of(stream[end + 2]) == digits[1] {
        Some((decode(body), end + 3))
    } else {
        None
    }
}

/// What is sent is what is received: a framed payload comes back decoded, with
/// acknowledgements before it and whatever follows it left alone.
pub proof fn law_framed_payload_is_received(acks: Seq<u8>, payload: Seq<u8>, rest: Seq<u8>)
    requires
        forall|i: int| 0 <= i < acks.len() ==> #[trigger] acks[i] == 0x2b || acks[i] == 0x2d,
        forall|i: int| 0 <= i < payload.len() ==> #[trigger] payload[i] != 0x23,
    ensures
        received(acks + framed(payload) + rest) == Some(
            (unpacked(payload, Seq::empty()), acks.len() + framed(payload).len()),
        ),
{
    let stream = acks + framed(payload) + rest;
    let packet = framed(payload);
    assert(packet[0] == 0x24);
    lemma_acks_skipped(acks, packet + rest);
    assert(acks + (packet + rest) =~= stream);
    assert(ack_count(packet + rest) == 0);
    let behind = stream.skip(acks.len() as int + 1);
    let digits = two_digits(checksum(payload) as u8);
    assert(behind =~= payload + (seq![0x23u8] + digits + rest));
    lemma_body_found(payload, seq![0x23u8] + digits + rest);
    assert(behind.take(payload.len() as int) =~= payload);
    assert(digits.len() == 2);
    assert(behind[payload.len() as int + 1] == digits[0]);
    assert(behind[payload.len() as int + 2] == digits[1]);
}

proof fn lemma_acks_skipped(acks: Seq<u8>, rest: Seq<u8>)
    requires
        forall|i: int| 0 <= i < acks.len() ==> #[trigger] acks[i] == 0x2b || acks[i] == 0x2d,
    ensures
        ack_count(acks + rest) == acks.len() + ack_count(rest),
    decreases acks.len(),
{
    if acks.len() == 0 {
        assert(acks + rest =~= rest);
    } else {
        assert((acks + rest)[0] == acks[0]);
        assert((acks + rest).skip(1) =~= acks.skip(1) + rest);
        assert forall|i: int| 0 <= i < acks.skip(1).len() implies #[trigger] acks.skip(1)[i] == 0x2b
            || acks.skip(1)[i] == 0x2d by {
            assert(acks[i + 1] == 0x2b || acks[i + 1] == 0x2d);
        }
        lemma_acks_skipped(acks.skip(1), rest);
    }
}

proof fn lemma_body_found(payload: Seq<u8>, rest: Seq<u8>)
    requires
        rest.len() > 0,
        rest[0] == 0x23,
        forall|i: int| 0 <= i < payload.len() ==> #[trigger] payload[i] != 0x23,
    ensures
        body_end(payload + rest) == payload.len(),
    decreases payload.len(),
{
    if payload.len() == 0 {
        assert(payload + rest =~= rest);
    } else {
        assert((payload + rest)[0] == payload[0]);
        assert((payload + rest).skip(1) =~= payload.skip(1) + rest);
        assert forall|i: int| 0 <= i < payload.skip(1).len() implies #[trigger] payload.skip(1)[i]
            != 0x23 by {
            assert(payload[i + 1] != 0x23);
        }
        lemma_body_found(payload.skip(1), rest);
    }
}

/// One packet of the reply to a monitor command.
#[derive(Debug)]
pub enum MonitorChunk {
    /// The command has ended.
    Done,
    /// Console output; more is to come.
    More(String),
    /// The whole reply.
    Last(String),
}

/// What a packet of the reply to a monitor command says: `OK` ends it, `O`
/// carries console output in hex, and anything else is the reply itself.
pub open spec fn is_monitor_chunk(text: Seq<char>, chunk: MonitorChunk) -> bool {
    if text == "OK"@ {
        chunk is Done
    } else if text.len() > 0 && text[0] == 'O' {
        chunk is More && chunk->More_0@ == (match hex_argument(text.skip(1)) {
            Some(output) => output,
            None => text.skip(1),
        })
    } else {
        chunk is Last && chunk->Last_0@ == text
    }
}

/// What a packet of the reply to a monitor command says.
pub fn monitor_chunk(body: &[u8]) -> (r: MonitorChunk)
    ensures
        is_monitor_chunk(packet_text(body@), r),
{
    let text = text_of_packet(body);
    let chars = chars_of(text.as_str());
    if text_is(text.as_str(), "OK") {
        return MonitorChunk::Done;
    }
    if chars.len() > 0 && chars[0] == 'O' {
        let rest = string_of(tail_of(chars.as_slice(), 1).as_slice());
        return match decode_hex(rest.as_str().as_bytes()) {
            Some(bytes) => MonitorChunk::More(text_lossy(bytes.as_slice())),
            None => MonitorChunk::More(rest),
        };
    }
    MonitorChunk::Last(text)
}

/// Console output that is sent in hex is shown as it was.
pub proof fn law_console_output_survives(output: Seq<char>, chunk: MonitorChunk)
    requires
        is_monitor_chunk(seq!['O'] + hex_encoded(encode_utf8(output)), chunk),
    ensures
        chunk is More,
        chunk->More_0@ == output,
{
    let text = seq!['O'] + hex_encoded(encode_utf8(output));
    law_hex_round_trip(encode_utf8(output));
    lemma_text_survives_lossy(output);
    assert(text.skip(1) =~= hex_encoded(encode_utf8(output)));
    reveal_strlit("OK");
    if text == "OK"@ {
        assert(text[1] == 'K');
        assert(hex_encoded(encode_utf8(output))[0] == 'K');
    }
}

} // verus!
