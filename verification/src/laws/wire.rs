//! Packets on the wire, and the client that sends and reads them.

use vstd::prelude::*;
use vstd::utf8::encode_utf8;

use crate::client::{
    command_text, handshake_request, show_monitor_packet, Handshake, HandshakeProgress, RspClient,
    HANDSHAKE_REQUESTS,
};
use crate::gdb::packet::{decode_hex, encode_hex};
use crate::rsp::{
    ack_count, body_end, checksum, decode, escaped_payload, frame, from_hex,
    law_any_payload_is_received, law_framed_payload_is_received,
    law_plain_payload_is_kept, receive, repeated, unpacked,
};
use super::numbers::digit;

verus! {

/// The sum of bytes.
pub open spec fn sum(bytes: Seq<u8>) -> nat
    decreases bytes.len(),
{
    if bytes.len() == 0 {
        0
    } else {
        bytes[0] as nat + sum(bytes.skip(1))
    }
}

proof fn lemma_sum_push(bytes: Seq<u8>)
    requires
        bytes.len() > 0,
    ensures
        sum(bytes) == sum(bytes.drop_last()) + bytes.last(),
    decreases bytes.len(),
{
    if bytes.len() > 1 {
        lemma_sum_push(bytes.skip(1));
        assert(bytes.skip(1).drop_last() =~= bytes.drop_last().skip(1));
    } else {
        assert(sum(bytes.skip(1)) == 0);
        assert(sum(bytes.drop_last()) == 0);
    }
}

proof fn lemma_checksum(bytes: Seq<u8>)
    ensures
        checksum(bytes) == sum(bytes) % 256,
    decreases bytes.len(),
{
    if bytes.len() > 0 {
        lemma_checksum(bytes.drop_last());
        lemma_sum_push(bytes);
        assert((sum(bytes.drop_last()) % 256 + bytes.last() as nat) % 256 == (sum(
            bytes.drop_last(),
        ) + bytes.last() as nat) % 256) by (nonlinear_arith);
    }
}

/// A packet is `$`, the payload, `#` and the sum of the payload's bytes modulo
/// 256 as two lower case hex digits.
pub proof fn law_packets_are_framed(payload: &[u8], r: Vec<u8>)
    requires
        call_ensures(frame, (payload,), r),
    ensures
        ({
            let n = payload@.len() as int;
            &&& r@.len() == n + 4
            &&& r@[0] == '$' as u8
            &&& r@.subrange(1, n + 1) == payload@
            &&& r@[n + 1] == '#' as u8
            &&& digit(r@[n + 2] as char) == Some((sum(payload@) % 256) / 16)
            &&& digit(r@[n + 3] as char) == Some((sum(payload@) % 256) % 16)
            &&& !('A' <= r@[n + 2] as char <= 'F') && !('A' <= r@[n + 3] as char <= 'F')
        }),
{
    lemma_checksum(payload@);
    assert(r@.subrange(1, payload@.len() as int + 1) =~= payload@);
}

/// A body without `}` and `*` is taken as it is.
pub proof fn law_plain_bodies(body: &[u8], r: Vec<u8>)
    requires
        forall|i: int| 0 <= i < body@.len() ==> #[trigger] body@[i] != '}' as u8 && body@[i] != '*'
            as u8,
        call_ensures(decode, (body,), r),
    ensures
        r@ == body@,
{
    law_plain_payload_is_kept(body@, Seq::empty());
    assert(Seq::<u8>::empty() + body@ =~= body@);
}

/// `}` takes the byte behind it with one bit turned, wherever it stands behind
/// plain bytes; what follows is taken on its own.
pub proof fn law_escapes(
    plain: Seq<u8>,
    b: u8,
    rest: Seq<u8>,
    body: &[u8],
    r: Vec<u8>,
    tail: &[u8],
    behind: Vec<u8>,
)
    requires
        forall|i: int| 0 <= i < plain.len() ==> #[trigger] plain[i] != '}' as u8 && plain[i] != '*'
            as u8,
        forall|i: int| 0 <= i < rest.len() ==> #[trigger] rest[i] != '*' as u8,
        body@ == plain + seq!['}' as u8, b] + rest,
        tail@ == rest,
        call_ensures(decode, (body,), r),
        call_ensures(decode, (tail,), behind),
    ensures
        r@ == plain + seq![b ^ 0x20] + behind@,
{
    let more = seq!['}' as u8, b] + rest;
    lemma_plain_start(plain, more, Seq::empty());
    assert(plain + more =~= body@);
    assert(Seq::<u8>::empty() + plain =~= plain);
    assert(more.skip(2) =~= rest);
    lemma_no_runs(rest, plain.push(b ^ 0x20));
    lemma_no_runs(rest, Seq::empty());
    assert(plain.push(b ^ 0x20) + escapes_undone(rest) =~= plain + seq![b ^ 0x20] + escapes_undone(
        rest,
    ));
    assert(Seq::<u8>::empty() + escapes_undone(rest) =~= escapes_undone(rest));
}

spec fn escapes_undone(body: Seq<u8>) -> Seq<u8>
    decreases body.len(),
{
    if body.len() == 0 {
        Seq::empty()
    } else if body[0] == 0x7d && body.len() > 1 {
        seq![body[1] ^ 0x20] + escapes_undone(body.skip(2))
    } else {
        seq![body[0]] + escapes_undone(body.skip(1))
    }
}

proof fn lemma_no_runs(body: Seq<u8>, out: Seq<u8>)
    requires
        forall|i: int| 0 <= i < body.len() ==> #[trigger] body[i] != '*' as u8,
    ensures
        unpacked(body, out) == out + escapes_undone(body),
    decreases body.len(),
{
    if body.len() == 0 {
        assert(out + escapes_undone(body) =~= out);
    } else {
        assert(body[0] != '*' as u8);
        if body[0] == 0x7d && body.len() > 1 {
            assert forall|i: int| 0 <= i < body.skip(2).len() implies #[trigger] body.skip(2)[i]
                != '*' as u8 by {
                assert(body[i + 2] != '*' as u8);
            }
            lemma_no_runs(body.skip(2), out.push(body[1] ^ 0x20));
            assert(out.push(body[1] ^ 0x20) + escapes_undone(body.skip(2)) =~= out
                + escapes_undone(body));
        } else {
            assert forall|i: int| 0 <= i < body.skip(1).len() implies #[trigger] body.skip(1)[i]
                != '*' as u8 by {
                assert(body[i + 1] != '*' as u8);
            }
            lemma_no_runs(body.skip(1), out.push(body[0]));
            assert(out.push(body[0]) + escapes_undone(body.skip(1)) =~= out + escapes_undone(body));
        }
    }
}

proof fn lemma_plain_start(plain: Seq<u8>, rest: Seq<u8>, out: Seq<u8>)
    requires
        forall|i: int| 0 <= i < plain.len() ==> #[trigger] plain[i] != '}' as u8 && plain[i] != '*'
            as u8,
    ensures
        unpacked(plain + rest, out) == unpacked(rest, out + plain),
    decreases plain.len(),
{
    if plain.len() == 0 {
        assert(plain + rest =~= rest);
        assert(out + plain =~= out);
    } else {
        assert(plain[0] != '}' as u8 && plain[0] != '*' as u8);
        assert forall|i: int| 0 <= i < plain.skip(1).len() implies #[trigger] plain.skip(1)[i]
            != '}' as u8 && plain.skip(1)[i] != '*' as u8 by {
            assert(plain[i + 1] != '}' as u8);
        }
        assert((plain + rest).skip(1) =~= plain.skip(1) + rest);
        assert((plain + rest)[0] == plain[0]);
        lemma_plain_start(plain.skip(1), rest, out.push(plain[0]));
        assert(out.push(plain[0]) + plain.skip(1) =~= out + plain);
    }
}

/// `*` and a byte repeat the byte before them: as often more as the byte is above
/// 29, whatever stands before and plain bytes behind.
pub proof fn law_runs(
    plain: Seq<u8>,
    c: u8,
    n: u8,
    rest: Seq<u8>,
    body: &[u8],
    r: Vec<u8>,
)
    requires
        forall|i: int| 0 <= i < plain.len() ==> #[trigger] plain[i] != '}' as u8 && plain[i] != '*'
            as u8,
        forall|i: int| 0 <= i < rest.len() ==> #[trigger] rest[i] != '}' as u8 && rest[i] != '*'
            as u8,
        c != '}' as u8 && c != '*' as u8,
        29 <= n,
        body@ == plain + seq![c, '*' as u8, n] + rest,
        call_ensures(decode, (body,), r),
    ensures
        r@ == plain + Seq::new((1 + (n - 29)) as nat, |i: int| c) + rest,
{
    let start = plain.push(c);
    let more = seq!['*' as u8, n] + rest;
    assert forall|i: int| 0 <= i < start.len() implies #[trigger] start[i] != '}' as u8 && start[i]
        != '*' as u8 by {
        if i < plain.len() {
            assert(plain[i] != '}' as u8);
        }
    }
    lemma_plain_start(start, more, Seq::empty());
    assert(start + more =~= body@);
    assert(Seq::<u8>::empty() + start =~= start);
    assert(more.skip(2) =~= rest);
    let out = start + repeated(c, (n - 29) as nat);
    assert(unpacked(more, start) == unpacked(rest, out));
    law_plain_payload_is_kept(rest, out);
    assert(out + rest =~= plain + Seq::new((1 + (n - 29)) as nat, |i: int| c) + rest);
}

/// A `}` or a `*` with nothing behind it stands for itself, and so does a `*`
/// with nothing before it.
pub proof fn law_lone_marks(plain: Seq<u8>, mark: u8, body: &[u8], r: Vec<u8>)
    requires
        forall|i: int| 0 <= i < plain.len() ==> #[trigger] plain[i] != '}' as u8 && plain[i] != '*'
            as u8,
        mark == '}' as u8 || mark == '*' as u8,
        body@ == plain.push(mark) || (mark == '*' as u8 && body@ == seq![mark] + plain),
        call_ensures(decode, (body,), r),
    ensures
        r@ == body@,
{
    if body@ == plain.push(mark) {
        lemma_plain_start(plain, seq![mark], Seq::empty());
        assert(plain + seq![mark] =~= body@);
        assert(Seq::<u8>::empty() + plain =~= plain);
        assert(seq![mark].skip(1).len() == 0);
        assert(unpacked(seq![mark], plain) == unpacked(seq![mark].skip(1), plain.push(mark)));
    } else {
        assert(body@.skip(1) =~= plain);
        let out = Seq::<u8>::empty().push(mark);
        law_plain_payload_is_kept(plain, out);
        assert(out + plain =~= body@);
    }
}

/// What a packet body is made of.
pub enum Token {
    /// A byte as it is.
    Plain(u8),
    /// `}` and a byte.
    Escape(u8),
    /// `*` and a byte.
    Run(u8),
}

/// A plain byte is none of the marks, and a run has a length.
pub open spec fn is_token(token: Token) -> bool {
    match token {
        Token::Plain(b) => b != '}' as u8 && b != '*' as u8,
        Token::Escape(_) => true,
        Token::Run(n) => n >= 29,
    }
}

/// The bytes of some tokens.
pub open spec fn spelled(tokens: Seq<Token>) -> Seq<u8>
    decreases tokens.len(),
{
    if tokens.len() == 0 {
        Seq::empty()
    } else {
        (match tokens[0] {
            Token::Plain(b) => seq![b],
            Token::Escape(b) => seq!['}' as u8, b],
            Token::Run(n) => seq!['*' as u8, n],
        }) + spelled(tokens.skip(1))
    }
}

/// The bytes that some tokens stand for, behind those that are there already.
pub open spec fn meant(tokens: Seq<Token>, out: Seq<u8>) -> Seq<u8>
    decreases tokens.len(),
{
    if tokens.len() == 0 {
        out
    } else {
        meant(
            tokens.skip(1),
            match tokens[0] {
                Token::Plain(b) => out.push(b),
                Token::Escape(b) => out.push(b ^ 0x20),
                Token::Run(n) => out + Seq::new((n - 29) as nat, |i: int| out.last()),
            },
        )
    }
}

/// A packet body is its tokens, however they are mixed: a run repeats the byte
/// before it, be it plain, escaped or repeated already.
pub proof fn law_bodies_are_their_tokens(tokens: Seq<Token>, body: &[u8], r: Vec<u8>)
    requires
        forall|i: int| 0 <= i < tokens.len() ==> is_token(#[trigger] tokens[i]),
        tokens.len() > 0 ==> !(tokens[0] is Run),
        body@ == spelled(tokens),
        call_ensures(decode, (body,), r),
    ensures
        r@ == meant(tokens, Seq::empty()),
{
    lemma_tokens(tokens, Seq::empty());
}

proof fn lemma_tokens(tokens: Seq<Token>, out: Seq<u8>)
    requires
        forall|i: int| 0 <= i < tokens.len() ==> is_token(#[trigger] tokens[i]),
        tokens.len() > 0 && out.len() == 0 ==> !(tokens[0] is Run),
    ensures
        unpacked(spelled(tokens), out) == meant(tokens, out),
    decreases tokens.len(),
{
    if tokens.len() > 0 {
        let rest = tokens.skip(1);
        let bytes = spelled(tokens);
        assert(is_token(tokens[0]));
        assert forall|i: int| 0 <= i < rest.len() implies is_token(#[trigger] rest[i]) by {
            assert(rest[i] == tokens[i + 1]);
        }
        match tokens[0] {
            Token::Plain(b) => {
                assert(bytes.skip(1) =~= spelled(rest));
                lemma_tokens(rest, out.push(b));
            },
            Token::Escape(b) => {
                assert(bytes.skip(2) =~= spelled(rest));
                lemma_tokens(rest, out.push(b ^ 0x20));
            },
            Token::Run(n) => {
                assert(bytes.skip(2) =~= spelled(rest));
                let more = out + Seq::new((n - 29) as nat, |i: int| out.last());
                assert(out + repeated(out.last(), (n - 29) as nat) =~= more);
                lemma_tokens(rest, more);
            },
        }
    }
}

/// Any payload that is escaped and framed is read back, behind acknowledgements
/// and before whatever follows, and it takes what it takes.
pub proof fn law_packets_are_received(
    acks: Seq<u8>,
    payload: Seq<u8>,
    escaped: &[u8],
    sent: Vec<u8>,
    rest: Seq<u8>,
    stream: &[u8],
    r: Option<(Vec<u8>, usize)>,
)
    requires
        forall|i: int| 0 <= i < acks.len() ==> #[trigger] acks[i] == '+' as u8 || acks[i] == '-'
            as u8,
        escaped@ == escaped_payload(payload),
        call_ensures(frame, (escaped,), sent),
        stream@ == acks + sent@ + rest,
        call_ensures(receive, (stream,), r),
    ensures
        (r matches Some((body, n)) && body@ == payload && n == acks.len() + sent@.len()),
{
    law_any_payload_is_received(acks, payload, rest);
}

/// A packet with a wrong checksum is not received.
pub proof fn law_wrong_checksums(
    acks: Seq<u8>,
    payload: Seq<u8>,
    high: u8,
    low: u8,
    rest: Seq<u8>,
    stream: &[u8],
    r: Option<(Vec<u8>, usize)>,
)
    requires
        forall|i: int| 0 <= i < acks.len() ==> #[trigger] acks[i] == '+' as u8 || acks[i] == '-'
            as u8,
        forall|i: int| 0 <= i < payload.len() ==> #[trigger] payload[i] != '#' as u8,
        stream@ == acks + seq!['$' as u8] + payload + seq!['#' as u8, high, low] + rest,
        call_ensures(receive, (stream,), r),
        digit(high as char) != Some((sum(payload) % 256) / 16) || digit(low as char) != Some(
            (sum(payload) % 256) % 16,
        ),
    ensures
        r is None,
{
    lemma_checksum(payload);
    lemma_start(acks, seq!['$' as u8] + payload + seq!['#' as u8, high, low] + rest);
    let s = stream@;
    assert(s =~= acks + (seq!['$' as u8] + payload + seq!['#' as u8, high, low] + rest));
    let behind = s.skip(acks.len() as int + 1);
    assert(behind =~= payload + (seq!['#' as u8, high, low] + rest));
    lemma_end(payload, seq!['#' as u8, high, low] + rest);
    assert(behind.take(payload.len() as int) =~= payload);
    assert(behind[payload.len() as int + 1] == high);
    assert(behind[payload.len() as int + 2] == low);
    lemma_lower_digit(high);
    lemma_lower_digit(low);
}

proof fn lemma_lower_digit(b: u8)
    ensures
        digit(crate::rsp::lower_byte(b) as char) == digit(b as char),
{
}

/// Nothing is received before the whole packet is there, nor from a stream that
/// does not start with one.
pub proof fn law_incomplete_packets(
    stream: &[u8],
    acks: Seq<u8>,
    rest: Seq<u8>,
    r: Option<(Vec<u8>, usize)>,
)
    requires
        forall|i: int| 0 <= i < acks.len() ==> #[trigger] acks[i] == '+' as u8 || acks[i] == '-'
            as u8,
        stream@ == acks + rest,
        rest.len() > 0 ==> rest[0] != '+' as u8 && rest[0] != '-' as u8,
        rest.len() == 0 || rest[0] != '$' as u8 || forall|i: int|
            0 <= i < rest.len() - 2 ==> #[trigger] rest[i] != '#' as u8,
        call_ensures(receive, (stream,), r),
    ensures
        r is None,
{
    lemma_start(acks, rest);
    if rest.len() > 0 && rest[0] == '$' as u8 {
        let behind = stream@.skip(acks.len() as int + 1);
        assert(behind =~= rest.skip(1));
        lemma_end_from(behind, behind.len() - 2);
    }
}

proof fn lemma_end_from(s: Seq<u8>, n: int)
    requires
        n <= s.len(),
        forall|i: int| 0 <= i < n ==> #[trigger] s[i] != '#' as u8,
    ensures
        body_end(s) >= n,
    decreases s.len(),
{
    if n > 0 {
        assert(s[0] != '#' as u8);
        assert forall|i: int| 0 <= i < n - 1 implies #[trigger] s.skip(1)[i] != '#' as u8 by {
            assert(s[i + 1] != '#' as u8);
        }
        lemma_end_from(s.skip(1), n - 1);
    }
}

proof fn lemma_end(payload: Seq<u8>, rest: Seq<u8>)
    requires
        rest.len() > 0,
        rest[0] == '#' as u8,
        forall|i: int| 0 <= i < payload.len() ==> #[trigger] payload[i] != '#' as u8,
    ensures
        body_end(payload + rest) == payload.len(),
    decreases payload.len(),
{
    if payload.len() == 0 {
        assert(payload + rest =~= rest);
    } else {
        assert((payload + rest)[0] == payload[0]);
        assert((payload + rest).skip(1) =~= payload.skip(1) + rest);
        assert forall|i: int| 0 <= i < payload.skip(1).len() implies #[trigger] payload.skip(1)[i]
            != '#' as u8 by {
            assert(payload[i + 1] != '#' as u8);
        }
        lemma_end(payload.skip(1), rest);
    }
}

proof fn lemma_start(acks: Seq<u8>, rest: Seq<u8>)
    requires
        forall|i: int| 0 <= i < acks.len() ==> #[trigger] acks[i] == '+' as u8 || acks[i] == '-'
            as u8,
        rest.len() > 0 ==> rest[0] != '+' as u8 && rest[0] != '-' as u8,
    ensures
        ack_count(acks + rest) == acks.len(),
    decreases acks.len(),
{
    if acks.len() == 0 {
        assert(acks + rest =~= rest);
    } else {
        assert((acks + rest)[0] == acks[0]);
        assert((acks + rest).skip(1) =~= acks.skip(1) + rest);
        assert forall|i: int| 0 <= i < acks.skip(1).len() implies #[trigger] acks.skip(1)[i] == '+'
            as u8 || acks.skip(1)[i] == '-' as u8 by {
            assert(acks[i + 1] == '+' as u8 || acks[i + 1] == '-' as u8);
        }
        lemma_start(acks.skip(1), rest);
    }
}

/// What one client sends the other reads, once it has arrived and once only; an
/// acknowledgement before it is passed over.
pub proof fn law_clients_understand_each_other(
    fresh: RspClient,
    acked: &mut RspClient,
    sender: &mut RspClient,
    text: &str,
    reader: &mut RspClient,
    bytes: &[u8],
    read: &mut RspClient,
    r: Option<Vec<u8>>,
    again: &mut RspClient,
    q: Option<Vec<u8>>,
)
    requires
        call_ensures(RspClient::new, (), fresh),
        *acked == fresh,
        call_ensures(RspClient::ack, (acked,), ()),
        *sender == *final(acked),
        call_ensures(RspClient::send, (sender, text), ()),
        bytes@ == final(sender).outgoing@,
        *reader == fresh,
        call_ensures(RspClient::feed, (reader, bytes), ()),
        *read == *final(reader),
        call_ensures(RspClient::recv, (read,), r),
        *again == *final(read),
        call_ensures(RspClient::recv, (again,), q),
        forall|i: int|
            0 <= i < encode_utf8(text@).len() ==> #[trigger] encode_utf8(text@)[i] != '#' as u8
                && encode_utf8(text@)[i] != '}' as u8 && encode_utf8(text@)[i] != '*' as u8,
    ensures
        (r is Some && r->0@ == encode_utf8(text@)),
        q is None,
        final(again).incoming@.len() == 0,
        final(again).outgoing@.len() == 0,
{
    let payload = encode_utf8(text@);
    let acks = seq!['+' as u8];
    assert forall|i: int| 0 <= i < payload.len() implies #[trigger] payload[i] != 0x23 by {
        assert(encode_utf8(text@)[i] != '#' as u8);
    }
    assert forall|i: int| 0 <= i < payload.len() implies #[trigger] payload[i] != 0x7d && payload[i]
        != 0x2a by {
        assert(encode_utf8(text@)[i] != '}' as u8);
    }
    law_framed_payload_is_received(acks, payload, Seq::empty());
    law_plain_payload_is_kept(payload, Seq::empty());
    assert(Seq::<u8>::empty() + payload =~= payload);
    let packet = crate::rsp::framed(payload);
    assert(final(reader).incoming@ =~= acks + packet + Seq::empty());
    assert(final(read).incoming@.len() == 0);
    assert(ack_count(final(read).incoming@) == 0);
}

/// A checksum is read in either case: two digits that denote it are the right
/// ones.
pub proof fn law_right_checksums(
    acks: Seq<u8>,
    payload: Seq<u8>,
    high: u8,
    low: u8,
    rest: Seq<u8>,
    stream: &[u8],
    r: Option<(Vec<u8>, usize)>,
    body: &[u8],
    decoded: Vec<u8>,
)
    requires
        forall|i: int| 0 <= i < acks.len() ==> #[trigger] acks[i] == '+' as u8 || acks[i] == '-'
            as u8,
        forall|i: int| 0 <= i < payload.len() ==> #[trigger] payload[i] != '#' as u8,
        stream@ == acks + seq!['$' as u8] + payload + seq!['#' as u8, high, low] + rest,
        call_ensures(receive, (stream,), r),
        digit(high as char) == Some((sum(payload) % 256) / 16),
        digit(low as char) == Some((sum(payload) % 256) % 16),
        body@ == payload,
        call_ensures(decode, (body,), decoded),
    ensures
        (r matches Some((got, n)) && got@ == decoded@ && n == acks.len() + payload.len() + 4),
{
    lemma_checksum(payload);
    lemma_start(acks, seq!['$' as u8] + payload + seq!['#' as u8, high, low] + rest);
    let s = stream@;
    assert(s =~= acks + (seq!['$' as u8] + payload + seq!['#' as u8, high, low] + rest));
    let behind = s.skip(acks.len() as int + 1);
    assert(behind =~= payload + (seq!['#' as u8, high, low] + rest));
    lemma_end(payload, seq!['#' as u8, high, low] + rest);
    assert(behind.take(payload.len() as int) =~= payload);
    assert(behind[payload.len() as int + 1] == high);
    assert(behind[payload.len() as int + 2] == low);
}

/// A client reads the first packet that arrived and leaves what follows; without
/// a whole packet it leaves everything.
pub proof fn law_packets_are_read_in_turn(
    c: &mut RspClient,
    acks: Seq<u8>,
    payload: Seq<u8>,
    escaped: &[u8],
    sent: Vec<u8>,
    rest: Seq<u8>,
    r: Option<Vec<u8>>,
    d: &mut RspClient,
    stream: &[u8],
    none: Option<(Vec<u8>, usize)>,
    q: Option<Vec<u8>>,
)
    requires
        forall|i: int| 0 <= i < acks.len() ==> #[trigger] acks[i] == '+' as u8 || acks[i] == '-'
            as u8,
        escaped@ == escaped_payload(payload),
        call_ensures(frame, (escaped,), sent),
        c.incoming@ == acks + sent@ + rest,
        call_ensures(RspClient::recv, (c,), r),
        d.incoming@ == stream@,
        call_ensures(receive, (stream,), none),
        none is None,
        call_ensures(RspClient::recv, (d,), q),
    ensures
        r is Some && r->0@ == payload,
        final(c).incoming@ == rest,
        final(c).outgoing@ == old(c).outgoing@,
        q is None,
        final(d).incoming@ == old(d).incoming@,
        final(d).outgoing@ == old(d).outgoing@,
{
    law_any_payload_is_received(acks, payload, rest);
    assert((acks + sent@ + rest).skip((acks.len() + sent@.len()) as int) =~= rest);
}

/// The handshake starts with an acknowledgement and its first request.
pub proof fn law_handshake_starts(
    c: &mut RspClient,
    h: Handshake,
    acked: &mut RspClient,
    sent: &mut RspClient,
    first: &'static str,
)
    requires
        call_ensures(Handshake::start, (c,), h),
        *acked == *c,
        call_ensures(RspClient::ack, (acked,), ()),
        *sent == *final(acked),
        call_ensures(handshake_request, (0usize,), first),
        call_ensures(RspClient::send, (sent, first), ()),
    ensures
        h.wf() && h.awaited() == 0,
        final(c).outgoing@ == final(sent).outgoing@,
        final(c).incoming@ == old(c).incoming@,
{
}

/// The requests of a client are packets with the command, which is in hex where
/// it is a text of the caller's own; a monitor command acknowledges first.
pub proof fn law_requests(
    s: RspClient,
    a: &mut RspClient,
    b: &mut RspClient,
    c: &mut RspClient,
    d: &mut RspClient,
    e: &mut RspClient,
    x: &mut RspClient,
    plain: &mut RspClient,
    after_ack: &mut RspClient,
    arg: &str,
    bytes: &[u8],
    encoded: String,
    request: &str,
)
    requires
        *a == s && *b == s && *c == s && *d == s && *e == s && *x == s && *plain == s,
        bytes@ == encode_utf8(arg@),
        call_ensures(encode_hex, (bytes,), encoded),
        call_ensures(RspClient::qrrcmd, (a, arg), ()),
        call_ensures(RspClient::qrrcmd_hex, (b, arg), ()),
        call_ensures(RspClient::when, (c,), ()),
        call_ensures(RspClient::vrun, (d, arg), ()),
        call_ensures(RspClient::monitor, (e, arg), ()),
        call_ensures(RspClient::send, (plain, request), ()),
        call_ensures(RspClient::ack, (x,), ()),
        *after_ack == *final(x),
        call_ensures(RspClient::send, (after_ack, request), ()),
    ensures
        request@ == "qRRCmd:"@ + arg@ ==> final(a).outgoing@ == final(plain).outgoing@,
        request@ == "qRRCmd:"@ + encoded@ ==> final(b).outgoing@ == final(plain).outgoing@,
        request@ == "qRRCmd:"@ + "when:-1"@ ==> final(c).outgoing@ == final(plain).outgoing@,
        request@ == "vRun;;"@ + encoded@ ==> final(d).outgoing@ == final(plain).outgoing@,
        request@ == "qRcmd,"@ + encoded@ ==> final(e).outgoing@ == final(after_ack).outgoing@,
        final(x).outgoing@ == s.outgoing@.push('+' as u8),
        final(a).incoming@ == s.incoming@ && final(b).incoming@ == s.incoming@,
        final(c).incoming@ == s.incoming@ && final(d).incoming@ == s.incoming@,
        final(e).incoming@ == s.incoming@ && final(plain).incoming@ == s.incoming@,
{
}

/// The reply to a command is the text whose hex was sent.
pub proof fn law_command_replies(
    text: Seq<char>,
    bytes: &[u8],
    sent: String,
    reply: &str,
    r: Option<String>,
)
    requires
        bytes@ == encode_utf8(text),
        call_ensures(encode_hex, (bytes,), sent),
        reply@ == sent@,
        call_ensures(command_text, (reply,), r),
    ensures
        r is Some && r->0@ == text,
{
    crate::client::law_hex_reply_is_read(bytes@);
    vstd::utf8::encode_utf8_valid_utf8(text);
    vstd::utf8::encode_utf8_decode_utf8(text);
}

/// The hex of bytes is read digit pair by digit pair.
pub proof fn law_digit_pairs(bytes: &[u8], sent: String, s: &str, r: Vec<u8>)
    requires
        call_ensures(encode_hex, (bytes,), sent),
        s@ == sent@,
        call_ensures(from_hex, (s,), r),
    ensures
        r@ == bytes@,
{
    crate::client::law_hex_reply_is_read(bytes@);
}

/// Console output is shown behind what is shown already, and more is to come;
/// `OK` ends it, and what is no output is shown and ends it.
pub proof fn law_console(
    shown: &mut String,
    output: Seq<char>,
    bytes: &[u8],
    sent: String,
    body: &[u8],
    r: bool,
    ended: &mut String,
    ok: &[u8],
    more: bool,
    other: &mut String,
    text: Seq<char>,
    message: &[u8],
    q: bool,
)
    requires
        bytes@ == encode_utf8(output),
        call_ensures(encode_hex, (bytes,), sent),
        body@ == encode_utf8(seq!['O'] + sent@),
        call_ensures(show_monitor_packet, (shown, body), r),
        ok@ == encode_utf8("OK"@),
        call_ensures(show_monitor_packet, (ended, ok), more),
        message@ == encode_utf8(text),
        text.len() == 0 || text[0] != 'O',
        call_ensures(show_monitor_packet, (other, message), q),
    ensures
        r,
        final(shown)@ == old(shown)@ + output,
        !more,
        final(ended)@ == old(ended)@,
        !q,
        final(other)@ == old(other)@ + text,
{
    reveal_strlit("OK");
    crate::client::law_monitor_output_is_joined(old(shown)@, seq![output]);
    vstd::utf8::encode_utf8_valid_utf8("OK"@);
    vstd::utf8::encode_utf8_decode_utf8("OK"@);
    vstd::utf8::encode_utf8_valid_utf8(text);
    vstd::utf8::encode_utf8_decode_utf8(text);
    let packet = seq!['O'] + sent@;
    vstd::utf8::encode_utf8_valid_utf8(packet);
    vstd::utf8::encode_utf8_decode_utf8(packet);
    let packets = seq![output].map_values(|p: Seq<char>| crate::client::output_packet(p)).push(
        "OK"@,
    );
    assert(packets[0] == packet);
    crate::gdb::packet::law_hex_round_trip(encode_utf8(output));
    crate::text::utf8::lemma_text_survives_lossy(output);
    assert(packet.skip(1) =~= sent@);
    if packet == "OK"@ {
        assert(packet[1] == 'K');
        assert(sent@[0] == 'K');
    }
}

/// Output that is not in hex is shown as it came.
pub proof fn law_console_output_as_it_came(
    shown: &mut String,
    text: Seq<char>,
    hex: &[u8],
    d: Option<Vec<u8>>,
    body: &[u8],
    r: bool,
)
    requires
        hex@ == encode_utf8(text),
        call_ensures(decode_hex, (hex,), d),
        d is None,
        seq!['O'] + text != "OK"@,
        body@ == encode_utf8(seq!['O'] + text),
        call_ensures(show_monitor_packet, (shown, body), r),
    ensures
        r,
        final(shown)@ == old(shown)@ + text,
{
    let packet = seq!['O'] + text;
    vstd::utf8::encode_utf8_valid_utf8(packet);
    vstd::utf8::encode_utf8_decode_utf8(packet);
    assert(packet.skip(1) =~= text);
}

/// A text holds another one between two others.
pub open spec fn holds(text: Seq<char>, part: Seq<char>) -> bool {
    exists|before: Seq<char>, behind: Seq<char>| text == #[trigger] (before + part + behind)
}

proof fn lemma_holds(text: Seq<char>, part: Seq<char>)
    ensures
        crate::client::mentions(text, part) == holds(text, part),
{
    if crate::client::mentions(text, part) {
        let i = choose|i: int|
            0 <= i <= text.len() - part.len() && #[trigger] text.subrange(i, i + part.len())
                == part;
        assert(text =~= text.take(i) + part + text.skip(i + part.len()));
    }
    if holds(text, part) {
        let (before, behind) = choose|before: Seq<char>, behind: Seq<char>|
            text == #[trigger] (before + part + behind);
        let n = before.len() as int;
        assert(text.subrange(n, n + part.len()) =~= part);
    }
}

/// The handshake begins with an acknowledgement and asks for no more of them;
/// each accepted reply brings the next request, and the last one the end. The
/// replies that are accepted: `OK` to the first, a packet size among the
/// features, the three parts of the description, the registers of the core, the
/// segment bases, and nothing to what need not be supported.
pub proof fn law_handshake(
    fresh: &mut RspClient,
    h: Handshake,
    s: &mut Handshake,
    client: &mut RspClient,
    reply: &str,
    r: HandshakeProgress,
    plain: &mut RspClient,
    asked: &'static str,
)
    requires
        call_ensures(Handshake::start, (fresh,), h),
        s.wf(),
        *plain == *client,
        call_ensures(Handshake::on_reply, (s, reply, client), r),
        s.awaited() + 1 < HANDSHAKE_REQUESTS ==> call_ensures(
            handshake_request,
            ((s.awaited() + 1) as usize,),
            asked,
        ) && call_ensures(RspClient::send, (plain, asked), ()),
    ensures
        h.awaited() == 0,
        ({
            let step = old(s).awaited();
            let t = reply@;
            let document = t.len() > 0 && (t[0] == 'l' || t[0] == 'm');
            let accepted = if step == 0 {
                t == "OK"@
            } else if step == 2 {
                holds(t, "PacketSize="@)
            } else if step == 4 {
                document && holds(t, "64bit-core.xml"@) && holds(t, "64bit-sse.xml"@) && holds(
                    t,
                    "64bit-seg.xml"@,
                )
            } else if step == 5 {
                document && holds(t, "rip"@) && holds(t, "rsp"@) && holds(t, "rbp"@) && holds(
                    t,
                    "rcx"@,
                )
            } else if step == 6 {
                document && holds(t, "gs_base"@) && holds(t, "fs_base"@)
            } else {
                t == ""@
            };
            &&& 0 <= step < 9
            &&& final(client).incoming@ == old(client).incoming@
            &&& !accepted <==> r == HandshakeProgress::Refused
            &&& accepted && step < 8 <==> r == HandshakeProgress::Asked
            &&& accepted && step == 8 <==> r == HandshakeProgress::Done
            &&& r == HandshakeProgress::Asked ==> final(s).awaited() == step + 1
                && final(client).outgoing@ == final(plain).outgoing@
            &&& r != HandshakeProgress::Asked ==> final(s).awaited() == step
                && final(client).outgoing@ == old(client).outgoing@
        }),
{
    let t = reply@;
    lemma_holds(t, "PacketSize="@);
    lemma_holds(t, "64bit-core.xml"@);
    lemma_holds(t, "64bit-sse.xml"@);
    lemma_holds(t, "64bit-seg.xml"@);
    lemma_holds(t, "rip"@);
    lemma_holds(t, "rsp"@);
    lemma_holds(t, "rbp"@);
    lemma_holds(t, "rcx"@);
    lemma_holds(t, "gs_base"@);
    lemma_holds(t, "fs_base"@);
    reveal_strlit("l");
    reveal_strlit("m");
    reveal_strlit("");
    if t.len() > 0 {
        assert(t.take(1)[0] == t[0]);
        if t[0] == 'l' {
            assert(t.take(1) =~= "l"@);
        }
        if t[0] == 'm' {
            assert(t.take(1) =~= "m"@);
        }
    } else {
        assert(t =~= ""@);
    }
}

/// The requests of the handshake, in their order.
pub proof fn law_handshake_requests(step: usize, r: &'static str)
    requires
        call_ensures(handshake_request, (step,), r),
    ensures
        step == 0 ==> r@ == "QStartNoAckMode"@,
        step == 1 ==> r@ == "QThreadSuffixSupported"@,
        step == 2 ==> r@
            == "qSupported:multiprocess+;swbreak+;hwbreak+;no-resumed+;xmlRegisters=i386"@,
        step == 3 ==> r@ == "qRegisterInfo0"@,
        step == 4 ==> r@ == "qXfer:features:read:target.xml:0,fff"@,
        step == 5 ==> r@ == "qXfer:features:read:64bit-core.xml:0,fff"@,
        step == 6 ==> r@ == "qXfer:features:read:64bit-seg.xml:0,fff"@,
        step == 7 ==> r@ == "QListThreadsInStopReply"@,
        step == 8 ==> r@ == "x0,0"@,
{
}

} // verus!
