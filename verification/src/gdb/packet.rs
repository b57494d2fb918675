//! Packet-level helpers for the packets that the stub answers itself
//! (`qRRCmd`, `qGetTLSAddr`): argument parsing and the hex codec of their
//! payloads.

use vstd::prelude::*;
use vstd::utf8::{encode_utf8, is_ascii_chars, is_ascii_chars_encode_utf8};

use crate::text::digits::digit_char;
use crate::text::parse::{parse_radix, parsed};
use crate::text::split::{
    cut_once, lemma_one_piece, lemma_pieces_joined, pieces, split_on, split_once, trim_leading,
    without_leading,
};
use crate::text::utf8::{lemma_text_survives_lossy, lossy_text, text_lossy};
use crate::text::{char_texts, chars_of, string_of, tail_of, texts};

verus! {

/// The value of a hex digit byte, in either case.
pub open spec fn nibble(b: u8) -> Option<u8> {
    if 48 <= b <= 57 {
        Some((b - 48) as u8)
    } else if 97 <= b <= 102 {
        Some((b - 87) as u8)
    } else if 65 <= b <= 70 {
        Some((b - 55) as u8)
    } else {
        None
    }
}

/// Every byte is a hex digit.
pub open spec fn all_nibbles(s: Seq<u8>) -> bool {
    forall|i: int| 0 <= i < s.len() ==> nibble(#[trigger] s[i]) is Some
}

/// The byte at index `i` of the payload that the digit pairs of `s` spell.
pub open spec fn pair_value(s: Seq<u8>, i: int) -> u8 {
    (nibble(s[2 * i])->0 * 16 + nibble(s[2 * i + 1])->0) as u8
}

/// The payload that a hex string spells: none for an odd length or a
/// non-digit.
pub open spec fn hex_decoded(s: Seq<u8>) -> Option<Seq<u8>> {
    if s.len() % 2 == 0 && all_nibbles(s) {
        Some(Seq::new(s.len() / 2, |i: int| pair_value(s, i)))
    } else {
        None
    }
}

/// The lowercase hex text of a payload.
pub open spec fn hex_encoded(bytes: Seq<u8>) -> Seq<char> {
    Seq::new(
        2 * bytes.len(),
        |i: int|
            digit_char(
                (if i % 2 == 0 {
                    bytes[i / 2] / 16
                } else {
                    bytes[i / 2] % 16
                }) as nat,
                false,
            ),
    )
}

/// The text of a `qRRCmd` argument that spells hex.
pub open spec fn hex_argument(p: Seq<char>) -> Option<Seq<char>> {
    match hex_decoded(encode_utf8(p)) {
        Some(bytes) => Some(lossy_text(bytes)),
        None => None,
    }
}

/// New-style arguments: what is not hex stands for itself.
pub open spec fn decoded_or_raw(ps: Seq<Seq<char>>) -> Seq<Seq<char>> {
    ps.map_values(
        |p: Seq<char>|
            match hex_argument(p) {
                Some(t) => t,
                None => p,
            },
    )
}

/// Old-style arguments: what is not hex is dropped.
pub open spec fn decoded_only(ps: Seq<Seq<char>>) -> Seq<Seq<char>>
    decreases ps.len(),
{
    if ps.len() == 0 {
        Seq::empty()
    } else {
        let head = decoded_only(ps.drop_last());
        match hex_argument(ps.last()) {
            Some(t) => head.push(t),
            None => head,
        }
    }
}

/// The argument list of a `qRRCmd` packet, given its colon-separated pieces.
///
/// New style: a literal command, `-1`, hex arguments. Old style: everything
/// hex.
pub open spec fn qrrcmd_pieces_args(parts: Seq<Seq<char>>) -> Seq<Seq<char>> {
    if parts.len() >= 2 && parts[1] == seq!['-', '1'] {
        seq![parts[0]] + decoded_or_raw(parts.skip(2))
    } else {
        decoded_only(parts)
    }
}

/// The argument list of a `qRRCmd` packet.
pub open spec fn qrrcmd_args(rest: Seq<char>) -> Seq<Seq<char>> {
    let body = without_leading(rest, ':');
    if body.len() == 0 {
        Seq::empty()
    } else {
        qrrcmd_pieces_args(pieces(body, ':'))
    }
}

/// The thread id of a `qGetTLSAddr` thread fragment: hexadecimal, after an
/// optional `p<pid>.`.
pub open spec fn qpacket_tid(s: Seq<char>) -> Option<u64> {
    if s.len() > 0 && s[0] == 'p' {
        match cut_once(s.skip(1), '.') {
            Some((pid, tail)) => parsed(tail, 16),
            None => None,
        }
    } else {
        parsed(s, 16)
    }
}

fn nibble_of(b: u8) -> (r: Option<u8>)
    ensures
        r == nibble(b),
        r matches Some(v) ==> v < 16,
{
    if 48 <= b && b <= 57 {
        Some(b - 48)
    } else if 97 <= b && b <= 102 {
        Some(b - 87)
    } else if 65 <= b && b <= 70 {
        Some(b - 55)
    } else {
        None
    }
}

/// Decode the hex string that the protocol uses for binary-ish payloads.
/// `None` for odd length or non-hex digits.
pub fn decode_hex(s: &[u8]) -> (r: Option<Vec<u8>>)
    ensures
        (match r {
            Some(v) => hex_decoded(s@) == Some(v@),
            None => hex_decoded(s@) is None,
        }),
{
    if s.len() % 2 != 0 {
        return None;
    }
    let mut out: Vec<u8> = Vec::new();
    let mut i: usize = 0;
    while i < s.len()
        invariant
            s@.len() % 2 == 0,
            i <= s@.len(),
            i % 2 == 0,
            forall|j: int| 0 <= j < i ==> nibble(#[trigger] s@[j]) is Some,
            out@ == Seq::new((i / 2) as nat, |k: int| pair_value(s@, k)),
        decreases s.len() - i,
    {
        let hi = match nibble_of(s[i]) {
            Some(v) => v,
            None => {
                return None;
            },
        };
        let lo = match nibble_of(s[i + 1]) {
            Some(v) => v,
            None => {
                return None;
            },
        };
        let byte: u8 = hi * 16 + lo;
        assert(byte == pair_value(s@, (i / 2) as int));
        out.push(byte);
        i += 2;
        assert(out@ =~= Seq::new((i / 2) as nat, |k: int| pair_value(s@, k)));
    }
    Some(out)
}

/// Encode bytes as lowercase hex (the inverse of [`decode_hex`]).
pub fn encode_hex(bytes: &[u8]) -> (r: String)
    ensures
        r@ == hex_encoded(bytes@),
{
    let mut out = String::new();
    for i in 0..bytes.len()
        invariant
            out@ == hex_encoded(bytes@.take(i as int)),
    {
        let b = bytes[i];
        let hi: u8 = b / 16;
        let lo: u8 = b % 16;
        out.push(hex_digit(hi));
        out.push(hex_digit(lo));
        assert(out@ =~= hex_encoded(bytes@.take(i as int + 1)));
    }
    assert(bytes@.take(bytes@.len() as int) =~= bytes@);
    out
}

fn hex_digit(d: u8) -> (r: char)
    requires
        d < 16,
    ensures
        r == digit_char(d as nat, false),
{
    if d < 10 {
        (48 + d) as char
    } else {
        (87 + d) as char
    }
}

fn decode_argument(p: &[char]) -> (r: Option<String>)
    ensures
        (match r {
            Some(t) => hex_argument(p@) == Some(t@),
            None => hex_argument(p@) is None,
        }),
{
    let text = string_of(p);
    match decode_hex(text.as_str().as_bytes()) {
        Some(bytes) => Some(text_lossy(bytes.as_slice())),
        None => None,
    }
}

/// The argument list, from the colon-separated pieces of the packet.
pub fn args_from_pieces(parts: &[Vec<char>]) -> (r: Vec<String>)
    ensures
        texts(r@) == qrrcmd_pieces_args(char_texts(parts@)),
{
    let ghost ps = char_texts(parts@);
    let mut args: Vec<String> = Vec::new();
    if parts.len() >= 2 && parts[1].len() == 2 && parts[1][0] == '-' && parts[1][1] == '1' {
        assert(ps[1] =~= seq!['-', '1']);
        args.push(string_of(parts[0].as_slice()));
        assert(texts(args@) =~= seq![ps[0]]);
        for i in 2..parts.len()
            invariant
                ps == char_texts(parts@),
                parts@.len() >= 2,
                texts(args@) == seq![ps[0]] + decoded_or_raw(ps.subrange(2, i as int)),
        {
            let ghost before = args@;
            let arg = match decode_argument(parts[i].as_slice()) {
                Some(t) => t,
                None => string_of(parts[i].as_slice()),
            };
            let ghost p = ps[i as int];
            assert(arg@ == (match hex_argument(p) {
                Some(t) => t,
                None => p,
            }));
            args.push(arg);
            assert(texts(args@) =~= texts(before).push(arg@));
            assert(ps.subrange(2, i as int + 1) =~= ps.subrange(2, i as int).push(p));
            assert(decoded_or_raw(ps.subrange(2, i as int + 1)) =~= decoded_or_raw(
                ps.subrange(2, i as int),
            ).push(arg@));
        }
        assert(ps.subrange(2, ps.len() as int) =~= ps.skip(2));
        return args;
    }
    proof {
        if ps.len() >= 2 && ps[1] == seq!['-', '1'] {
            assert(parts@[1]@[0] == '-');
        }
        assert(ps.take(0) =~= Seq::empty());
        assert(texts(args@) =~= decoded_only(ps.take(0)));
    }
    for i in 0..parts.len()
        invariant
            ps == char_texts(parts@),
            texts(args@) == decoded_only(ps.take(i as int)),
    {
        let ghost before = args@;
        assert(ps.take(i as int + 1).drop_last() =~= ps.take(i as int));
        assert(ps.take(i as int + 1).last() == parts@[i as int]@);
        if let Some(t) = decode_argument(parts[i].as_slice()) {
            args.push(t);
            assert(texts(args@) =~= texts(before).push(t@));
        }
    }
    assert(ps.take(ps.len() as int) =~= ps);
    args
}

/// Parse `qRRCmd` arguments, handling both styles:
/// new: `:<cmd>:-1[:<hexarg>...]`, old: `:<hexcmd>[:<hexarg>...]`.
pub fn parse_qrrcmd_args(rest: &str) -> (r: Vec<String>)
    ensures
        texts(r@) == qrrcmd_args(rest@),
{
    let chars = chars_of(rest);
    let body = trim_leading(chars.as_slice(), ':');
    if body.len() == 0 {
        let none: Vec<String> = Vec::new();
        assert(texts(none@) =~= Seq::empty());
        return none;
    }
    let parts = split_on(body.as_slice(), ':');
    args_from_pieces(parts.as_slice())
}

/// Parse a `qGetTLSAddr` thread-id fragment like `p1.100` or `100` into the OS
/// thread id. The process id is not looked at.
pub fn parse_tid_from_qpacket(s: &str) -> (r: Option<u64>)
    ensures
        r == qpacket_tid(s@),
{
    let chars = chars_of(s);
    if chars.len() > 0 && chars[0] == 'p' {
        let rest = tail_of(chars.as_slice(), 1);
        return match split_once(rest.as_slice(), '.') {
            Some((_, tail)) => parse_radix(tail.as_slice(), 16),
            None => None,
        };
    }
    parse_radix(chars.as_slice(), 16)
}

/// Decoding undoes encoding.
pub proof fn law_hex_round_trip(bytes: Seq<u8>)
    ensures
        hex_encoded(bytes).len() == 2 * bytes.len(),
        hex_decoded(encode_utf8(hex_encoded(bytes))) == Some(bytes),
{
    let text = hex_encoded(bytes);
    lemma_hex_is_ascii(bytes);
    is_ascii_chars_encode_utf8(text);
    let s = encode_utf8(text);
    assert(s.len() == text.len());
    assert forall|i: int| 0 <= i < s.len() implies nibble(#[trigger] s[i]) == Some(
        (if i % 2 == 0 {
            bytes[i / 2] / 16
        } else {
            bytes[i / 2] % 16
        }) as u8,
    ) by {
        assert(s[i] == text[i] as u8);
    }
    assert(hex_decoded(s)->0 =~= bytes);
}

/// Hex text is made of ASCII digits.
proof fn lemma_hex_is_ascii(bytes: Seq<u8>)
    ensures
        is_ascii_chars(hex_encoded(bytes)),
        !hex_encoded(bytes).contains(':'),
        !hex_encoded(bytes).contains('-'),
{
}

/// Letter case does not matter to the decoder: digits of equal value decode to
/// equal bytes.
pub proof fn law_hex_ignores_case(a: Seq<u8>, b: Seq<u8>)
    requires
        a.len() == b.len(),
        forall|i: int| 0 <= i < a.len() ==> nibble(#[trigger] a[i]) == nibble(b[i]),
    ensures
        hex_decoded(a) == hex_decoded(b),
{
    if hex_decoded(a) is Some {
        assert forall|i: int| 0 <= i < b.len() implies nibble(#[trigger] b[i]) is Some by {
            assert(nibble(a[i]) is Some);
        }
        assert(hex_decoded(a)->0 =~= hex_decoded(b)->0);
    } else if hex_decoded(b) is Some {
        assert forall|i: int| 0 <= i < a.len() implies nibble(#[trigger] a[i]) is Some by {
            assert(nibble(b[i]) is Some);
        }
    }
}

/// The hex-encoded arguments of a `qRRCmd`, each behind a colon.
pub open spec fn hex_arguments(args: Seq<Seq<char>>) -> Seq<char>
    decreases args.len(),
{
    if args.len() == 0 {
        Seq::empty()
    } else {
        hex_arguments(args.drop_last()).push(':') + hex_encoded(encode_utf8(args.last()))
    }
}

/// The hex spelling of each text.
spec fn hex_pieces(args: Seq<Seq<char>>) -> Seq<Seq<char>> {
    args.map_values(|a: Seq<char>| hex_encoded(encode_utf8(a)))
}

proof fn lemma_hex_argument(a: Seq<char>)
    ensures
        hex_argument(hex_encoded(encode_utf8(a))) == Some(a),
        pieces(hex_encoded(encode_utf8(a)), ':') == seq![hex_encoded(encode_utf8(a))],
{
    law_hex_round_trip(encode_utf8(a));
    lemma_text_survives_lossy(a);
    lemma_hex_is_ascii(encode_utf8(a));
    lemma_one_piece(hex_encoded(encode_utf8(a)), ':');
}

proof fn lemma_argument_pieces(start: Seq<char>, args: Seq<Seq<char>>)
    ensures
        pieces(start + hex_arguments(args), ':') == pieces(start, ':') + hex_pieces(args),
    decreases args.len(),
{
    if args.len() == 0 {
        assert(start + hex_arguments(args) =~= start);
        assert(pieces(start, ':') + hex_pieces(args) =~= pieces(start, ':'));
    } else {
        let h = hex_encoded(encode_utf8(args.last()));
        let before = start + hex_arguments(args.drop_last());
        lemma_argument_pieces(start, args.drop_last());
        lemma_hex_argument(args.last());
        assert(start + hex_arguments(args) =~= before.push(':') + h);
        lemma_pieces_joined(before, ':', h);
        assert(pieces(start, ':') + hex_pieces(args) =~= pieces(before, ':') + seq![h]);
    }
}

proof fn lemma_decoded_only(args: Seq<Seq<char>>)
    ensures
        decoded_only(hex_pieces(args)) == args,
    decreases args.len(),
{
    if args.len() > 0 {
        lemma_decoded_only(args.drop_last());
        lemma_hex_argument(args.last());
        assert(hex_pieces(args).drop_last() =~= hex_pieces(args.drop_last()));
        assert(args =~= args.drop_last().push(args.last()));
    }
}

proof fn lemma_decoded_or_raw(args: Seq<Seq<char>>)
    ensures
        decoded_or_raw(hex_pieces(args)) == args,
{
    assert forall|i: int| 0 <= i < args.len() implies decoded_or_raw(hex_pieces(args))[i]
        == args[i] by {
        lemma_hex_argument(args[i]);
    }
    assert(decoded_or_raw(hex_pieces(args)) =~= args);
}

/// A new-style command comes back as it was sent: the literal command, the
/// marker `-1`, then hex-encoded arguments.
pub proof fn law_qrrcmd_new_style(command: Seq<char>, args: Seq<Seq<char>>)
    requires
        command.len() > 0,
        !command.contains(':'),
    ensures
        qrrcmd_args(seq![':'] + command + seq![':', '-', '1'] + hex_arguments(args)) == seq![command]
            + args,
{
    let rest = seq![':'] + command + seq![':', '-', '1'] + hex_arguments(args);
    let start = command.push(':') + seq!['-', '1'];
    let body = start + hex_arguments(args);
    assert(rest.skip(1) =~= body);
    assert(body[0] == command[0]);
    assert(command.contains(command[0]));
    lemma_without_leading(rest, ':');
    assert(without_leading(body, ':') == body);
    lemma_one_piece(command, ':');
    lemma_one_piece(seq!['-', '1'], ':');
    lemma_pieces_joined(command, ':', seq!['-', '1']);
    lemma_argument_pieces(start, args);
    let parts = pieces(body, ':');
    assert(parts =~= seq![command, seq!['-', '1']] + hex_pieces(args));
    assert(parts.skip(2) =~= hex_pieces(args));
    lemma_decoded_or_raw(args);
}

/// An old-style command comes back as it was sent: command and arguments all
/// hex-encoded.
pub proof fn law_qrrcmd_old_style(command: Seq<char>, args: Seq<Seq<char>>)
    requires
        command.len() > 0,
    ensures
        qrrcmd_args(hex_arguments(seq![command] + args)) == seq![command] + args,
{
    let all = seq![command] + args;
    let h = hex_encoded(encode_utf8(command));
    lemma_hex_argument(command);
    lemma_hex_is_ascii(encode_utf8(command));
    law_hex_round_trip(encode_utf8(command));
    if encode_utf8(command).len() == 0 {
        lemma_text_survives_lossy(command);
        assert(encode_utf8(command) =~= Seq::<u8>::empty());
        assert(encode_utf8(Seq::<char>::empty()) =~= Seq::<u8>::empty());
        lemma_text_survives_lossy(Seq::<char>::empty());
    }
    lemma_arguments_front(command, args);
    let rest = hex_arguments(all);
    let body = h + hex_arguments(args);
    assert(rest.skip(1) =~= body);
    assert(body[0] == h[0]);
    assert(h.contains(h[0]));
    lemma_without_leading(rest, ':');
    assert(without_leading(body, ':') == body);
    lemma_argument_pieces(h, args);
    let parts = pieces(body, ':');
    assert(parts =~= hex_pieces(all));
    if parts.len() >= 2 && parts[1] == seq!['-', '1'] {
        lemma_hex_is_ascii(encode_utf8(all[1]));
        assert(hex_pieces(all)[1] == hex_encoded(encode_utf8(all[1])));
        assert(parts[1][0] == '-');
        assert(hex_encoded(encode_utf8(all[1])).contains('-'));
    }
    lemma_decoded_only(all);
}

proof fn lemma_without_leading(s: Seq<char>, c: char)
    requires
        s.len() > 0,
        s[0] == c,
    ensures
        without_leading(s, c) == without_leading(s.skip(1), c),
{
}

proof fn lemma_arguments_front(command: Seq<char>, args: Seq<Seq<char>>)
    ensures
        hex_arguments(seq![command] + args) == seq![':'] + hex_encoded(encode_utf8(command))
            + hex_arguments(args),
    decreases args.len(),
{
    let all = seq![command] + args;
    let h = hex_encoded(encode_utf8(command));
    if args.len() == 0 {
        assert(all.drop_last() =~= Seq::<Seq<char>>::empty());
        assert(hex_arguments(Seq::<Seq<char>>::empty()) =~= Seq::<char>::empty());
        assert(hex_arguments(all) =~= seq![':'] + h + hex_arguments(args));
    } else {
        lemma_arguments_front(command, args.drop_last());
        assert(all.drop_last() =~= seq![command] + args.drop_last());
        assert(hex_arguments(all) =~= seq![':'] + h + hex_arguments(args));
    }
}

} // verus!
