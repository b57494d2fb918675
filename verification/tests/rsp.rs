//! The wire format, from the client's side.

use ttd_gdbserver::gdb::packet::encode_hex;
use ttd_gdbserver::rsp::{decode, frame, from_hex, monitor_chunk, receive, MonitorChunk};

#[test]
fn plain_bodies_stand_for_themselves() {
    assert_eq!(decode(b"T05thread:64;"), b"T05thread:64;");
    assert_eq!(decode(b""), b"");
}

#[test]
fn escapes_are_undone() {
    assert_eq!(decode(b"a}\x03b"), b"a#b");
    assert_eq!(decode(b"}\x5d"), b"}");
    // A single escape at the end has nothing to escape.
    assert_eq!(decode(b"a}"), b"a}");
}

#[test]
fn run_lengths_are_expanded() {
    // `0* ` is "0000": a space repeats three times.
    assert_eq!(decode(b"0* "), b"0000");
    // Nothing before the star: it stands for itself.
    assert_eq!(decode(b"* "), b"* ");
    assert_eq!(decode(b"ab*"), b"ab*");
    // Below the offset the length wraps around.
    assert_eq!(decode(&[b'x', b'*', 28]).len(), 256);
}

#[test]
fn packets_are_framed_with_their_checksum() {
    assert_eq!(frame(b"OK"), b"$OK#9a");
    assert_eq!(frame(b""), b"$#00");
    assert_eq!(frame(b"vRun;;613a30"), b"$vRun;;613a30#7f");
}

#[test]
fn what_is_sent_is_received() {
    let mut stream = b"+-+".to_vec();
    stream.extend_from_slice(&frame(b"qRRCmd:when:-1"));
    let n = stream.len();
    stream.extend_from_slice(b"$next");
    assert_eq!(receive(&stream), Some((b"qRRCmd:when:-1".to_vec(), n)));
}

#[test]
fn broken_packets_are_not_received() {
    assert_eq!(receive(b""), None);
    assert_eq!(receive(b"++"), None);
    assert_eq!(receive(b"x$OK#9a"), None);
    assert_eq!(receive(b"$OK"), None);
    assert_eq!(receive(b"$OK#9"), None);
    assert_eq!(receive(b"$OK#9b"), None);
    // The checksum may be in upper case.
    assert_eq!(receive(b"$OK#9A"), Some((b"OK".to_vec(), 6)));
}

#[test]
fn hex_texts_spell_bytes() {
    assert_eq!(from_hex("00fF7a"), vec![0x00, 0xff, 0x7a]);
    assert_eq!(from_hex("abc"), vec![0xab]);
    assert_eq!(from_hex(""), Vec::<u8>::new());
    assert_eq!(from_hex("+5"), vec![5]);
}

#[test]
fn monitor_replies_come_in_chunks() {
    assert!(matches!(monitor_chunk(b"OK"), MonitorChunk::Done));
    let output = format!("O{}", encode_hex(b"queries: 0\n"));
    match monitor_chunk(output.as_bytes()) {
        MonitorChunk::More(text) => assert_eq!(text, "queries: 0\n"),
        other => panic!("{other:?}"),
    }
    match monitor_chunk(b"Oops") {
        MonitorChunk::More(text) => assert_eq!(text, "ops"),
        other => panic!("{other:?}"),
    }
    match monitor_chunk(b"E01") {
        MonitorChunk::Last(text) => assert_eq!(text, "E01"),
        other => panic!("{other:?}"),
    }
    // What is not UTF-8 is no text.
    match monitor_chunk(b"\xff") {
        MonitorChunk::Last(text) => assert_eq!(text, ""),
        other => panic!("{other:?}"),
    }
}

#[test]
fn escaped_payloads_are_received() {
    // `#$}*` and a letter, each special byte escaped.
    let escaped = b"}\x03}\x04}\x5d}\x0aa";
    let packet = frame(escaped);
    assert_eq!(receive(&packet), Some((b"#$}*a".to_vec(), packet.len())));
}
