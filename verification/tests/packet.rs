//! Argument parsing and the hex codec.

use ttd_gdbserver::gdb::packet::{
    decode_hex, encode_hex, parse_qrrcmd_args, parse_tid_from_qpacket,
};

#[test]
fn qrrcmd_new_style_literal_command() {
    // Delve (>= 5.8) sends `qRRCmd:<cmd>:-1[:<hexarg>]`.
    assert_eq!(parse_qrrcmd_args(":when:-1"), vec!["when".to_string()]);
    assert_eq!(
        parse_qrrcmd_args(":info checkpoints:-1"),
        vec!["info checkpoints".to_string()]
    );
}

#[test]
fn qrrcmd_new_style_hex_arguments() {
    // "delete checkpoint 1" — the id arrives hex-encoded ("31").
    assert_eq!(
        parse_qrrcmd_args(":delete checkpoint:-1:31"),
        vec!["delete checkpoint".to_string(), "1".to_string()]
    );
    // A trailing empty argument stays empty (checkpoint without a
    // "where" string).
    assert_eq!(
        parse_qrrcmd_args(":checkpoint:-1:"),
        vec!["checkpoint".to_string(), String::new()]
    );
}

#[test]
fn qrrcmd_old_style_hex_command() {
    let when_hex = encode_hex(b"when");
    assert_eq!(parse_qrrcmd_args(&format!(":{when_hex}")), vec!["when"]);
}

#[test]
fn qrrcmd_empty_argument_list() {
    assert!(parse_qrrcmd_args("").is_empty());
    assert!(parse_qrrcmd_args(":").is_empty());
}

/// A command name may itself contain a colon-separated tail that is not
/// hex (e.g. a malformed client); it must degrade to the raw token rather
/// than vanishing from the list.
#[test]
fn qrrcmd_old_style_non_hex_token_is_dropped_not_mangled() {
    assert!(parse_qrrcmd_args(":zz:yy").is_empty());
}

#[test]
fn tid_from_qpacket() {
    assert_eq!(parse_tid_from_qpacket("p1.64"), Some(0x64));
    assert_eq!(parse_tid_from_qpacket("64"), Some(0x64));
    assert_eq!(parse_tid_from_qpacket("p1.dead"), Some(0xdead));
    // Missing pid separator / non-hex tid.
    assert_eq!(parse_tid_from_qpacket("p1"), None);
    assert_eq!(parse_tid_from_qpacket("nope"), None);
    assert_eq!(parse_tid_from_qpacket(""), None);
}

#[test]
fn hex_roundtrip() {
    assert_eq!(encode_hex(b"\x00\x0f\xff"), "000fff");
    assert_eq!(decode_hex(b"000fff").unwrap(), b"\x00\x0f\xff");
    assert_eq!(decode_hex(b"DEAD").unwrap(), b"\xde\xad");
    assert_eq!(encode_hex(b""), "");
}

#[test]
fn decode_hex_rejects_malformed_input() {
    assert_eq!(decode_hex(b"abc"), None, "odd length");
    assert_eq!(decode_hex(b"zz"), None, "non-hex digits");
}

#[test]
fn arguments_survive_both_styles() {
    let args = ["info checkpoints", "gr\u{fc}n", "", "a:b"];
    let mut new_style = format!(":{}:-1", args[0]);
    let mut old_style = format!(":{}", encode_hex(args[0].as_bytes()));
    for arg in &args[1..] {
        new_style.push_str(&format!(":{}", encode_hex(arg.as_bytes())));
        old_style.push_str(&format!(":{}", encode_hex(arg.as_bytes())));
    }
    assert_eq!(parse_qrrcmd_args(&new_style), args);
    assert_eq!(parse_qrrcmd_args(&old_style), args);
}

#[test]
fn what_is_not_hex_stands_for_itself_in_the_new_style() {
    assert_eq!(parse_qrrcmd_args(":checkpoint:-1:main.main"), vec!["checkpoint", "main.main"]);
    // Hex that is not UTF-8 is decoded with replacement characters.
    assert_eq!(parse_qrrcmd_args(":checkpoint:-1:61ff"), vec!["checkpoint", "a\u{fffd}"]);
}

#[test]
fn every_byte_survives_the_hex_codec() {
    let all: Vec<u8> = (0..=255).collect();
    let hex = encode_hex(&all);
    assert_eq!(hex.len(), 512);
    assert_eq!(decode_hex(hex.as_bytes()), Some(all.clone()));
    assert_eq!(decode_hex(hex.to_uppercase().as_bytes()), Some(all));
}
