use ttd_gdbserver::client::{
    command_text, handshake_request, show_monitor_packet, Handshake, HandshakeProgress, RspClient,
    HANDSHAKE_REQUESTS,
};
use ttd_gdbserver::gdb::packet::encode_hex;
use ttd_gdbserver::gdb::target::GdbTarget;
use ttd_gdbserver::rsp::{frame, receive};
use ttd_gdbserver::target::mock::MockTarget;

/// The payload of the only packet that a client has sent since.
fn sent(client: &mut RspClient) -> String {
    let bytes = std::mem::take(&mut client.outgoing);
    let (body, n) = receive(&bytes).expect("a packet");
    assert_eq!(n, bytes.len());
    String::from_utf8(body).unwrap()
}

#[test]
fn requests_are_framed() {
    let mut c = RspClient::new();
    c.send("?");
    assert_eq!(c.outgoing, b"$?#3f");
    c.outgoing.clear();
    c.qrrcmd("info checkpoints:-1");
    assert_eq!(sent(&mut c), "qRRCmd:info checkpoints:-1");
    c.qrrcmd_hex("when");
    assert_eq!(sent(&mut c), "qRRCmd:7768656e");
    c.when();
    assert_eq!(sent(&mut c), "qRRCmd:when:-1");
    c.vrun("c1");
    assert_eq!(sent(&mut c), "vRun;;6331");
    c.monitor("ttd");
    assert_eq!(c.outgoing[0], b'+');
    assert_eq!(sent(&mut c), "qRcmd,747464");
}

#[test]
fn replies_are_read_one_by_one() {
    let mut c = RspClient::new();
    assert_eq!(c.recv(), None);
    c.feed(b"+");
    c.feed(&frame(b"OK"));
    c.feed(&frame(b"0*\"")[..3]);
    assert_eq!(c.recv(), Some(b"OK".to_vec()));
    assert_eq!(c.recv(), None);
    c.feed(&frame(b"0*\"")[3..]);
    assert_eq!(c.recv(), Some(b"000000".to_vec()));
    assert!(c.incoming.is_empty());
}

#[test]
fn command_replies_are_text() {
    assert_eq!(command_text("313a61"), Some("1:a".to_string()));
    assert_eq!(command_text(""), Some(String::new()));
    assert_eq!(command_text("ff"), None);
}

#[test]
fn when_reads_the_position() {
    let mut c = RspClient::new();
    let mut t = GdbTarget::new(MockTarget::new(), false);
    c.when();
    let request = sent(&mut c);
    let reply = t.handle_unknown_packet(request.as_bytes()).reply;
    let new_style = command_text(&reply);
    c.qrrcmd_hex("when");
    let request = sent(&mut c);
    let reply = t.handle_unknown_packet(request.as_bytes()).reply;
    assert_eq!(command_text(&reply), new_style);
    assert!(new_style.unwrap().contains(':'));
}

#[test]
fn monitor_output_is_joined() {
    let mut shown = String::new();
    for part in ["one\n", "", "tw", "o\n"] {
        let packet = format!("O{}", encode_hex(part.as_bytes()));
        assert!(show_monitor_packet(&mut shown, packet.as_bytes()));
    }
    assert!(!show_monitor_packet(&mut shown, b"OK"));
    assert_eq!(shown, "one\ntwo\n");

    assert!(show_monitor_packet(&mut shown, b"Ozz"));
    assert!(!show_monitor_packet(&mut shown, b"E01"));
    assert_eq!(shown, "one\ntwo\nzzE01");
}

const DOCUMENT: &str = "l<target>64bit-core.xml 64bit-sse.xml 64bit-seg.xml</target>";

fn good_reply(step: usize) -> &'static str {
    match step {
        0 => "OK",
        2 => "PacketSize=1000;QStartNoAckMode+",
        4 => DOCUMENT,
        5 => "mrip rsp rbp rcx",
        6 => "lfs_base gs_base",
        _ => "",
    }
}

#[test]
fn handshake_asks_in_order() {
    let mut c = RspClient::new();
    let mut h = Handshake::start(&mut c);
    assert_eq!(c.outgoing[0], b'+');
    for step in 0..HANDSHAKE_REQUESTS {
        assert_eq!(sent(&mut c), handshake_request(step));
        let progress = h.on_reply(good_reply(step), &mut c);
        if step + 1 == HANDSHAKE_REQUESTS {
            assert_eq!(progress, HandshakeProgress::Done);
            assert!(c.outgoing.is_empty());
        } else {
            assert_eq!(progress, HandshakeProgress::Asked);
        }
    }
    assert_eq!(handshake_request(8), "x0,0");
}

#[test]
fn handshake_refuses_a_wrong_reply() {
    for (step, wrong) in [
        (0, ""),
        (1, "OK"),
        (2, "QStartNoAckMode+"),
        (3, "name:rax;"),
        (4, "l64bit-core.xml 64bit-sse.xml"),
        (4, "E01 64bit-core.xml 64bit-sse.xml 64bit-seg.xml"),
        (5, "lrip rsp rbp"),
        (6, "lfs_base"),
        (7, "OK"),
        (8, "OK"),
    ] {
        let mut c = RspClient::new();
        let mut h = Handshake::start(&mut c);
        for before in 0..step {
            assert_eq!(h.on_reply(good_reply(before), &mut c), HandshakeProgress::Asked);
        }
        c.outgoing.clear();
        assert_eq!(h.on_reply(wrong, &mut c), HandshakeProgress::Refused);
        assert!(c.outgoing.is_empty());
        assert_eq!(
            h.on_reply(good_reply(step), &mut c) == HandshakeProgress::Refused,
            false
        );
    }
}

#[test]
fn sessions_pass_the_handshake() {
    let mut t = GdbTarget::new(MockTarget::new(), false);
    for step in [1, 7] {
        let request = handshake_request(step);
        assert_eq!(t.handle_unknown_packet(request.as_bytes()).reply, good_reply(step));
    }
}
