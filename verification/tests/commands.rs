//! `qRRCmd` and `vRun`.

use ttd_gdbserver::gdb::checkpoint::CheckpointTable;
use ttd_gdbserver::gdb::commands::{handle_qrrcmd, handle_vrun, CommandTarget};
use ttd_gdbserver::ttd::types::TtdPosition;

fn pos(sequence: u64, steps: u64) -> TtdPosition {
    TtdPosition { sequence, steps }
}

#[derive(Default)]
struct Stub {
    position: TtdPosition,
    lifetime: (TtdPosition, TtdPosition),
    gotos: Vec<TtdPosition>,
}

impl CommandTarget for Stub {
    fn position(&self) -> TtdPosition {
        self.position
    }

    fn lifetime(&self) -> (TtdPosition, TtdPosition) {
        self.lifetime
    }

    fn goto(&mut self, pos: TtdPosition) {
        self.gotos.push(pos);
        self.position = pos;
    }
}

#[test]
fn qrrcmd_when_formats_position() {
    let stub = Stub {
        position: pos(0xA, 0x1F),
        ..Default::default()
    };
    assert_eq!(
        "A:1F",
        handle_qrrcmd(&stub, &mut CheckpointTable::new(), ":when:-1")
    );
}

#[test]
fn qrrcmd_checkpoint_info_and_delete() {
    let mut backend = Stub {
        position: pos(1, 2),
        ..Default::default()
    };
    let mut checkpoints = CheckpointTable::new();

    let ack = handle_qrrcmd(&backend, &mut checkpoints, ":checkpoint:-1:61");
    assert_eq!("Checkpoint 1 at 1:2 a", ack);
    assert_eq!(
        handle_qrrcmd(&backend, &mut checkpoints, ":info checkpoints:-1"),
        "Num\tWhen\tWhere\n1\t1:2\ta\n"
    );

    // Moving the backend does not move the saved checkpoint.
    backend.position = pos(9, 9);
    let ack = handle_qrrcmd(&backend, &mut checkpoints, ":checkpoint:-1");
    assert_eq!("Checkpoint 2 at 9:9", ack);
    assert_eq!(
        "Deleted checkpoint 1",
        handle_qrrcmd(&backend, &mut checkpoints, ":delete checkpoint:-1:31")
    );
    assert_eq!(
        "No such checkpoint",
        handle_qrrcmd(&backend, &mut checkpoints, ":delete checkpoint:-1:31")
    );
}

#[test]
fn qrrcmd_unknown_is_empty() {
    let backend = Stub::default();
    assert_eq!(
        String::new(),
        handle_qrrcmd(&backend, &mut CheckpointTable::new(), ":bogus:-1")
    );
}

#[test]
fn vrun_position_start_and_checkpoint() {
    let mut backend = Stub {
        position: pos(5, 5),
        lifetime: (pos(1, 0), pos(9, 9)),
        ..Default::default()
    };
    let mut checkpoints = CheckpointTable::new();
    checkpoints.insert(pos(3, 4), "saved");

    // Explicit position.
    handle_vrun(&mut backend, &checkpoints, Some(b"a:0".as_slice()));
    assert_eq!(backend.position(), pos(0xA, 0));

    // No argument -> trace start.
    handle_vrun(&mut backend, &checkpoints, None);
    assert_eq!(backend.position(), pos(1, 0));

    // Checkpoint id (case-insensitive prefix).
    handle_vrun(&mut backend, &checkpoints, Some(b"C1".as_slice()));
    assert_eq!(backend.position(), pos(3, 4));

    // Unknown checkpoint / malformed position are rejected without panic.
    handle_vrun(&mut backend, &checkpoints, Some(b"c99".as_slice()));
    assert_eq!(backend.position(), pos(3, 4));

    handle_vrun(&mut backend, &checkpoints, Some(b"not-a-position".as_slice()));
    assert_eq!(backend.position(), pos(3, 4));
}

#[test]
fn when_can_be_handed_back_to_vrun() {
    let mut backend = Stub {
        position: pos(0xCAFE, 0x12),
        ..Default::default()
    };
    let mut checkpoints = CheckpointTable::new();
    let when = handle_qrrcmd(&backend, &mut checkpoints, ":when:-1");
    assert_eq!(when, "CAFE:12");
    backend.position = pos(0, 0);
    // A colon decides for a position, also where it starts with a `C`.
    handle_vrun(&mut backend, &checkpoints, Some(when.as_bytes()));
    assert_eq!(backend.position, pos(0xCAFE, 0x12));
    assert_eq!(backend.gotos, vec![pos(0xCAFE, 0x12)]);
}

#[test]
fn malformed_restarts_stay_where_they_are() {
    let mut backend = Stub {
        position: pos(5, 5),
        lifetime: (pos(1, 0), pos(9, 9)),
        ..Default::default()
    };
    let mut checkpoints = CheckpointTable::new();
    checkpoints.insert(pos(3, 4), "saved");
    for arg in [
        "1:", ":1", "x:1", "1:2:3", "c", "c-1", "c0x1", "1", "d1", "\u{fffd}", "c18446744073709551616",
    ] {
        handle_vrun(&mut backend, &checkpoints, Some(arg.as_bytes()));
        assert!(backend.gotos.is_empty(), "{arg}");
    }
    // White space around the argument does not matter.
    handle_vrun(&mut backend, &checkpoints, Some(b" \tc1\n".as_slice()));
    assert_eq!(backend.position, pos(3, 4));
    handle_vrun(&mut backend, &checkpoints, Some(b"  ".as_slice()));
    assert_eq!(backend.position, pos(1, 0));
    // Bytes that are not UTF-8 name nothing.
    handle_vrun(&mut backend, &checkpoints, Some(b"c1\xff".as_slice()));
    assert_eq!(backend.position, pos(1, 0));
}

#[test]
fn queries_leave_the_checkpoints_alone() {
    let backend = Stub::default();
    let mut checkpoints = CheckpointTable::new();
    checkpoints.insert(pos(1, 1), "a");
    let before = checkpoints.render();
    for query in [":when:-1", ":info checkpoints:-1", ":bogus:-1", "", ":delete checkpoint:-1:78"] {
        handle_qrrcmd(&backend, &mut checkpoints, query);
        assert_eq!(checkpoints.render(), before, "{query}");
    }
    assert_eq!(
        handle_qrrcmd(&backend, &mut checkpoints, ":delete checkpoint:-1"),
        "No such checkpoint"
    );
}
