//! Checkpoints: ids, acknowledgements and the listing.

use ttd_gdbserver::gdb::checkpoint::{format_position, CheckpointTable};
use ttd_gdbserver::ttd::types::TtdPosition;

fn pos(sequence: u64, steps: u64) -> TtdPosition {
    TtdPosition { sequence, steps }
}

#[test]
fn format_position_matches_rr_when_syntax() {
    assert_eq!(format_position(pos(1, 0)), "1:0");
    assert_eq!(format_position(pos(0xA, 0x1F)), "A:1F");
    assert_eq!(format_position(pos(0xc0, 0x1f)), "C0:1F");
}

#[test]
fn insert_returns_parseable_acknowledgement() {
    let mut table = CheckpointTable::new();
    let (id, ack) = table.insert(pos(1, 0), "main.main");
    assert_eq!(id, 1);
    // Delve's parser: prefix "Checkpoint ", id up to the next space.
    assert_eq!(ack, "Checkpoint 1 at 1:0 main.main");
    assert_eq!(table.position(id), Some(pos(1, 0)));

    // No "where" string: no dangling space (Delve still finds the id).
    let (id2, ack2) = table.insert(pos(2, 5), "");
    assert_eq!(id2, 2);
    assert_eq!(ack2, "Checkpoint 2 at 2:5");
}

#[test]
fn ids_are_stable_and_monotonic() {
    let mut table = CheckpointTable::new();
    let (a, _) = table.insert(pos(1, 0), "a");
    let (b, _) = table.insert(pos(2, 0), "b");
    assert!(b > a);
    // Removing one must not renumber or resurrect an id.
    assert!(table.remove(a));
    assert_eq!(table.position(a), None);
    assert!(!table.remove(a));
    assert_eq!(table.position(b), Some(pos(2, 0)));
    let (c, _) = table.insert(pos(3, 0), "c");
    assert!(c > b, "ids must never be reused");
}

/// `Default` must behave exactly like `new()`: id 0 is "no checkpoint"
/// everywhere else in the stub, so a derived `Default` handing out 0
/// would be a silent trap.
#[test]
fn default_matches_new() {
    let mut table = CheckpointTable::default();
    let (id, ack) = table.insert(pos(1, 0), "a");
    assert_eq!(id, 1, "ids must start at 1");
    assert_eq!(ack, "Checkpoint 1 at 1:0 a");
}

#[test]
fn render_lists_checkpoints_in_id_order() {
    let mut table = CheckpointTable::new();
    let (_later_pos, _) = table.insert(pos(2, 0), "saved-later");
    let (_earlier_pos, _) = table.insert(pos(1, 0), "saved-first");
    let rendered = table.render();
    let lines: Vec<&str> = rendered.lines().collect();
    assert_eq!(lines[0], "Num\tWhen\tWhere");
    // Rows follow the id, not the insertion order and not the position.
    assert_eq!(lines[1], "1\t2:0\tsaved-later");
    assert_eq!(lines[2], "2\t1:0\tsaved-first");
}

#[test]
fn render_uses_dash_for_missing_where() {
    let mut table = CheckpointTable::new();
    table.insert(pos(1, 0), "");
    assert!(
        table.render().ends_with("1\t1:0\t-\n"),
        "{}",
        table.render()
    );
}

#[test]
fn empty_table_renders_header_only() {
    // Delve skips the header and expects zero rows.
    assert_eq!(CheckpointTable::new().render(), "Num\tWhen\tWhere\n");
}

#[test]
fn where_string_is_sanitized_for_row_format() {
    // `where_` comes hex-decoded from the client; embedded tabs/newlines
    // must not be able to forge extra `info checkpoints` columns or rows.
    let mut table = CheckpointTable::new();
    let (id, ack) = table.insert(pos(1, 0), "evil\trow\nforgery\r\n");
    assert_eq!(ack, "Checkpoint 1 at 1:0 evil row forgery  ");
    let rendered = table.render();
    let lines: Vec<&str> = rendered.lines().collect();
    assert_eq!(lines.len(), 2);
    assert_eq!(lines[1].split('\t').count(), 3, "{}", rendered);
    assert!(table.position(id).is_some());
}

#[test]
fn ids_grow_past_removed_ones() {
    let mut table = CheckpointTable::new();
    for expected in 1..=5u64 {
        let (id, _) = table.insert(pos(expected, 0), "");
        assert_eq!(id, expected);
        assert!(table.remove(id));
    }
    assert!(!table.is_full());
    assert_eq!(table.render(), "Num\tWhen\tWhere\n");
    assert!(!table.remove(0));
    assert_eq!(table.position(0), None);
}

#[test]
fn largest_positions_are_written_out() {
    assert_eq!(
        format_position(pos(u64::MAX, u64::MAX)),
        "FFFFFFFFFFFFFFFF:FFFFFFFFFFFFFFFF"
    );
}

#[test]
fn listing_has_one_line_per_checkpoint() {
    let mut table = CheckpointTable::new();
    for i in 0..12u64 {
        table.insert(pos(i, i), "here\nthere");
    }
    table.remove(3);
    let rendered = table.render();
    assert_eq!(rendered.lines().count(), 12);
    assert!(rendered.lines().all(|line| line.split('\t').count() == 3));
    assert!(rendered.ends_with("11\tA:A\there there\n12\tB:B\there there\n"), "{rendered}");
}
