//! The window buffer.

use rdom_virtualtable::{CellValue, Row, WindowBuffer};

fn row(key: &str, v: &str) -> Row {
    Row::new(key, vec![CellValue::from(v)])
}

#[test]
fn set_window_indexes_by_absolute_position() {
    let mut b = WindowBuffer::new();
    b.set_window(10, vec![row("a", "A"), row("b", "B"), row("c", "C")]);
    assert_eq!(b.len(), 3);
    assert_eq!(b.row_at(10).map(|r| r.key.clone()), Some("a".into()));
    assert_eq!(b.row_at(12).map(|r| r.key.clone()), Some("c".into()));
    assert_eq!(b.key_at(11), Some(&"b".into()));
    assert_eq!(b.row_at(9), None, "below the start offset");
}

#[test]
fn indices_outside_the_window_are_placeholders() {
    let mut b = WindowBuffer::new();
    b.set_window(5, vec![row("a", "A"), row("b", "B")]); // covers 5..7
    assert!(!b.is_loaded(4), "below the window");
    assert!(b.is_loaded(5));
    assert!(b.is_loaded(6));
    assert!(!b.is_loaded(7), "above the window");
    assert_eq!(b.row_at(4), None);
    assert_eq!(b.key_at(99), None);
}

#[test]
fn set_window_replaces_old_coverage_and_reindexes() {
    let mut b = WindowBuffer::new();
    b.set_window(0, vec![row("a", "A"), row("b", "B")]);
    b.set_window(100, vec![row("x", "X")]);
    assert_eq!(b.len(), 1);
    assert_eq!(b.row_at(100).map(|r| r.key.clone()), Some("x".into()));
    assert!(!b.is_loaded(0), "old window no longer covered");
}

#[test]
fn total_is_independent_of_buffered_span() {
    let mut b = WindowBuffer::new();
    b.set_total(100_000);
    b.set_window(0, vec![row("a", "A")]);
    assert_eq!(b.total(), 100_000);
    assert_eq!(b.len(), 1, "only one row buffered for a 100k total");
}

#[test]
fn epoch_is_monotonic() {
    let mut b = WindowBuffer::new();
    assert_eq!(b.epoch(), 0);
    assert_eq!(b.bump_epoch(), 1);
    assert_eq!(b.bump_epoch(), 2);
    assert_eq!(b.epoch(), 2);
}

#[test]
fn upsert_patches_in_place_and_ignores_unknown_keys() {
    let mut b = WindowBuffer::new();
    b.set_window(0, vec![row("a", "A"), row("b", "B")]);
    assert!(b.upsert(row("b", "B2")), "key in window → patched");
    assert_eq!(b.row_at(1).map(|r| r.cell(0).display()), Some("B2".into()));
    assert!(!b.upsert(row("z", "Z")), "key not in window → ignored (N2)");
    assert_eq!(b.len(), 2, "ignored upsert adds no slot");
}

#[test]
fn upsert_before_resync_is_a_noop() {
    let mut b = WindowBuffer::new();
    assert!(!b.upsert(row("a", "A")), "no Resync yet → nothing to patch");
    assert_eq!(b.len(), 0);
}

#[test]
fn remove_makes_the_slot_a_placeholder() {
    let mut b = WindowBuffer::new();
    b.set_window(10, vec![row("a", "A"), row("b", "B"), row("c", "C")]);
    assert!(b.remove(&"b".into()));
    assert!(!b.is_loaded(11), "removed slot is now a placeholder");
    assert!(b.is_loaded(10), "neighbours untouched");
    assert!(b.is_loaded(12));
    assert!(!b.remove(&"b".into()), "second remove is a no-op");
}

#[test]
fn clear_rows_keeps_total_and_epoch() {
    let mut b = WindowBuffer::new();
    b.set_total(50);
    b.bump_epoch();
    b.set_window(0, vec![row("a", "A")]);
    b.clear_rows();
    assert_eq!(b.len(), 0);
    assert_eq!(b.total(), 50, "total survives a row clear");
    assert_eq!(b.epoch(), 1, "epoch survives a row clear");
    assert!(!b.is_loaded(0), "no rows after clear");
}
