//! The table model, by the text of its cells.

use rdom_virtualtable::{Column, Row, SortDir, VirtualTable};

/// The number that a text spells, by its bits.
fn read(s: &str) -> Option<u64> {
    s.trim().parse::<f64>().ok().map(|n| n.to_bits())
}

#[test]
fn virtual_table_window_at_top() {
    assert_eq!(VirtualTable::window_for(10, 0, 100), (0, 10));
}

#[test]
fn virtual_table_window_near_end_clamps_count() {
    assert_eq!(VirtualTable::window_for(10, 95, 100), (95, 5));
}

#[test]
fn virtual_table_window_past_end_is_empty() {
    assert_eq!(VirtualTable::window_for(10, 200, 100), (100, 0));
}

#[test]
fn virtual_table_window_smaller_dataset_than_viewport() {
    assert_eq!(VirtualTable::window_for(50, 0, 7), (0, 7));
}

#[test]
fn virtual_table_model_row_bookkeeping() {
    let mut t = VirtualTable::new(vec![Column::new("a"), Column::new("b")]);
    assert!(t.is_empty());
    t.push_row(vec!["1".into(), "2".into()]);
    t.set_rows(vec![
        vec!["x".into(), "y".into()],
        vec!["p".into(), "q".into()],
    ]);
    assert_eq!(t.row_count(), 2);
    assert_eq!(t.columns().len(), 2);
}

fn col0(t: &VirtualTable) -> Vec<String> {
    t.rows().iter().map(|r| r.cell(0).display()).collect()
}

/// Texts of a row's cells.
fn cells(r: &Row) -> Vec<String> {
    r.cells.iter().map(|c| c.display()).collect()
}

#[test]
fn virtual_table_sort_by_orders_rows_both_directions_and_records_state() {
    let mut t = VirtualTable::new(vec![Column::new("a")]);
    t.set_rows(vec![
        vec!["banana".into()],
        vec!["apple".into()],
        vec!["cherry".into()],
    ]);
    t.sort_by(0, SortDir::Ascending, &read);
    assert_eq!(col0(&t), vec!["apple", "banana", "cherry"]);
    assert_eq!(t.sort_state(), Some((0, SortDir::Ascending)));
    t.sort_by(0, SortDir::Descending, &read);
    assert_eq!(col0(&t), vec!["cherry", "banana", "apple"]);
    assert_eq!(t.sort_state(), Some((0, SortDir::Descending)));
}

#[test]
fn virtual_table_sort_is_numeric_aware() {
    // Lexical sort would give 1, 10, 2; numeric gives 1, 2, 10.
    let mut t = VirtualTable::new(vec![Column::new("n")]);
    t.set_rows(vec![vec!["10".into()], vec!["2".into()], vec!["1".into()]]);
    t.sort_by(0, SortDir::Ascending, &read);
    assert_eq!(col0(&t), vec!["1", "2", "10"]);
}

#[test]
fn virtual_table_sort_is_stable_for_equal_keys() {
    // Equal sort keys keep their original relative order (stable sort).
    let mut t = VirtualTable::new(vec![Column::new("k"), Column::new("id")]);
    t.set_rows(vec![
        vec!["x".into(), "first".into()],
        vec!["x".into(), "second".into()],
        vec!["a".into(), "third".into()],
    ]);
    t.sort_by(0, SortDir::Ascending, &read);
    let ids: Vec<String> = t.rows().iter().map(|r| r.cell(1).display()).collect();
    assert_eq!(ids, vec!["third", "first", "second"]);
}

#[test]
fn virtual_table_sort_by_with_uses_a_custom_comparator() {
    let mut t = VirtualTable::new(vec![Column::new("a")]);
    t.set_rows(vec![
        vec!["bb".into()],
        vec!["a".into()],
        vec!["ccc".into()],
    ]);
    t.sort_by_with(0, SortDir::Ascending, |x, y| {
        x.display().len().cmp(&y.display().len())
    });
    assert_eq!(col0(&t), vec!["a", "bb", "ccc"]);
    assert_eq!(t.sort_state(), Some((0, SortDir::Ascending)));
}

fn headers(t: &VirtualTable) -> Vec<&str> {
    t.columns().iter().map(|c| c.header.as_str()).collect()
}

#[test]
fn virtual_table_move_column_permutes_columns_and_every_row() {
    let mut t = VirtualTable::new(vec![Column::new("a"), Column::new("b"), Column::new("c")]);
    t.set_rows(vec![
        vec!["a0".into(), "b0".into(), "c0".into()],
        vec!["a1".into(), "b1".into(), "c1".into()],
    ]);
    t.move_column(0, 2); // a → end: [b, c, a]
    assert_eq!(headers(&t), ["b", "c", "a"]);
    assert_eq!(cells(&t.rows()[0]), ["b0", "c0", "a0"]);
    assert_eq!(cells(&t.rows()[1]), ["b1", "c1", "a1"]);

    t.move_column(2, 0); // a → front: [a, b, c]
    assert_eq!(headers(&t), ["a", "b", "c"]);
    assert_eq!(cells(&t.rows()[0]), ["a0", "b0", "c0"]);
}

#[test]
fn virtual_table_move_column_is_a_noop_for_invalid_or_equal_indices() {
    let mut t = VirtualTable::new(vec![Column::new("a"), Column::new("b")]);
    t.set_rows(vec![vec!["x".into(), "y".into()]]);
    t.move_column(0, 0); // equal
    t.move_column(0, 9); // out of range
    t.move_column(9, 0);
    assert_eq!(headers(&t), ["a", "b"]);
    assert_eq!(cells(&t.rows()[0]), ["x", "y"]);
}

#[test]
fn virtual_table_move_column_remaps_the_sort_column() {
    let mut t = VirtualTable::new(vec![Column::new("a"), Column::new("b"), Column::new("c")]);
    t.set_rows(vec![vec!["1".into(), "2".into(), "3".into()]]);
    t.sort_by(2, SortDir::Ascending, &read); // sort column c (index 2)
    t.move_column(2, 0); // c moves to the front → sort follows to index 0
    assert_eq!(t.sort_state(), Some((0, SortDir::Ascending)));
}

#[test]
fn virtual_table_remapped_index_tracks_a_move() {
    // move 0 → 2: 0↦2, 1↦0, 2↦1, 3 unchanged
    assert_eq!(VirtualTable::remapped_index(0, 2, 0), 2);
    assert_eq!(VirtualTable::remapped_index(0, 2, 1), 0);
    assert_eq!(VirtualTable::remapped_index(0, 2, 2), 1);
    assert_eq!(VirtualTable::remapped_index(0, 2, 3), 3);
    // move 2 → 0: 2↦0, 0↦1, 1↦2, 3 unchanged
    assert_eq!(VirtualTable::remapped_index(2, 0, 2), 0);
    assert_eq!(VirtualTable::remapped_index(2, 0, 0), 1);
    assert_eq!(VirtualTable::remapped_index(2, 0, 1), 2);
    assert_eq!(VirtualTable::remapped_index(2, 0, 3), 3);
}
