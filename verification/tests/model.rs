//! The table model.

use rdom_virtualtable::{Column, Row, SortDir, VirtualTable};

/// The number that a text spells, by its bits.
fn read(s: &str) -> Option<u64> {
    s.trim().parse::<f64>().ok().map(|n| n.to_bits())
}

/// Display strings of column 0 across the rows (in current order).
fn col0(t: &VirtualTable) -> Vec<String> {
    t.rows().iter().map(|r| r.cell(0).display()).collect()
}
/// Display strings of a row's cells.
fn cells(r: &Row) -> Vec<String> {
    r.cells.iter().map(|c| c.display()).collect()
}
fn headers(t: &VirtualTable) -> Vec<&str> {
    t.columns().iter().map(|c| c.header.as_str()).collect()
}

#[test]
fn model_window_at_top() {
    assert_eq!(VirtualTable::window_for(10, 0, 100), (0, 10));
}
#[test]
fn model_window_near_end_clamps_count() {
    assert_eq!(VirtualTable::window_for(10, 95, 100), (95, 5));
}
#[test]
fn model_window_past_end_is_empty() {
    assert_eq!(VirtualTable::window_for(10, 200, 100), (100, 0));
}
#[test]
fn model_window_smaller_dataset_than_viewport() {
    assert_eq!(VirtualTable::window_for(50, 0, 7), (0, 7));
}

#[test]
fn model_model_row_bookkeeping() {
    let mut t = VirtualTable::new(vec![Column::new("a"), Column::new("b")]);
    assert!(t.is_empty());
    t.push_row(vec!["1".into(), "2".into()]);
    t.set_rows(vec![
        vec!["x".into(), "y".into()],
        vec!["p".into(), "q".into()],
    ]);
    assert_eq!(t.row_count(), 2);
    assert_eq!(t.columns().len(), 2);
}

#[test]
fn set_rows_assigns_stable_synthetic_keys() {
    let mut t = VirtualTable::new(vec![Column::new("a")]);
    t.set_rows(vec![vec!["b".into()], vec!["a".into()], vec!["c".into()]]);
    let keys_before: Vec<String> = t.rows().iter().map(|r| r.key.to_string()).collect();
    assert_eq!(keys_before, vec!["0", "1", "2"]);
    // A sort permutes rows but each keeps its key (selection can follow it).
    t.sort_by(0, SortDir::Ascending, &read);
    let keyed: Vec<(String, String)> = t
        .rows()
        .iter()
        .map(|r| (r.cell(0).display(), r.key.to_string()))
        .collect();
    assert_eq!(
        keyed,
        vec![
            ("a".into(), "1".into()),
            ("b".into(), "0".into()),
            ("c".into(), "2".into())
        ]
    );
}

#[test]
fn model_sort_by_orders_rows_both_directions_and_records_state() {
    let mut t = VirtualTable::new(vec![Column::new("a")]);
    t.set_rows(vec![
        vec!["banana".into()],
        vec!["apple".into()],
        vec!["cherry".into()],
    ]);
    t.sort_by(0, SortDir::Ascending, &read);
    assert_eq!(col0(&t), vec!["apple", "banana", "cherry"]);
    assert_eq!(t.sort_state(), Some((0, SortDir::Ascending)));
    t.sort_by(0, SortDir::Descending, &read);
    assert_eq!(col0(&t), vec!["cherry", "banana", "apple"]);
    assert_eq!(t.sort_state(), Some((0, SortDir::Descending)));
}

#[test]
fn clear_sort_restores_as_inserted_order() {
    let mut t = VirtualTable::new(vec![Column::new("a")]);
    t.set_rows(vec![
        vec!["banana".into()],
        vec!["apple".into()],
        vec!["cherry".into()],
    ]);
    t.sort_by(0, SortDir::Ascending, &read);
    assert_eq!(col0(&t), vec!["apple", "banana", "cherry"]);
    t.clear_sort();
    assert_eq!(col0(&t), vec!["banana", "apple", "cherry"]);
    assert_eq!(t.sort_state(), None);
    t.sort_by(0, SortDir::Descending, &read);
    assert_eq!(col0(&t), vec!["cherry", "banana", "apple"]);
}

#[test]
fn model_sort_is_numeric_aware() {
    // Lexical sort would give 1, 10, 2; numeric gives 1, 2, 10.
    let mut t = VirtualTable::new(vec![Column::new("n")]);
    t.set_rows(vec![vec!["10".into()], vec!["2".into()], vec!["1".into()]]);
    t.sort_by(0, SortDir::Ascending, &read);
    assert_eq!(col0(&t), vec!["1", "2", "10"]);
}

#[test]
fn model_sort_is_stable_for_equal_keys() {
    let mut t = VirtualTable::new(vec![Column::new("k"), Column::new("id")]);
    t.set_rows(vec![
        vec!["x".into(), "first".into()],
        vec!["x".into(), "second".into()],
        vec!["a".into(), "third".into()],
    ]);
    t.sort_by(0, SortDir::Ascending, &read);
    let ids: Vec<String> = t.rows().iter().map(|r| r.cell(1).display()).collect();
    assert_eq!(ids, vec!["third", "first", "second"]);
}

#[test]
fn model_sort_by_with_uses_a_custom_comparator() {
    let mut t = VirtualTable::new(vec![Column::new("a")]);
    t.set_rows(vec![
        vec!["bb".into()],
        vec!["a".into()],
        vec!["ccc".into()],
    ]);
    t.sort_by_with(0, SortDir::Ascending, |x, y| {
        x.display().len().cmp(&y.display().len())
    });
    assert_eq!(col0(&t), vec!["a", "bb", "ccc"]);
    assert_eq!(t.sort_state(), Some((0, SortDir::Ascending)));
}

#[test]
fn model_move_column_permutes_columns_and_every_row() {
    let mut t = VirtualTable::new(vec![Column::new("a"), Column::new("b"), Column::new("c")]);
    t.set_rows(vec![
        vec!["a0".into(), "b0".into(), "c0".into()],
        vec!["a1".into(), "b1".into(), "c1".into()],
    ]);
    t.move_column(0, 2); // a → end: [b, c, a]
    assert_eq!(headers(&t), ["b", "c", "a"]);
    assert_eq!(cells(&t.rows()[0]), ["b0", "c0", "a0"]);
    assert_eq!(cells(&t.rows()[1]), ["b1", "c1", "a1"]);
    t.move_column(2, 0); // a → front: [a, b, c]
    assert_eq!(headers(&t), ["a", "b", "c"]);
    assert_eq!(cells(&t.rows()[0]), ["a0", "b0", "c0"]);
}

#[test]
fn model_move_column_is_a_noop_for_invalid_or_equal_indices() {
    let mut t = VirtualTable::new(vec![Column::new("a"), Column::new("b")]);
    t.set_rows(vec![vec!["x".into(), "y".into()]]);
    t.move_column(0, 0);
    t.move_column(0, 9);
    t.move_column(9, 0);
    assert_eq!(headers(&t), ["a", "b"]);
    assert_eq!(cells(&t.rows()[0]), ["x", "y"]);
}

#[test]
fn model_move_column_remaps_the_sort_column() {
    let mut t = VirtualTable::new(vec![Column::new("a"), Column::new("b"), Column::new("c")]);
    t.set_rows(vec![vec!["1".into(), "2".into(), "3".into()]]);
    t.sort_by(2, SortDir::Ascending, &read);
    t.move_column(2, 0);
    assert_eq!(t.sort_state(), Some((0, SortDir::Ascending)));
}

#[test]
fn model_remapped_index_tracks_a_move() {
    assert_eq!(VirtualTable::remapped_index(0, 2, 0), 2);
    assert_eq!(VirtualTable::remapped_index(0, 2, 1), 0);
    assert_eq!(VirtualTable::remapped_index(0, 2, 2), 1);
    assert_eq!(VirtualTable::remapped_index(0, 2, 3), 3);
    assert_eq!(VirtualTable::remapped_index(2, 0, 2), 0);
    assert_eq!(VirtualTable::remapped_index(2, 0, 0), 1);
    assert_eq!(VirtualTable::remapped_index(2, 0, 1), 2);
    assert_eq!(VirtualTable::remapped_index(2, 0, 3), 3);
}

#[test]
fn hidden_columns_set_and_query() {
    let mut t = VirtualTable::new(vec![Column::new("a"), Column::new("b")]);
    assert!(!t.is_column_hidden(1));
    t.set_column_hidden(1, true);
    assert!(t.is_column_hidden(1));
    t.set_column_hidden(1, false);
    assert!(!t.is_column_hidden(1));
}

#[test]
fn hidden_columns_follow_a_reorder() {
    let mut t = VirtualTable::new(vec![Column::new("a"), Column::new("b"), Column::new("c")]);
    t.set_column_hidden(0, true);
    t.move_column(0, 2);
    assert!(t.is_column_hidden(2), "hidden index follows its column");
    assert!(!t.is_column_hidden(0));
}

#[test]
fn hidden_columns_lists_index_and_label_sorted() {
    let mut t = VirtualTable::new(vec![Column::new("a"), Column::new("b"), Column::new("c")]);
    assert!(t.hidden_columns().is_empty());
    t.set_column_hidden(2, true);
    t.set_column_hidden(0, true);
    assert_eq!(t.hidden_columns(), vec![(0, "a"), (2, "c")]);
}

#[test]
fn hidden_columns_skips_out_of_range_indices() {
    let mut t = VirtualTable::new(vec![Column::new("a")]);
    t.set_column_hidden(9, true);
    assert!(t.hidden_columns().is_empty());
}

#[test]
fn column_width_follows_a_reorder() {
    let mut t = VirtualTable::new(vec![Column::new("a"), Column::new("b"), Column::new("c")]);
    t.set_column_width(1, Some(20));
    assert_eq!(t.columns()[1].width, Some(20));
    t.move_column(1, 0);
    assert_eq!(t.columns()[0].width, Some(20), "width follows the column");
    assert_eq!(t.columns()[1].width, None);
}
