//! The selection model.

use rdom_virtualtable::{GridSelection, RowKey, SelectionMode};

/// A synthetic row key for a view index — mirrors the in-memory filler's
/// per-row synthetic key, so tests can speak "the row at index N".
fn rk(i: usize) -> RowKey {
    RowKey::from(i.to_string())
}

#[test]
fn none_mode_selects_nothing() {
    let mut s = GridSelection::new(SelectionMode::Off);
    s.extend((0, 0), (5, 5));
    s.toggle(rk(1), 1);
    s.select_all();
    assert!(!s.is_active());
    assert!(!s.is_selected(1, 1, &rk(1)));
}

#[test]
fn cell_range_is_rectangular() {
    let mut s = GridSelection::new(SelectionMode::Cell);
    s.extend((1, 1), (3, 2)); // rows 1..3, cols 1..2
    assert!(s.is_selected(1, 1, &rk(1)));
    assert!(s.is_selected(3, 2, &rk(3)));
    assert!(s.is_selected(2, 1, &rk(2)));
    assert!(!s.is_selected(0, 1, &rk(0)), "row above range");
    assert!(!s.is_selected(2, 0, &rk(2)), "col left of range");
    assert!(!s.is_selected(4, 2, &rk(4)), "row below range");
    // Backwards extend normalizes (anchor may be > head).
    let mut s = GridSelection::new(SelectionMode::Cell);
    s.extend((3, 2), (1, 1));
    assert!(s.is_selected(2, 1, &rk(2)));
}

#[test]
fn row_mode_selects_whole_rows_ignoring_column() {
    let mut s = GridSelection::new(SelectionMode::Row);
    s.extend((1, 0), (3, 0)); // rows 1..3, any column
    assert!(s.is_selected(1, 0, &rk(1)));
    assert!(s.is_selected(2, 99, &rk(2)), "any column in a selected row");
    assert!(!s.is_selected(0, 0, &rk(0)));
    assert!(!s.is_selected(4, 0, &rk(4)));
}

#[test]
fn toggle_adds_and_removes() {
    let mut s = GridSelection::new(SelectionMode::Cell);
    s.toggle(rk(2), 2);
    assert!(s.is_selected(2, 2, &rk(2)));
    s.toggle(rk(2), 2);
    assert!(!s.is_selected(2, 2, &rk(2)));
    assert!(!s.is_active());
}

#[test]
fn explicit_selection_is_identity_keyed_survives_reindex() {
    // The durable toggle is keyed by RowKey, not position: the same key
    // stays selected even if its view index changes under a re-sort, and a
    // *different* key at the old index is not selected.
    let mut s = GridSelection::new(SelectionMode::Cell);
    s.toggle(rk(37), 1);
    assert!(s.is_selected(5, 1, &rk(37)), "key 37 selected at index 5");
    assert!(
        s.is_selected(0, 1, &rk(37)),
        "…and still selected after it moved to index 0"
    );
    assert!(
        !s.is_selected(5, 1, &rk(99)),
        "a different key now at index 5 is not selected"
    );
}

#[test]
fn row_toggle_keys_on_row_only() {
    let mut s = GridSelection::new(SelectionMode::Row);
    s.toggle(rk(2), 5);
    assert!(
        s.is_selected(2, 0, &rk(2)),
        "toggling a row selects every column"
    );
    assert!(s.is_selected(2, 9, &rk(2)));
}

#[test]
fn union_of_range_and_toggled() {
    let mut s = GridSelection::new(SelectionMode::Cell);
    s.extend((0, 0), (1, 1));
    s.toggle(rk(5), 5);
    assert!(s.is_selected(0, 0, &rk(0)), "range");
    assert!(s.is_selected(5, 5, &rk(5)), "toggled");
}

#[test]
fn select_all_predicate_and_clear() {
    let mut s = GridSelection::new(SelectionMode::Cell);
    s.select_all();
    assert!(s.is_all());
    assert!(
        s.is_selected(99, 99, &rk(99)),
        "anything matches the predicate"
    );
    s.clear();
    assert!(!s.is_active());
    assert!(!s.is_all());
    assert!(!s.is_selected(0, 0, &rk(0)));
}

#[test]
fn toggle_under_select_all_excepts_one_keeps_rest() {
    // Ctrl-A then deselect one cell: the predicate stays on, the deselected
    // cell goes to `except`, the rest remain selected.
    let mut s = GridSelection::new(SelectionMode::Cell);
    s.select_all();
    s.toggle(rk(3), 1); // deselect (3,1)
    assert!(s.is_all(), "predicate still active");
    assert!(
        !s.is_selected(3, 1, &rk(3)),
        "the excepted cell is deselected"
    );
    assert!(
        s.is_selected(3, 0, &rk(3)),
        "other column of the same row stays"
    );
    assert!(s.is_selected(8, 2, &rk(8)), "an unrelated cell stays");
    assert_eq!(s.except().len(), 1);
    // Toggling it back removes it from except.
    s.toggle(rk(3), 1);
    assert!(s.is_selected(3, 1, &rk(3)));
    assert!(s.except().is_empty());
}

#[test]
fn collapse_range_keeps_toggled() {
    let mut s = GridSelection::new(SelectionMode::Cell);
    s.toggle(rk(4), 4);
    s.extend((0, 0), (2, 2));
    s.collapse_transient();
    assert!(!s.is_selected(1, 1, &rk(1)), "range dropped");
    assert!(s.is_selected(4, 4, &rk(4)), "toggled kept");
}

#[test]
fn collapse_clears_select_all_keeps_toggled() {
    // A plain cursor move collapses the *transient* selections — an
    // in-progress range AND a Ctrl-A predicate — but the explicitly
    // toggled set survives until Esc.
    let mut s = GridSelection::new(SelectionMode::Cell);
    s.toggle(rk(4), 4);
    s.select_all(); // Ctrl-A (clears explicit, like a spreadsheet)
    s.collapse_transient();
    assert!(!s.is_all(), "predicate collapsed on a plain move");
    assert!(!s.is_selected(0, 0, &rk(0)));
    // Re-toggle then collapse: the toggle survives a plain move.
    s.toggle(rk(7), 1);
    s.collapse_transient();
    assert!(
        s.is_selected(7, 1, &rk(7)),
        "explicit toggles survive a plain move"
    );
}

#[test]
fn toggle_range_commits_the_rectangle() {
    let mut s = GridSelection::new(SelectionMode::Cell);
    s.extend((1, 1), (2, 2)); // live range rows 1..2, cols 1..2
    assert!(
        s.toggle_range(|r| Some(rk(r))),
        "there was a range to commit"
    );
    // The range is collapsed, but its cells are now in the durable set:
    assert!(s.anchor().is_none(), "range collapsed after commit");
    assert!(s.is_selected(1, 1, &rk(1)));
    assert!(s.is_selected(2, 2, &rk(2)));
    assert!(s.is_selected(1, 2, &rk(1)));
    // …so a plain move keeps them (they're explicit now, not a range).
    s.collapse_transient();
    assert!(
        s.is_selected(1, 1, &rk(1)),
        "committed range survives a plain move"
    );
    // Re-selecting the same rect and toggling again removes it as a unit.
    s.extend((1, 1), (2, 2));
    s.toggle_range(|r| Some(rk(r)));
    assert!(
        !s.is_selected(2, 2, &rk(2)),
        "toggling an already-selected range clears it"
    );
}

#[test]
fn toggle_range_builds_multiple_ranges() {
    let mut s = GridSelection::new(SelectionMode::Cell);
    s.extend((0, 0), (1, 0)); // range A
    s.toggle_range(|r| Some(rk(r)));
    s.extend((5, 1), (6, 2)); // range B (after moving + re-extending)
    s.toggle_range(|r| Some(rk(r)));
    assert!(s.is_selected(0, 0, &rk(0)), "range A held");
    assert!(s.is_selected(1, 0, &rk(1)), "range A held");
    assert!(s.is_selected(5, 1, &rk(5)), "range B held");
    assert!(s.is_selected(6, 2, &rk(6)), "range B held");
    assert!(
        !s.is_selected(3, 0, &rk(3)),
        "gap between ranges is unselected"
    );
}

#[test]
fn toggle_range_without_a_range_is_a_noop() {
    let mut s = GridSelection::new(SelectionMode::Cell);
    assert!(
        !s.toggle_range(|r| Some(rk(r))),
        "no range → caller falls back to single-cell"
    );
}

#[test]
fn toggle_range_skips_unresolvable_rows() {
    // A row index the resolver can't map (off the loaded window) is skipped,
    // not panicked or selected.
    let mut s = GridSelection::new(SelectionMode::Cell);
    s.extend((0, 0), (2, 0));
    s.toggle_range(|r| if r == 1 { None } else { Some(rk(r)) });
    assert!(s.is_selected(0, 0, &rk(0)));
    assert!(!s.is_selected(1, 0, &rk(1)), "unresolved row skipped");
    assert!(s.is_selected(2, 0, &rk(2)));
}

#[test]
fn toggle_range_in_row_mode_commits_whole_rows() {
    let mut s = GridSelection::new(SelectionMode::Row);
    s.extend((2, 0), (4, 0));
    s.toggle_range(|r| Some(rk(r)));
    assert!(s.is_selected(2, 9, &rk(2)), "row 2, any column");
    assert!(s.is_selected(4, 0, &rk(4)));
    assert!(!s.is_selected(5, 0, &rk(5)));
}

#[test]
fn set_mode_clears_selection() {
    let mut s = GridSelection::new(SelectionMode::Cell);
    s.select_all();
    s.set_mode(SelectionMode::Row);
    assert!(!s.is_active());
    assert_eq!(s.mode(), SelectionMode::Row);
}
