//! The cursor and the keymap.

use rdom_virtualtable::{nav_for_key, GridCursor, Nav};

#[test]
fn down_increments_row_and_clamps_at_last() {
    let c = GridCursor::new().navigate(Nav::Down, 3, 2, 5);
    assert_eq!((c.row(), c.col()), (1, 0));
    // Already at the last row stays put.
    let c = c.at(2, 0, 3, 2).navigate(Nav::Down, 3, 2, 5);
    assert_eq!(c.row(), 2);
}

#[test]
fn up_saturates_at_zero() {
    let c = GridCursor::new().navigate(Nav::Up, 3, 2, 5);
    assert_eq!(c.row(), 0);
}

#[test]
fn left_right_clamp_to_columns() {
    let c = GridCursor::new()
        .navigate(Nav::Right, 3, 2, 5)
        .navigate(Nav::Right, 3, 2, 5); // clamp at col 1
    assert_eq!(c.col(), 1);
    let c = c.navigate(Nav::Left, 3, 2, 5).navigate(Nav::Left, 3, 2, 5);
    assert_eq!(c.col(), 0);
}

#[test]
fn top_and_bottom_jump_to_ends() {
    let c = GridCursor::new()
        .at(5, 0, 100, 2)
        .navigate(Nav::Bottom, 100, 2, 10);
    assert_eq!(c.row(), 99);
    let c = c.navigate(Nav::Top, 100, 2, 10);
    assert_eq!(c.row(), 0);
}

#[test]
fn page_moves_by_page_and_clamps() {
    let c = GridCursor::new().navigate(Nav::PageDown, 100, 2, 10);
    assert_eq!(c.row(), 10);
    let c = c.at(3, 0, 100, 2).navigate(Nav::PageUp, 100, 2, 10);
    assert_eq!(c.row(), 0); // 3 - 10 saturates
}

#[test]
fn follow_scrolls_when_cursor_leaves_window() {
    // Cursor below window pushes scroll down.
    let c = GridCursor::new().at(20, 0, 100, 2).follow(10, 100);
    assert_eq!(c.scroll(), 11); // 20 + 1 - 10
    // Cursor above window pulls scroll up.
    let c = c.at(5, 0, 100, 2).follow(10, 100);
    assert_eq!(c.scroll(), 5);
    // Cursor inside window leaves scroll alone.
    let c = c.at(8, 0, 100, 2).follow(10, 100);
    assert_eq!(c.scroll(), 5);
}

#[test]
fn follow_clamps_scroll_to_last_page() {
    let c = GridCursor::new().at(99, 0, 100, 2).follow(10, 100);
    // max_scroll = 100 - 10 = 90, not 99 + 1 - 10 = 90 — coincide here.
    assert_eq!(c.scroll(), 90);
    // Tiny dataset never scrolls.
    let c = GridCursor::new().at(2, 0, 3, 2).follow(10, 3);
    assert_eq!(c.scroll(), 0);
}

#[test]
fn navigate_reclamps_when_grid_shrinks() {
    // Cursor was deep; grid is now tiny — a no-op move re-clamps it.
    let c = GridCursor::new().at(50, 5, 100, 8);
    let c = c.navigate(Nav::Up, 3, 2, 5);
    assert!(c.row() < 3 && c.col() < 2, "got {:?}", (c.row(), c.col()));
}

#[test]
fn keymap_arrows_and_vim() {
    assert_eq!(nav_for_key("ArrowUp", false), Some(Nav::Up));
    assert_eq!(nav_for_key("k", false), Some(Nav::Up));
    assert_eq!(nav_for_key("ArrowDown", false), Some(Nav::Down));
    assert_eq!(nav_for_key("j", false), Some(Nav::Down));
    assert_eq!(nav_for_key("ArrowLeft", false), Some(Nav::Left));
    assert_eq!(nav_for_key("l", false), Some(Nav::Right));
    assert_eq!(nav_for_key("g", false), Some(Nav::Top));
    assert_eq!(nav_for_key("G", false), Some(Nav::Bottom));
    assert_eq!(nav_for_key("Home", false), Some(Nav::Top));
    assert_eq!(nav_for_key("End", false), Some(Nav::Bottom));
    assert_eq!(nav_for_key("PageDown", false), Some(Nav::PageDown));
}

#[test]
fn keymap_ignores_unknown_and_shift() {
    assert_eq!(nav_for_key("a", false), None);
    assert_eq!(nav_for_key("Enter", false), None);
    // Shift is reserved for range selection.
    assert_eq!(nav_for_key("ArrowDown", true), None);
}
