//! One case of each law of the library.

use rdom_tui::{NodeId, TuiDom};
use rdom_virtualtable::hit::locate_cell;
use rdom_virtualtable::dom::BoxRect;
use rdom_virtualtable::input::key_action;
use rdom_virtualtable::{
    highlight_rules, CellValue, Column, Delta, GridCursor, GridSelection, KeyAction, Nav, Number,
    Row, RowKey, SelectionMode, SortDir, TableState, VirtualTable, VirtualTableView, WindowBuffer,
};

/// The number that a text spells, by its bits.
fn read(s: &str) -> Option<u64> {
    s.trim().parse::<f64>().ok().map(|n| n.to_bits())
}

fn number(n: f64) -> CellValue {
    CellValue::Number(Number {
        bits: n.to_bits(),
        text: format!("{n}"),
    })
}

fn model(rows: &[&[&str]], columns: &[&str]) -> VirtualTable {
    let mut t = VirtualTable::new(columns.iter().map(|c| Column::new(*c)).collect());
    t.set_rows(
        rows.iter()
            .map(|r| r.iter().map(|s| CellValue::from(*s)).collect())
            .collect(),
    );
    t
}

fn texts(t: &VirtualTable) -> Vec<Vec<String>> {
    t.rows()
        .iter()
        .map(|r| r.cells.iter().map(|c| c.display()).collect())
        .collect()
}

fn keys(t: &VirtualTable) -> Vec<String> {
    t.rows().iter().map(|r| r.key.to_string()).collect()
}

fn headers(t: &VirtualTable) -> Vec<String> {
    t.columns().iter().map(|c| c.header.clone()).collect()
}

fn mounted(t: VirtualTable, rows: u16) -> (VirtualTableView, TuiDom, NodeId) {
    let mut view = VirtualTableView::new(t);
    let mut dom = TuiDom::new();
    let table = view.mount(&mut dom);
    let root = dom.root();
    dom.append_child(root, table).unwrap();
    view.set_viewport_rows(rows);
    view.show_window(&mut dom, 0, rows as usize);
    (view, dom, table)
}

fn body_rows(dom: &TuiDom, table: NodeId) -> Vec<NodeId> {
    let tbody = dom
        .node(table)
        .children()
        .find(|c| c.node_name() == "tbody")
        .unwrap()
        .id();
    dom.node(tbody)
        .children()
        .filter(|c| !c.has_attribute("data-rdom-spacer"))
        .map(|c| c.id())
        .collect()
}

fn row(key: &str, text: &str) -> Row {
    Row::new(key, vec![CellValue::from(text)])
}

// Columns.

#[test]
fn moving_a_column_back_undoes_the_move() {
    let rows: &[&[&str]] = &[&["1", "2", "3", "4"], &["5", "6", "7", "8"]];
    let mut t = model(rows, &["a", "b", "c", "d"]);
    t.set_column_hidden(3, true);
    t.sort_by(1, SortDir::Descending, &read);
    let before = texts(&t);
    t.move_column(3, 1);
    assert_eq!(headers(&t), ["a", "d", "b", "c"]);
    assert!(t.is_column_hidden(1));
    assert_eq!(t.sort_state(), Some((2, SortDir::Descending)));
    t.move_column(1, 3);
    assert_eq!(texts(&t), before);
    assert_eq!(headers(&t), ["a", "b", "c", "d"]);
    assert!(t.is_column_hidden(3) && !t.is_column_hidden(1));
    assert_eq!(t.sort_state(), Some((1, SortDir::Descending)));
}

#[test]
fn the_cells_of_a_short_row_follow_their_headers() {
    let mut t = model(&[&["x", "y"], &["z"]], &["a", "b", "c"]);
    t.move_column(2, 0);
    assert_eq!(headers(&t), ["c", "a", "b"]);
    assert_eq!(t.rows()[0].cell(0), &CellValue::Empty);
    assert_eq!(t.rows()[0].cell(1), &CellValue::from("x"));
    assert_eq!(t.rows()[0].cell(2), &CellValue::from("y"));
    assert_eq!(t.rows()[1].cell(1), &CellValue::from("z"));
    t.move_column(0, 2);
    assert_eq!(headers(&t), ["a", "b", "c"]);
    for (r, c, text) in [(0, 0, "x"), (0, 1, "y"), (0, 2, ""), (1, 0, "z"), (1, 1, "")] {
        assert_eq!(t.rows()[r].cell(c).display(), text);
    }
    t.move_column(0, 2);
    assert_eq!(t.rows()[1].cell(2), &CellValue::from("z"));
    assert_eq!(t.rows()[1].cell(0), &CellValue::Empty);
}

// Sorting.

#[test]
fn sorting_keeps_rows_and_keys_together() {
    let mut t = model(&[&["b"], &["a"], &["c"]], &["x"]);
    t.sort_by(0, SortDir::Ascending, &read);
    assert_eq!(texts(&t), vec![vec!["a"], vec!["b"], vec!["c"]]);
    assert_eq!(keys(&t), ["1", "0", "2"]);
}

#[test]
fn sorting_again_changes_nothing() {
    let mut t = model(&[&["2", "x"], &["1", "y"], &["2", "z"]], &["n", "t"]);
    t.sort_by(0, SortDir::Descending, &read);
    let once = keys(&t);
    assert_eq!(once, ["0", "2", "1"]);
    t.sort_by(0, SortDir::Descending, &read);
    assert_eq!(keys(&t), once);
}

#[test]
fn clearing_the_sort_brings_pushed_rows_last() {
    let mut t = model(&[&["b"], &["a"]], &["x"]);
    t.sort_by(0, SortDir::Ascending, &read);
    t.push_row(vec!["0".into()]);
    assert_eq!(texts(&t), vec![vec!["a"], vec!["b"], vec!["0"]]);
    t.clear_sort();
    assert_eq!(texts(&t), vec![vec!["b"], vec!["a"], vec!["0"]]);
    assert_eq!(keys(&t), ["0", "1", "2"]);
    assert_eq!(t.sort_state(), None);
}

#[test]
fn like_cells_sort_by_their_measure() {
    let mut t = VirtualTable::new(vec![Column::new("n")]);
    t.set_rows(vec![
        vec![number(10.0)],
        vec![CellValue::Empty],
        vec![number(-2.5)],
        vec![number(9.0)],
    ]);
    t.sort_by(0, SortDir::Ascending, &read);
    assert_eq!(
        texts(&t),
        vec![vec![""], vec!["-2.5"], vec!["9"], vec!["10"]]
    );
    let mut t = VirtualTable::new(vec![Column::new("b")]);
    t.set_rows(vec![
        vec![CellValue::Bytes(2048)],
        vec![CellValue::Bytes(512)],
        vec![CellValue::Bytes(1 << 40)],
    ]);
    t.sort_by(0, SortDir::Descending, &read);
    assert_eq!(
        texts(&t),
        vec![vec!["1.0 TiB"], vec!["2.0 KiB"], vec!["512 B"]]
    );
}

#[test]
fn set_rows_keyed_keeps_the_given_keys() {
    let mut t = VirtualTable::new(vec![Column::new("a")]);
    t.set_rows_keyed(vec![row("k2", "b"), row("k1", "a")]);
    assert_eq!(keys(&t), ["k2", "k1"]);
    t.sort_by(0, SortDir::Ascending, &read);
    assert_eq!(keys(&t), ["k1", "k2"]);
    t.clear_sort();
    assert_eq!(keys(&t), ["k2", "k1"]);
}

#[test]
fn header_clicks_cycle_and_toggles_alternate() {
    let (mut view, mut dom, _) = mounted(model(&[&["b"], &["a"]], &["x"]), 4);
    view.cycle_sort(&mut dom, 0, &read);
    assert_eq!(view.sort_state(), Some((0, SortDir::Ascending)));
    view.cycle_sort(&mut dom, 0, &read);
    assert_eq!(view.sort_state(), Some((0, SortDir::Descending)));
    view.cycle_sort(&mut dom, 0, &read);
    assert_eq!(view.sort_state(), None);
    assert_eq!(view.with(|t| keys(t)), ["0", "1"]);
    view.toggle_sort(&mut dom, 0, &read);
    view.toggle_sort(&mut dom, 0, &read);
    assert_eq!(view.sort_state(), Some((0, SortDir::Descending)));
    view.toggle_sort(&mut dom, 0, &read);
    assert_eq!(view.sort_state(), Some((0, SortDir::Ascending)));
}

// The cursor.

#[test]
fn revealing_a_row_shows_it() {
    let c = GridCursor {
        row: 42,
        col: 0,
        scroll: 0,
    };
    assert_eq!(c.follow(10, 100).scroll, 33);
    assert_eq!(c.follow(10, 100).follow(10, 100).scroll, 33);
    let up = GridCursor { row: 5, ..c.follow(10, 100) };
    assert_eq!(up.follow(10, 100).scroll, 5);
}

#[test]
fn the_cursor_passes_over_hidden_columns() {
    let (mut view, mut dom, _) = mounted(model(&[&["1", "2", "3", "4"]], &["a", "b", "c", "d"]), 4);
    view.set_column_hidden(&mut dom, 1, true);
    view.set_column_hidden(&mut dom, 2, true);
    view.navigate(&mut dom, Nav::Right);
    assert_eq!(view.cursor().col, 3);
    view.set_column_hidden(&mut dom, 0, true);
    view.navigate(&mut dom, Nav::Left);
    assert_eq!(view.cursor().col, 3, "there is no visible column to the left");
}

#[test]
fn the_cursor_goes_with_its_column() {
    let (mut view, mut dom, _) = mounted(model(&[&["1", "2", "3"]], &["a", "b", "c"]), 4);
    view.set_cursor_at(&mut dom, 0, 1);
    view.move_column(&mut dom, 2, 0);
    assert_eq!(view.cursor().col, 2);
    assert_eq!(view.with(|t| headers(t)), ["c", "a", "b"]);
}

#[test]
fn the_last_visible_column_stays() {
    let (mut view, mut dom, _) = mounted(model(&[&["1", "2"]], &["a", "b"]), 4);
    view.set_column_hidden(&mut dom, 0, true);
    view.set_column_hidden(&mut dom, 1, true);
    assert!(view.with(|t| t.is_column_hidden(0) && !t.is_column_hidden(1)));
    view.set_column_hidden(&mut dom, 0, false);
    assert!(view.with(|t| !t.is_column_hidden(0) && !t.is_column_hidden(1)));
}

// Selection.

#[test]
fn toggling_flips_one_cell_and_twice_is_nothing() {
    for all in [false, true] {
        let mut s = GridSelection::new(SelectionMode::Cell);
        if all {
            s.select_all();
        }
        let (k, l) = (RowKey::new("k"), RowKey::new("l"));
        s.toggle(k.clone(), 1);
        assert_eq!(s.is_selected(7, 1, &k), !all);
        assert_eq!(s.is_selected(0, 1, &k), !all, "wherever the row stands");
        assert_eq!(s.is_selected(7, 1, &l), all);
        assert_eq!(s.is_selected(7, 2, &k), all);
        s.toggle(k.clone(), 1);
        assert_eq!(s.is_selected(7, 1, &k), all);
    }
}

#[test]
fn a_range_committed_twice_is_gone() {
    let key_at = |r: usize| Some(RowKey::new(format!("{r}")));
    let mut s = GridSelection::new(SelectionMode::Cell);
    s.toggle(RowKey::new("1"), 0);
    s.extend((0, 0), (1, 1));
    assert!(s.toggle_range(key_at));
    assert!(s.anchor().is_none());
    assert_eq!(s.explicit().len(), 4);
    s.extend((0, 0), (1, 1));
    assert!(s.toggle_range(key_at));
    assert!(s.explicit().is_empty() && !s.is_active());
}

#[test]
fn a_row_selection_ignores_the_column() {
    let mut s = GridSelection::new(SelectionMode::Row);
    let k = RowKey::new("k");
    s.toggle(k.clone(), 5);
    assert!(s.is_selected(0, 0, &k) && s.is_selected(0, 9, &k));
}

#[test]
fn a_toggled_row_stays_selected_through_a_sort() {
    let (mut view, mut dom, table) = mounted(model(&[&["b"], &["a"], &["c"]], &["x"]), 4);
    view.set_selection_mode(SelectionMode::Row);
    assert_eq!(view.selection_mode(), SelectionMode::Row);
    view.toggle_at(&mut dom, 0, 0);
    view.sort(&mut dom, 0, SortDir::Ascending, &read);
    let selected: Vec<bool> = (0..3).map(|r| view.is_cell_selected(r, 0)).collect();
    assert_eq!(selected, [false, true, false]);
    let marks: Vec<bool> = body_rows(&dom, table)
        .iter()
        .map(|&tr| dom.has_attribute(tr, "data-selected"))
        .collect();
    assert_eq!(marks, selected);
    assert_eq!(view.row_key_at(1), Some(RowKey::new("0")));
    assert_eq!(view.row_key_at(3), None);
    view.show_window(&mut dom, 1, 2);
    assert!(view.is_cell_selected(1, 0) && !view.is_cell_selected(0, 0));
}

// The window buffer and its requests.

#[test]
fn the_buffer_reads_back_what_was_put() {
    let mut b = WindowBuffer::new();
    b.set_total(100);
    b.set_window(10, vec![row("a", "1"), row("b", "2")]);
    assert_eq!(b.row_at(11).unwrap().cell(0).display(), "2");
    assert!(b.row_at(9).is_none() && b.row_at(12).is_none());
    assert!(b.upsert(row("b", "3")));
    assert_eq!(b.row_at(11).unwrap().cell(0).display(), "3");
    assert_eq!(b.row_at(10).unwrap().cell(0).display(), "1");
    assert!(!b.upsert(row("z", "0")));
    assert!(b.remove(&RowKey::new("b")));
    assert!(!b.remove(&RowKey::new("b")));
    assert!(!b.upsert(row("b", "4")));
    assert!(!b.is_loaded(11) && b.is_loaded(10));
    assert_eq!((b.total(), b.len(), b.epoch()), (100, 2, 0));
    assert_eq!((b.bump_epoch(), b.epoch()), (1, 1));
    b.clear_rows();
    assert_eq!((b.total(), b.len(), b.epoch()), (100, 0, 1));
}

#[test]
fn a_request_is_made_once_and_settled_by_its_answer() {
    let (mut view, mut dom, _) = mounted(VirtualTable::new(vec![Column::new("c")]), 4);
    view.on_window_change();
    view.set_total(&mut dom, 10);
    let first = view.take_requests();
    assert_eq!(first.len(), 1);
    assert_eq!(first[0].range, 0..6);
    view.show_window(&mut dom, 0, 4);
    assert!(view.take_requests().is_empty(), "not repeated");
    view.show_window(&mut dom, 6, 4);
    let second = view.take_requests();
    assert_eq!(second[0].range, 4..10);
    assert!(second[0].epoch > first[0].epoch);
    let late: Vec<Row> = (0..6).map(|i| row(&format!("{i}"), "late")).collect();
    view.apply(
        &mut dom,
        first[0].epoch,
        Delta::Resync {
            start: 0,
            rows: late,
        },
    );
    assert!(view.take_requests().is_empty(), "a stale answer is dropped");
    assert_eq!(view.row_key_at(0), None);
    let rows: Vec<Row> = (4..10).map(|i| row(&format!("{i}"), "x")).collect();
    view.apply(&mut dom, second[0].epoch, Delta::Resync { start: 4, rows });
    view.show_window(&mut dom, 6, 4);
    assert!(view.take_requests().is_empty(), "the window is at hand");
    assert_eq!(view.row_key_at(9), Some(RowKey::new("9")));
    view.invalidate(&mut dom);
    let third = view.take_requests();
    assert_eq!(third.len(), 1, "requested anew");
    assert_eq!(view.row_key_at(9), None);
}

#[test]
fn an_update_in_place_keeps_the_selection() {
    let (mut view, mut dom, _) = mounted(VirtualTable::new(vec![Column::new("c")]), 4);
    view.set_selection_mode(SelectionMode::Cell);
    view.set_total(&mut dom, 2);
    let epoch = view.window_epoch();
    view.apply(
        &mut dom,
        epoch,
        Delta::Resync {
            start: 0,
            rows: vec![row("a", "1"), row("b", "2")],
        },
    );
    view.toggle_at(&mut dom, 1, 0);
    view.apply(
        &mut dom,
        epoch,
        Delta::Upsert {
            rows: vec![row("b", "3")],
        },
    );
    assert!(view.is_cell_selected(1, 0) && !view.is_cell_selected(0, 0));
    let keys: Vec<String> = view.selected_row_keys().iter().map(|k| k.to_string()).collect();
    assert_eq!(keys, ["b"]);
}

#[test]
fn a_patch_before_the_snapshot_of_its_epoch_changes_nothing() {
    let (mut view, mut dom, table) = mounted(VirtualTable::new(vec![Column::new("c")]), 4);
    view.on_window_change();
    view.set_total(&mut dom, 20);
    let rows: Vec<Row> = (0..6).map(|i| row(&format!("{i}"), "old")).collect();
    let epoch = view.window_epoch();
    view.apply(&mut dom, epoch, Delta::Resync { start: 0, rows });
    view.show_window(&mut dom, 4, 4);
    let epoch = view.window_epoch();
    assert_eq!(view.take_requests().last().map(|r| r.epoch), Some(epoch));
    let patch = || Delta::Upsert {
        rows: vec![row("4", "new")],
    };
    let first = |dom: &TuiDom| dom.node(body_rows(dom, table)[0]).text_content();
    view.apply(&mut dom, epoch, patch());
    assert_eq!(first(&dom), "old");
    view.apply(
        &mut dom,
        epoch,
        Delta::Remove {
            keys: vec![RowKey::new("4")],
        },
    );
    assert_eq!(first(&dom), "old");
    let rows: Vec<Row> = (2..10).map(|i| row(&format!("{i}"), "fresh")).collect();
    view.apply(&mut dom, epoch, Delta::Resync { start: 2, rows });
    view.apply(&mut dom, epoch, patch());
    assert_eq!(first(&dom), "new");
}

#[test]
fn a_stale_push_is_dropped_whatever_it_holds() {
    let (mut view, mut dom, _) = mounted(model(&[&["1"]], &["c"]), 4);
    let stale = view.window_epoch() + 1;
    view.apply(
        &mut dom,
        stale,
        Delta::Resync {
            start: usize::MAX,
            rows: vec![row("a", "1"), row("b", "2")],
        },
    );
    assert_eq!(view.row_key_at(0), Some(RowKey::new("0")));
}

#[test]
fn an_open_chooser_outlives_a_new_window_and_closes() {
    let (mut view, mut dom, table) = mounted(model(&[&["1"], &["2"]], &["c"]), 4);
    view.enable_column_actions(&mut dom);
    let nodes = dom.len();
    view.toggle_column_menu(&mut dom);
    view.show_window(&mut dom, 1, 4);
    assert!(view.is_column_menu_open());
    view.show_window(&mut dom, 0, 4);
    view.toggle_column_menu(&mut dom);
    assert_eq!(dom.len(), nodes);
    assert_eq!(body_rows(&dom, table).len(), 2);
}

#[test]
fn rows_of_the_model_cannot_be_patched() {
    let (mut view, mut dom, table) = mounted(model(&[&["1"], &["2"]], &["c"]), 4);
    let epoch = view.window_epoch();
    view.apply(
        &mut dom,
        epoch,
        Delta::Upsert {
            rows: vec![row("0", "9")],
        },
    );
    assert_eq!(dom.node(body_rows(&dom, table)[0]).text_content(), "1");
}

#[test]
fn pushed_rows_follow_a_moved_column() {
    let columns = vec![Column::new("a"), Column::new("b"), Column::new("c")];
    let (mut view, mut dom, table) = mounted(VirtualTable::new(columns), 4);
    view.set_total(&mut dom, 2);
    let epoch = view.window_epoch();
    let rows = vec![
        Row::new("k", vec!["1".into(), "2".into(), "3".into()]),
        Row::new("l", vec!["4".into()]),
    ];
    view.apply(&mut dom, epoch, Delta::Resync { start: 0, rows });
    view.move_column(&mut dom, 0, 2);
    assert_eq!(view.with(|t| headers(t)), ["b", "c", "a"]);
    let cells = |tr: NodeId| -> Vec<String> {
        dom.node(tr).children().map(|td| td.text_content()).collect()
    };
    let shown = body_rows(&dom, table);
    assert_eq!(cells(shown[0]), ["2", "3", "1"]);
    assert_eq!(cells(shown[1]), ["", "", "4"]);
}

#[test]
fn a_shrunken_total_shows_the_last_rows() {
    let (mut view, mut dom, table) = mounted(VirtualTable::new(vec![Column::new("c")]), 4);
    view.set_total(&mut dom, 100);
    view.show_window(&mut dom, 90, 4);
    view.set_total(&mut dom, 92);
    assert_eq!(view.window_start(), 90, "there are rows there still");
    view.set_total(&mut dom, 50);
    assert_eq!(view.window_start(), 46);
    assert_eq!(body_rows(&dom, table).len(), 4);
    view.set_total(&mut dom, 3);
    assert_eq!(view.window_start(), 0);
    assert_eq!(body_rows(&dom, table).len(), 3);
}

#[test]
fn extending_without_a_mode_does_nothing() {
    let (mut view, mut dom, _) = mounted(model(&[&["1"], &["2"]], &["c"]), 4);
    let moved = view.extend_selection(&mut dom, Nav::Down);
    assert!(!moved.changed && moved.scroll_to.is_none());
    assert_eq!(view.cursor().row, 0);
    view.set_selection_mode(SelectionMode::Cell);
    assert!(view.extend_selection(&mut dom, Nav::Down).changed);
    assert_eq!(view.cursor().row, 1);
}

// What is drawn.

#[test]
fn a_window_leaves_nothing_behind() {
    let rows: Vec<Vec<CellValue>> = (0..50).map(|i| vec![format!("{i}").into()]).collect();
    let mut t = VirtualTable::new(vec![Column::new("c")]);
    t.set_rows(rows);
    let (mut view, mut dom, table) = mounted(t, 5);
    let nodes = dom.len();
    for start in [10, 45, 0, 20] {
        view.show_window(&mut dom, start, 5);
        assert_eq!(dom.len(), nodes);
        let shown: Vec<String> = body_rows(&dom, table)
            .iter()
            .map(|&tr| dom.node(tr).text_content())
            .collect();
        let want: Vec<String> = (start..start + 5).map(|i| format!("{i}")).collect();
        assert_eq!(shown, want);
    }
    view.show_window(&mut dom, 48, 5);
    assert_eq!(view.mounted_row_count(), 2);
}

#[test]
fn a_table_opens_in_a_tree_of_its_own() {
    let t = model(&[&["1", "2"], &["3", "4"], &["5", "6"]], &["a", "b"]);
    let (view, dom, table) = VirtualTableView::in_new_tree(t, 2).unwrap();
    assert_eq!(view.mounted_row_count(), 2);
    let shown: Vec<String> = body_rows(&dom, table)
        .iter()
        .map(|&tr| dom.node(tr).text_content())
        .collect();
    assert_eq!(shown, ["12", "34"]);
    assert_eq!(dom.len(), 9 + 2 * 5);
    assert_eq!(dom.node(dom.root()).children().count(), 0);
}

#[test]
fn a_column_has_the_width_it_was_given() {
    let (mut view, mut dom, _) = mounted(model(&[&["1", "2"]], &["a", "b"]), 4);
    view.set_column_width(&mut dom, 1, Some(9));
    assert_eq!(view.column_width(&dom, 1), Some(9));
    assert_eq!(view.column_width(&dom, 0), Some(3), "as wide as its padded content");
    assert_eq!(view.column_width(&dom, 2), None);
    view.set_column_width(&mut dom, 1, None);
    assert_eq!(view.column_width(&dom, 1), Some(3));
}

#[test]
fn closing_the_chooser_leaves_nothing_behind() {
    let (mut view, mut dom, table) = mounted(model(&[&["1", "2"]], &["a", "b"]), 4);
    view.enable_column_actions(&mut dom);
    let nodes = dom.len();
    view.open_column_menu(&mut dom);
    assert_eq!(dom.len(), nodes + 1 + 3 * 2);
    assert!(dom.has_attribute(table, "data-vt-menu-open"));
    view.close_column_menu(&mut dom);
    assert_eq!(dom.len(), nodes);
    assert!(!dom.has_attribute(table, "data-vt-menu-open"));
    assert!(!view.is_column_menu_open());
}

#[test]
fn an_open_chooser_takes_the_keys() {
    let (mut view, mut dom, _) = mounted(model(&[&["1", "2"], &["3", "4"]], &["a", "b"]), 4);
    view.enable_column_actions(&mut dom);
    view.open_column_menu(&mut dom);
    assert!(view.on_key(&mut dom, "ArrowDown", false, false).handled);
    assert_eq!(view.cursor().row, 0, "the cursor stays");
    assert!(!view.on_key(&mut dom, "PageDown", false, false).handled);
    assert!(view.on_key(&mut dom, "Enter", false, false).handled);
    assert!(view.with(|t| t.is_column_hidden(1)), "the highlighted column is hidden");
    assert!(view.on_key(&mut dom, "Escape", false, false).handled);
    assert!(!view.is_column_menu_open());
    assert!(view.on_key(&mut dom, "ArrowDown", false, false).handled);
    assert_eq!(view.cursor().row, 1);
}

#[test]
fn keys_act_by_mode() {
    let off = SelectionMode::Off;
    let cell = SelectionMode::Cell;
    assert_eq!(key_action(false, off, " ", false, false), KeyAction::Ignore);
    assert_eq!(key_action(false, off, "j", false, false), KeyAction::Navigate(Nav::Down));
    assert_eq!(key_action(false, off, "j", true, false), KeyAction::Ignore);
    assert_eq!(key_action(false, cell, "j", true, false), KeyAction::Extend(Nav::Down));
    assert_eq!(key_action(false, cell, " ", false, false), KeyAction::ToggleSelection);
    assert_eq!(key_action(false, cell, "a", false, true), KeyAction::SelectAll);
    assert_eq!(key_action(false, cell, "a", false, false), KeyAction::Ignore);
    assert_eq!(key_action(false, cell, "Escape", false, false), KeyAction::ClearSelection);
    assert_eq!(key_action(true, cell, "k", false, false), KeyAction::MenuUp);
    assert_eq!(key_action(true, cell, " ", false, false), KeyAction::MenuActivate);
}

#[test]
fn a_point_is_limited_to_the_window() {
    let cell = |x: i32, y: i32| {
        Some(BoxRect {
            x,
            y,
            width: 4,
            height: 1,
        })
    };
    let rows = vec![vec![cell(0, 2), cell(4, 2)], vec![cell(0, 3), cell(4, 3)]];
    assert_eq!(locate_cell(&rows, 5, 3), Some((1, 1)));
    assert_eq!(locate_cell(&rows, 1, -9), Some((0, 0)));
    assert_eq!(locate_cell(&rows, 99, 99), Some((1, 1)));
    assert_eq!(locate_cell(&Vec::new(), 0, 0), None);
}

// The saved layout.

fn layout(state: &TableState) -> Vec<(String, Option<u16>, bool)> {
    state
        .columns
        .iter()
        .map(|c| (c.header.clone(), c.width, c.hidden))
        .collect()
}

#[test]
fn a_layout_comes_back_on_a_table_that_changed() {
    let rows: &[&[&str]] = &[&["1", "2", "3"]];
    let names = ["a", "b", "c"];
    let (mut view, mut dom, _) = mounted(model(rows, &names), 4);
    view.move_column(&mut dom, 2, 0);
    view.set_column_width(&mut dom, 1, Some(6));
    view.set_column_hidden(&mut dom, 2, true);
    view.sort(&mut dom, 1, SortDir::Descending, &read);
    let saved = view.table_state();

    let (mut other, mut tree, _) = mounted(model(rows, &names), 4);
    other.move_column(&mut tree, 0, 1);
    other.set_column_hidden(&mut tree, 2, true);
    other.set_column_width(&mut tree, 0, Some(3));
    other.on_state_change();
    other.restore_state(&mut tree, &saved, &read);
    assert_eq!(layout(&other.table_state()), layout(&saved));
    assert_eq!(other.table_state().sort, saved.sort);
    assert!(other.take_state_changes().is_empty());
}

#[test]
fn a_layout_comes_back_where_other_columns_are_hidden() {
    let rows: &[&[&str]] = &[&["1", "2"]];
    let (mut view, mut dom, _) = mounted(model(rows, &["a", "b"]), 4);
    view.set_column_hidden(&mut dom, 0, true);
    let saved = view.table_state();
    let (mut other, mut tree, _) = mounted(model(rows, &["a", "b"]), 4);
    other.set_column_hidden(&mut tree, 1, true);
    other.restore_state(&mut tree, &saved, &read);
    assert_eq!(other.table_state(), saved);
    assert!(other.with(|t| t.is_column_hidden(0) && !t.is_column_hidden(1)));
}

#[test]
fn the_last_flag_saved_under_a_header_decides() {
    let rows: &[&[&str]] = &[&["1", "2", "3"]];
    let (mut view, mut dom, _) = mounted(model(rows, &["x", "x", "y"]), 4);
    view.set_column_hidden(&mut dom, 0, true);
    let saved = view.table_state();
    assert_eq!(
        layout(&saved),
        vec![
            ("x".into(), None, true),
            ("x".into(), None, false),
            ("y".into(), None, false)
        ]
    );
    view.restore_state(&mut dom, &saved, &read);
    // The first column of a header is the one that is placed and flagged: here
    // the hidden one goes to the second place, and the first is shown.
    assert!(view.with(|t| !t.is_column_hidden(0) && t.is_column_hidden(1)));

    let mut other = saved.clone();
    other.columns[0].hidden = false;
    other.columns[1].hidden = true;
    view.restore_state(&mut dom, &other, &read);
    assert!(view.with(|t| t.is_column_hidden(0) && !t.is_column_hidden(1)));
}

#[test]
fn a_layout_without_columns_comes_back() {
    let (mut view, mut dom, _) = mounted(VirtualTable::new(Vec::new()), 4);
    let saved = view.table_state();
    view.restore_state(&mut dom, &saved, &read);
    assert_eq!(view.table_state(), saved);
}

#[test]
fn a_layout_that_hides_every_column_leaves_one_visible() {
    let rows: &[&[&str]] = &[&["1", "2"]];
    let (mut view, mut dom, _) = mounted(model(rows, &["a", "b"]), 4);
    let mut saved = view.table_state();
    for c in &mut saved.columns {
        c.hidden = true;
    }
    view.restore_state(&mut dom, &saved, &read);
    assert!(view.with(|t| t.is_column_hidden(0) && !t.is_column_hidden(1)));
}

// The default rules.

#[test]
fn default_rules_weigh_nothing() {
    let rules = highlight_rules();
    assert_eq!(rules.len(), 13);
    for r in &rules {
        let plain = r.selector == "table" || r.selector.starts_with("th[data-vt-overflow]");
        assert_eq!(r.selector.starts_with(":where("), !plain, "{}", r.selector);
    }
}
