//! Persistable UI state: `table_state()` snapshots
//! the column layout + sort, `on_state_change` fires on every layout mutation
//! so a consumer can persist it, and `restore_state` re-applies a saved one.

use rdom_tui::{NodeId, TuiDom};
use rdom_virtualtable::{Column, SortDir, SortSpec, TableState, VirtualTable, VirtualTableView};

/// The number that a text spells, by its bits.
fn read(s: &str) -> Option<u64> {
    s.trim().parse::<f64>().ok().map(|n| n.to_bits())
}

fn mounted_view() -> (VirtualTableView, TuiDom, NodeId) {
    let mut model = VirtualTable::new(vec![
        Column::new("id"),
        Column::new("name"),
        Column::new("status"),
    ]);
    model.set_rows(
        (0..5)
            .map(|i| vec![format!("{i}").into(), format!("n{i}").into(), "ok".into()])
            .collect(),
    );
    let mut view = VirtualTableView::new(model);
    let mut dom = TuiDom::new();
    let root = dom.root();
    let table = view.mount(&mut dom);
    dom.append_child(root, table).unwrap();
    view.set_viewport_rows(5);
    view.show_window(&mut dom, 0, 5);
    (view, dom, table)
}

fn headers(s: &TableState) -> Vec<String> {
    s.columns.iter().map(|c| c.header.clone()).collect()
}

#[test]
fn table_state_snapshots_layout_and_sort() {
    let (mut view, mut dom, _t) = mounted_view();
    let s = view.table_state();
    assert_eq!(headers(&s), ["id", "name", "status"]);
    assert!(s.columns.iter().all(|c| c.width.is_none() && !c.hidden));
    assert_eq!(s.sort, None);

    view.sort(&mut dom, 1, SortDir::Descending, &read);
    view.set_column_width(&mut dom, 0, Some(6));
    view.set_column_hidden(&mut dom, 2, true);
    let s = view.table_state();
    assert_eq!(
        s.sort,
        Some(SortSpec {
            column: "name".into(),
            dir: SortDir::Descending
        })
    );
    assert_eq!(s.columns[0].width, Some(6));
    assert!(s.columns[2].hidden);
}

#[test]
fn on_state_change_fires_for_each_layout_mutation() {
    let (mut view, mut dom, _t) = mounted_view();
    view.on_state_change();

    view.sort(&mut dom, 0, SortDir::Ascending, &read);
    view.move_column(&mut dom, 0, 2);
    view.set_column_width(&mut dom, 0, Some(9));
    view.set_column_hidden(&mut dom, 1, true);
    view.clear_sort(&mut dom);
    let log = view.take_state_changes();
    assert_eq!(
        log.len(),
        5,
        "one notification per layout mutation"
    );
    assert_eq!(
        log.last().unwrap().sort,
        None,
        "last snapshot reflects the cleared sort"
    );
}

#[test]
fn restore_state_round_trips_order_widths_hidden_and_sort() {
    let (mut view, mut dom, _t) = mounted_view();
    view.move_column(&mut dom, 0, 2); // id → end: [name, status, id]
    view.set_column_width(&mut dom, 0, Some(7)); // name width
    view.set_column_hidden(&mut dom, 1, true); // hide status
    view.sort(&mut dom, 0, SortDir::Descending, &read); // sort by name desc
    let saved = view.table_state();
    assert_eq!(headers(&saved), ["name", "status", "id"]);

    // Fresh view in default order; restoring reproduces the saved layout exactly.
    let (mut view2, mut dom2, _t2) = mounted_view();
    view2.restore_state(&mut dom2, &saved, &read);
    assert_eq!(view2.table_state(), saved);
}

#[test]
fn restore_state_does_not_fire_the_save_callback() {
    let (mut view, mut dom, _t) = mounted_view();
    view.move_column(&mut dom, 0, 2);
    view.sort(&mut dom, 0, SortDir::Ascending, &read);
    let saved = view.table_state();

    let (mut view2, mut dom2, _t2) = mounted_view();
    view2.on_state_change();
    view2.restore_state(&mut dom2, &saved, &read);
    assert_eq!(
        view2.take_state_changes().len(),
        0,
        "restoring a saved state must not emit save notifications"
    );
}
