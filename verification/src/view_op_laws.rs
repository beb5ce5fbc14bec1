//! What the operations of a view do, from the view and the tree before and their
//! arguments to the view and the tree after and their results.

use rdom_tui::{NodeId, TuiDom};
use vstd::prelude::*;

use crate::chooser_laws::an_open_chooser_owns_the_keyboard;
use crate::column_laws::{
    a_sort_leaves_cursor_and_toggled_cells, a_width_is_given_to_one_column,
    hiding_changes_one_column,
};
use crate::columns::{relaid, sorted_grid};
use crate::cursor_laws::{
    a_click_extends_the_range, a_click_leaves_the_toggled_cells,
    a_click_selects_the_toggled_cells_alone, a_click_toggles_one_cell, is_held_as, key_of,
    keys_name_moves, on_a_cell, row_total,
};
use crate::data::{cell_text, reads_as, CellValue, Delta, Row};
use crate::dom::{dom_nodes, has_attr, has_tag, is_element, is_within, scroll_top_of};
use crate::draw_laws::{
    a_mounted_table_has_a_header_for_each_column, reads, rows_shown,
    windows_show_the_cells_of_their_rows,
};
use crate::grid::{request_view, GridView};
use crate::grid_cursor::{key_nav, Nav};
use crate::grid_op_laws::{leads_to, lemma_leads};
use crate::header::{all_labelled, Frame};
use crate::input::Handled;
use crate::input_laws::{
    a_key_moves_the_cursor, a_step_follows_the_cursor, clicks_open_and_close_the_chooser,
    keys_of_a_selection, keys_of_an_open_chooser, keys_select_all_and_nothing,
    keys_without_a_selection,
};
use crate::layout_laws::{
    is_first_column, is_last_saved, the_last_saved_width_decides, the_saved_sort_is_restored,
};
use crate::menu::{item_marks, Menu};
use crate::menu_laws::lemma_items_marked;
use crate::model::SortDir;
use crate::sort_laws::{cell_in, sorted_spans_rise_or_fall};
use crate::source_laws::{
    every_pushed_row_replaces_its_own, is_last_pushed, showing_a_window_moves_it,
};
use crate::state::TableState;
use crate::view::{header_cells, Moved, VirtualTableView};
use crate::window::WindowRequest;
use crate::window_laws::slot_at;

verus! {

/// Mounting a table puts a table element in the tree with a header for each column
/// and an empty body.
pub proof fn mounting_builds_a_header_for_each_column(
    v: &mut VirtualTableView,
    dom: &mut TuiDom,
    table: NodeId,
    c: int,
)
    requires
        old(v).wf(),
        call_ensures(VirtualTableView::mount, (v, dom), table),
        0 <= c < old(v).grid@.table.columns.len(),
    ensures
        final(v).frame is Some,
        ({
            let n = dom_nodes(*final(dom));
            let f = final(v).frame.unwrap();
            let columns = old(v).grid@.table.columns;
            &&& f.table == table
            &&& has_tag(n, table, "table"@)
            &&& n[table].children.len() == 2
            &&& has_tag(n, n[table].children[0], "thead"@)
            &&& n[table].children[1] == f.tbody
            &&& has_tag(n, f.tbody, "tbody"@)
            &&& n[f.tbody].children.len() == 0
            &&& n[n[table].children[0]].children.len() == 1
            &&& n[n[table].children[0]].children[0] == f.header_tr
            &&& n[f.header_tr].children.len() == columns.len()
            &&& n[f.header_tr].children[c] == f.header_cells@[c]
            &&& has_tag(n, f.header_cells@[c], "th"@)
            &&& reads(n, f.header_cells@[c], columns[c].header@)
        }),
        final(v).grid@ == old(v).grid@,
{
    a_mounted_table_has_a_header_for_each_column(
        dom_nodes(*final(dom)),
        final(v).frame.unwrap(),
        old(v).grid@.table.columns,
        c,
    );
}

/// Showing a window of a table that holds its rows shows them from `start`, as many
/// as asked for and as there are, each with the texts of its cells.
pub proof fn showing_a_window_shows_its_rows(
    v: &mut VirtualTableView,
    dom: &mut TuiDom,
    start: usize,
    count: usize,
    i: int,
    c: int,
)
    requires
        old(v).wf(),
        old(v).frame is Some,
        !old(v).grid@.windowed,
        old(v).grid@.table.rows.len() <= usize::MAX,
        call_ensures(VirtualTableView::show_window, (v, dom, start, count), ()),
        0 <= i < final(v).window.rows@.len(),
        0 <= c < old(v).grid@.table.columns.len(),
    ensures
        final(v).grid@.window_start == start,
        final(v).grid@.table == old(v).grid@.table,
        final(v).grid@.cursor == old(v).grid@.cursor,
        final(v).grid@.selection == old(v).grid@.selection,
        final(v).window.rows@.len() == rows_shown(final(v).grid@, start as int, count as int),
        final(v).grid@.buffer.total == old(v).grid@.table.rows.len(),
        ({
            let n = dom_nodes(*final(dom));
            let row = old(v).grid@.table.rows[start + i];
            let td = n[final(v).window.rows@[i]].children[c];
            &&& start + i < old(v).grid@.table.rows.len()
            &&& n[final(v).window.rows@[i]].children.len() == old(v).grid@.table.columns.len()
            &&& c < row.cells.len() ==> reads(n, td, cell_text(row.cells[c]))
            &&& c >= row.cells.len() ==> reads(n, td, Seq::empty())
            &&& !has_attr(n, td, "data-vt-loading"@)
            &&& has_attr(n, td, "data-vt-hidden"@) <==> old(v).grid@.table.hidden.contains(
                c as usize,
            )
        }),
{
    let f = old(v).frame.unwrap();
    showing_a_window_moves_it(old(v).grid@, start, count, start + i);
    windows_show_the_cells_of_their_rows(
        dom_nodes(*old(dom)),
        dom_nodes(*final(dom)),
        f,
        old(v).window,
        final(v).window,
        final(v).grid@,
        start as int,
        count as int,
        i,
        c,
    );
}

/// A move takes the cursor where it leads and ends the range and a select-all; the
/// window goes along as far as it must for the cursor's row to be in view.
pub proof fn navigating_keeps_the_cursor_in_view(
    v: &mut VirtualTableView,
    dom: &mut TuiDom,
    nav: Nav,
    r: Moved,
    other: int,
)
    requires
        old(v).wf(),
        old(v).frame is Some,
        on_a_cell(old(v).grid@),
        call_ensures(VirtualTableView::navigate, (v, dom, nav), r),
    ensures
        leads_to(old(v).grid@, nav, final(v).grid@.cursor),
        r.changed <==> final(v).grid@.cursor != old(v).grid@.cursor,
        final(v).grid@.selection.anchor is None,
        !final(v).grid@.selection.all,
        final(v).grid@.selection.explicit == old(v).grid@.selection.explicit,
        ({
            let from = old(v).grid@.window_start as int;
            let to = final(v).grid@.window_start as int;
            let page = old(v).grid@.viewport_rows as int;
            let rows = row_total(old(v).grid@);
            let row = final(v).grid@.cursor.row;
            !old(v).grid@.scroll_mode && page > 0 ==> {
                &&& r.scroll_to is None
                &&& to <= row < to + page
                &&& 0 <= other <= row < other + page && (other + page <= rows || other == 0)
                    ==> from <= to <= other || other <= to <= from
                &&& to != from ==> final(v).window.rows@.len() == rows_shown(
                    final(v).grid@,
                    to,
                    page,
                )
            }
        }),
{
    lemma_leads(old(v).grid@, nav);
    let g1 = old(v).grid@.after_nav(nav);
    a_step_follows_the_cursor(
        dom_nodes(*old(dom)),
        dom_nodes(*final(dom)),
        *old(v),
        *final(v),
        g1,
        r.scroll_to,
        other,
    );
}

/// A plain click puts the cursor on the cell; a cell is then selected exactly if
/// something can be selected and it was toggled on, by itself or with its row.
pub proof fn a_click_on_a_cell_leaves_the_toggled_ones(
    v: &mut VirtualTableView,
    dom: &mut TuiDom,
    row: usize,
    col: usize,
    r: Moved,
    c: usize,
    id: (Seq<char>, usize),
)
    requires
        old(v).wf(),
        old(v).frame is Some,
        row < row_total(old(v).grid@) <= usize::MAX,
        col < old(v).grid@.table.columns.len() <= usize::MAX,
        call_ensures(VirtualTableView::set_cursor_at, (v, dom, row, col), r),
    ensures
        final(v).grid@.cursor.row == row,
        final(v).grid@.cursor.col == col,
        r.changed <==> final(v).grid@.cursor != old(v).grid@.cursor,
        final(v).grid@.selection.mode == old(v).grid@.selection.mode,
        final(v).grid@.selection.anchor is None,
        !final(v).grid@.selection.all,
        final(v).grid@.selection.explicit.contains(id)
            <==> old(v).grid@.selection.explicit.contains(id),
        old(v).grid@.scroll_mode || old(v).grid@.viewport_rows == 0 ==> (
        final(v).grid@.cell_selected(row, c) <==> {
            let s = old(v).grid@.selection;
            &&& !(s.mode is Off)
            &&& key_of(old(v).grid@, row as int) is Some
            &&& s.mode is Row ==> s.explicit.contains(
                (key_of(old(v).grid@, row as int).unwrap(), 0usize),
            )
            &&& s.mode is Cell ==> s.explicit.contains(
                (key_of(old(v).grid@, row as int).unwrap(), c),
            )
        }),
{
    a_click_leaves_the_toggled_cells(old(v).grid@, row, col);
    a_click_selects_the_toggled_cells_alone(old(v).grid@, row, col, row, c);
    assert(old(v).grid@.has_cells());
}

/// A click that extends ends the range on the cell.
pub proof fn a_click_with_shift_ends_the_range_there(
    v: &mut VirtualTableView,
    dom: &mut TuiDom,
    row: usize,
    col: usize,
    r: Moved,
)
    requires
        old(v).wf(),
        old(v).frame is Some,
        !(old(v).grid@.selection.mode is Off),
        row < row_total(old(v).grid@) <= usize::MAX,
        col < old(v).grid@.table.columns.len() <= usize::MAX,
        call_ensures(VirtualTableView::extend_selection_to, (v, dom, row, col), r),
    ensures
        r.changed,
        final(v).grid@.cursor.row == row,
        final(v).grid@.cursor.col == col,
        final(v).grid@.selection.head == (row, col),
        old(v).grid@.selection.anchor is Some ==> final(v).grid@.selection.anchor
            == old(v).grid@.selection.anchor,
        old(v).grid@.selection.anchor is None ==> final(v).grid@.selection.anchor == Some(
            (old(v).grid@.cursor.row, old(v).grid@.cursor.col),
        ),
        final(v).grid@.selection.explicit == old(v).grid@.selection.explicit,
        !final(v).grid@.selection.all,
{
    a_click_extends_the_range(old(v).grid@, row, col);
    assert(old(v).grid@.has_cells());
}

/// A click that toggles toggles the cell alone.
pub proof fn a_click_with_ctrl_toggles_the_cell(
    v: &mut VirtualTableView,
    dom: &mut TuiDom,
    row: usize,
    col: usize,
    r: Moved,
    id: (Seq<char>, usize),
)
    requires
        old(v).wf(),
        old(v).frame is Some,
        !(old(v).grid@.selection.mode is Off),
        row < row_total(old(v).grid@) <= usize::MAX,
        col < old(v).grid@.table.columns.len() <= usize::MAX,
        call_ensures(VirtualTableView::toggle_at, (v, dom, row, col), r),
    ensures
        r.changed,
        final(v).grid@.cursor.row == row,
        final(v).grid@.cursor.col == col,
        ({
            let before = old(v).grid@.selection;
            let after = final(v).grid@.selection;
            let own = key_of(old(v).grid@, row as int) is Some && is_held_as(
                before.mode,
                key_of(old(v).grid@, row as int).unwrap(),
                col,
                id,
            );
            &&& after.all == before.all && after.anchor == before.anchor
            &&& !before.all ==> (after.explicit.contains(id) <==> before.explicit.contains(id)
                != own)
            &&& before.all ==> (after.except.contains(id) <==> before.except.contains(id) != own)
        }),
{
    a_click_toggles_one_cell(old(v).grid@, row, col, id);
    assert(old(v).grid@.has_cells());
}

/// A key that moves moves the cursor; ctrl with `a` selects every cell and escape
/// none, where something can be selected.
pub proof fn keys_move_and_select(
    v: &mut VirtualTableView,
    dom: &mut TuiDom,
    key: &str,
    ctrl: bool,
    r: Handled,
    row: usize,
    col: usize,
)
    requires
        old(v).wf(),
        old(v).menu is None,
        on_a_cell(old(v).grid@),
        call_ensures(VirtualTableView::on_key, (v, dom, key, false, ctrl), r),
    ensures
        ({
            let from = old(v).grid@.cursor;
            let to = final(v).grid@.cursor;
            let last = row_total(old(v).grid@) - 1;
            let page = if old(v).grid@.viewport_rows == 0 {
                1int
            } else {
                old(v).grid@.viewport_rows as int
            };
            &&& key@ == "ArrowDown"@ || key@ == "j"@ ==> to.col == from.col && to.row == if from.row
                < last {
                from.row + 1
            } else {
                last
            }
            &&& key@ == "ArrowUp"@ || key@ == "k"@ ==> to.col == from.col && to.row == if from.row
                > 0 {
                from.row - 1
            } else {
                0
            }
            &&& key@ == "PageDown"@ ==> to.col == from.col && to.row == if from.row + page <= last {
                from.row + page
            } else {
                last
            }
            &&& key@ == "PageUp"@ ==> to.col == from.col && to.row == if from.row >= page {
                from.row - page
            } else {
                0
            }
            &&& key@ == "Home"@ || key@ == "g"@ ==> to.col == from.col && to.row == 0
            &&& key@ == "End"@ || key@ == "G"@ ==> to.col == from.col && to.row == last
        }),
        !(old(v).grid@.selection.mode is Off) && key_of(old(v).grid@, row as int) is Some && (
        key@ == "Escape"@ || (ctrl && key@ == "a"@)) ==> (final(v).grid@.cell_selected(row, col)
            <==> key@ == "a"@),
        !r.capture,
        key@ == "ArrowDown"@ || key@ == "ArrowUp"@ || key@ == "PageDown"@ || key@ == "PageUp"@
            ==> r.handled,
{
    keys_name_moves(key@);
    keys_without_a_selection(key@, false, ctrl, key_nav(key@).unwrap());
    if !(old(v).grid@.selection.mode is Off) {
        keys_of_a_selection(
            old(v).grid@.selection.mode,
            key@,
            false,
            ctrl,
            key_nav(key@).unwrap(),
        );
    }
    a_key_moves_the_cursor(
        *old(v),
        dom_nodes(*old(dom)),
        *final(v),
        dom_nodes(*final(dom)),
        key@,
        ctrl,
        r.scroll_to,
    );
    if !(old(v).grid@.selection.mode is Off) && key_of(old(v).grid@, row as int) is Some && (key@
        == "Escape"@ || (ctrl && key@ == "a"@)) {
        keys_select_all_and_nothing(
            *old(v),
            dom_nodes(*old(dom)),
            *final(v),
            dom_nodes(*final(dom)),
            key@,
            false,
            ctrl,
            r.scroll_to,
            row,
            col,
        );
    }
}

/// A key that neither moves nor selects anything is left to others, and changes
/// nothing.
pub proof fn other_keys_are_left_to_others(
    v: &mut VirtualTableView,
    dom: &mut TuiDom,
    key: &str,
    shift: bool,
    ctrl: bool,
    r: Handled,
)
    requires
        old(v).wf(),
        old(v).menu is None,
        call_ensures(VirtualTableView::on_key, (v, dom, key, shift, ctrl), r),
        shift && old(v).grid@.selection.mode is Off || !(key@ == "ArrowUp"@ || key@ == "k"@ || key@
            == "ArrowDown"@ || key@ == "j"@ || key@ == "ArrowLeft"@ || key@ == "h"@ || key@
            == "ArrowRight"@ || key@ == "l"@ || key@ == "Home"@ || key@ == "g"@ || key@ == "End"@
            || key@ == "G"@ || key@ == "PageUp"@ || key@ == "PageDown"@),
        old(v).grid@.selection.mode is Off || !(key@ == "Escape"@ || key@ == " "@ || (ctrl && key@
            == "a"@)),
    ensures
        !r.handled,
        r.scroll_to is None,
        *final(v) == *old(v),
        dom_nodes(*final(dom)) == dom_nodes(*old(dom)),
{
    keys_name_moves(key@);
    let nav = key_nav(key@);
    if nav is Some {
        assert(nav.unwrap() is Up || nav.unwrap() is Down || nav.unwrap() is Left || nav.unwrap()
            is Right || nav.unwrap() is Top || nav.unwrap() is Bottom || nav.unwrap() is PageUp
            || nav.unwrap() is PageDown);
    }
}

/// With the chooser open, escape closes it, and no key moves the cursor or changes
/// the selection.
pub proof fn escape_closes_the_chooser(
    v: &mut VirtualTableView,
    dom: &mut TuiDom,
    key: &str,
    shift: bool,
    ctrl: bool,
    r: Handled,
)
    requires
        old(v).wf(),
        old(v).menu is Some,
        call_ensures(VirtualTableView::on_key, (v, dom, key, shift, ctrl), r),
    ensures
        final(v).menu is None <==> key@ == "Escape"@,
        r.handled <==> key@ == "Escape"@ || key@ == "ArrowDown"@ || key@ == "j"@ || key@
            == "ArrowUp"@ || key@ == "k"@ || key@ == "Enter"@ || key@ == " "@,
        final(v).grid@.cursor == old(v).grid@.cursor,
        final(v).grid@.selection == old(v).grid@.selection,
        r.scroll_to is None,
{
    keys_of_an_open_chooser(old(v).grid@.selection.mode, key@, shift, ctrl);
    an_open_chooser_owns_the_keyboard(
        *old(v),
        dom_nodes(*old(dom)),
        *final(v),
        dom_nodes(*final(dom)),
        old(v).grid@.selection.mode,
        key@,
        shift,
        ctrl,
        r.scroll_to,
    );
}

/// Rows that a source pushes for the current epoch stand in the slots of their keys,
/// and the window is shown anew, as tall as the viewport.
pub proof fn applied_rows_are_shown(
    v: &mut VirtualTableView,
    dom: &mut TuiDom,
    epoch: u64,
    rows: Vec<Row>,
    i: int,
)
    requires
        old(v).wf(),
        old(v).frame is Some,
        old(v).grid@.windowed,
        !old(v).grid@.listening,
        old(v).grid@.viewport_rows > 0,
        epoch == old(v).grid@.buffer.epoch,
        call_ensures(VirtualTableView::apply, (v, dom, epoch, Delta::Upsert { rows }), ()),
        is_last_pushed(rows@, i),
        old(v).grid@.buffer.by_key.contains_key(rows@[i]@.key),
    ensures
        slot_at(
            final(v).grid@.buffer,
            old(v).grid@.buffer.by_key[rows@[i]@.key] as int,
        ) == Some(rows@[i]@),
        final(v).grid@.window_start == old(v).grid@.window_start,
        final(v).window.rows@.len() == rows_shown(
            final(v).grid@,
            old(v).grid@.window_start as int,
            old(v).grid@.viewport_rows as int,
        ),
        final(v).grid@.cursor == old(v).grid@.cursor,
        final(v).grid@.selection == old(v).grid@.selection,
{
    every_pushed_row_replaces_its_own(old(v).grid@, epoch, rows, i, 0);
}

/// What is pushed for another epoch changes nothing.
pub proof fn stale_rows_are_dropped(
    v: &mut VirtualTableView,
    dom: &mut TuiDom,
    epoch: u64,
    delta: Delta,
)
    requires
        old(v).wf(),
        epoch != old(v).grid@.buffer.epoch,
        call_ensures(VirtualTableView::apply, (v, dom, epoch, delta), ()),
    ensures
        final(v).grid@ == old(v).grid@,
        final(v).window == old(v).window,
        *final(dom) == *old(dom),
{
}

/// Scrolling the body shows the window that begins where it is scrolled to, where
/// that is another one.
pub proof fn scrolling_shows_the_rows_there(
    v: &mut VirtualTableView,
    dom: &mut TuiDom,
    r: bool,
    frame: Frame,
)
    requires
        old(v).wf(),
        old(v).frame == Some(frame),
        call_ensures(VirtualTableView::on_scroll, (v, dom), r),
    ensures
        ({
            let top = match scroll_top_of(dom_nodes(*old(dom)), frame.tbody) {
                Some(t) => if t > 0 {
                    t as int
                } else {
                    0
                },
                None => 0,
            };
            &&& r <==> top != old(v).grid@.window_start
            &&& r ==> final(v).grid@.window_start == top && final(v).window.rows@.len()
                == rows_shown(final(v).grid@, top, old(v).grid@.viewport_rows as int)
            &&& !r ==> final(v).grid@ == old(v).grid@ && *final(dom) == *old(dom)
        }),
        final(v).grid@.cursor == old(v).grid@.cursor,
        final(v).grid@.selection == old(v).grid@.selection,
        final(v).grid@.table == old(v).grid@.table,
{
}

/// Requests are taken as they were made, in order, and none is left.
pub proof fn requests_are_taken_once(
    v: &mut VirtualTableView,
    r: Vec<WindowRequest>,
    i: int,
)
    requires
        old(v).wf(),
        call_ensures(VirtualTableView::take_requests, (v,), r),
    ensures
        r@.len() == old(v).grid@.requests.len(),
        0 <= i < r@.len() ==> r@[i].range.start == old(v).grid@.requests[i].start && r@[i].range.end
            == old(v).grid@.requests[i].end && r@[i].epoch == old(v).grid@.requests[i].epoch
            && r@[i].sort@ == old(v).grid@.requests[i].sort,
        final(v).grid@.requests.len() == 0,
        final(v).grid@ == (GridView { requests: final(v).grid@.requests, ..old(v).grid@ }),
{
    let views = Seq::new(r@.len(), |k: int| request_view(r@[k]));
    assert(views == old(v).grid@.requests);
    if 0 <= i < r@.len() {
        assert(views[i] == request_view(r@[i]));
    }
}

/// Sorting by a column of spans puts them in order of their lengths.
pub proof fn sorting_a_view_by_spans_puts_them_in_order<R: Fn(&str) -> Option<u64>>(
    v: &mut VirtualTableView,
    dom: &mut TuiDom,
    col: usize,
    dir: SortDir,
    read: R,
    m: spec_fn(Seq<char>) -> Option<u64>,
    i: int,
    j: int,
)
    requires
        old(v).wf(),
        call_ensures(VirtualTableView::sort::<R>, (v, dom, col, dir, &read), ()),
        forall|s: &str| #[trigger] call_requires(read, (s,)),
        reads_as(read, m),
        forall|k: int|
            0 <= k < old(v).grid@.table.rows.len() ==> (#[trigger] cell_in(
                old(v).grid@.table,
                k,
                col,
            )) is Duration,
        0 <= i < j < final(v).grid@.table.rows.len(),
    ensures
        final(v).grid@.table.sort == Some((col, dir)),
        (match (cell_in(final(v).grid@.table, i, col), cell_in(final(v).grid@.table, j, col)) {
            (CellValue::Duration(a), CellValue::Duration(b)) => match dir {
                SortDir::Ascending => a.secs * 1_000_000_000 + a.nanos <= b.secs * 1_000_000_000
                    + b.nanos,
                SortDir::Descending => a.secs * 1_000_000_000 + a.nanos >= b.secs * 1_000_000_000
                    + b.nanos,
            },
            _ => false,
        }),
        final(v).grid@.cursor == old(v).grid@.cursor,
        final(v).grid@.selection.explicit == old(v).grid@.selection.explicit,
{
    let g1 = choose|g1: GridView| #[trigger]
        sorted_grid(old(v).grid@, g1, col, dir, read) && relaid(
            *old(v),
            all_labelled(dom_nodes(*old(dom)), header_cells(old(v).frame), g1),
            *final(v),
            dom_nodes(*final(dom)),
            g1,
        );
    assert(final(v).grid@.table == g1.table);
    sorted_spans_rise_or_fall(old(v).grid@.table, g1.table, col, dir, read, m, i, j);
    a_sort_leaves_cursor_and_toggled_cells(old(v).grid@, g1, col, dir, read, 0);
}

/// Hiding or showing a column of a view does so, and to no other; only that the one
/// column still visible cannot be hidden.
pub proof fn hiding_a_columns_header_hides_the_column(
    v: &mut VirtualTableView,
    dom: &mut TuiDom,
    col: usize,
    hidden: bool,
    c: usize,
)
    requires
        old(v).wf(),
        call_ensures(VirtualTableView::set_column_hidden, (v, dom, col, hidden), ()),
    ensures
        ({
            let before = old(v).grid@.table;
            let after = final(v).grid@.table;
            let alone = col < before.columns.len() && !before.hidden.contains(col) && forall|
                k: usize,
            |
                k < before.columns.len() && k != col ==> #[trigger] before.hidden.contains(k);
            &&& c != col ==> (after.hidden.contains(c) <==> before.hidden.contains(c))
            &&& !hidden ==> !after.hidden.contains(col)
            &&& hidden ==> (after.hidden.contains(col) <==> !alone)
            &&& after.columns == before.columns && after.rows == before.rows
        }),
        final(v).grid@.cursor == old(v).grid@.cursor,
        final(v).grid@.selection == old(v).grid@.selection,
{
    hiding_changes_one_column(old(v).grid@, col, hidden, c);
}

/// A column of a view that is given a width has it; no other column changes.
pub proof fn sizing_a_columns_header_sizes_the_column(
    v: &mut VirtualTableView,
    dom: &mut TuiDom,
    col: usize,
    width: Option<u16>,
    c: int,
)
    requires
        old(v).wf(),
        0 <= c < old(v).grid@.table.columns.len() <= usize::MAX,
        call_ensures(VirtualTableView::set_column_width, (v, dom, col, width), ()),
    ensures
        final(v).grid@.table.columns.len() == old(v).grid@.table.columns.len(),
        c == col ==> final(v).grid@.table.columns[c].width == width,
        c != col ==> final(v).grid@.table.columns[c] == old(v).grid@.table.columns[c],
        final(v).grid@.table.hidden == old(v).grid@.table.hidden,
        final(v).grid@.cursor == old(v).grid@.cursor,
        final(v).grid@.selection == old(v).grid@.selection,
{
    a_width_is_given_to_one_column(old(v).grid@, col, width, c);
}

/// The highlight of an open chooser moves by as many items as it is told, and no
/// further than the first or the last; that item is marked, and no other.
pub proof fn the_highlight_moves_as_told(
    v: &mut VirtualTableView,
    dom: &mut TuiDom,
    delta: isize,
    m: Menu,
    i: int,
)
    requires
        old(v).wf(),
        old(v).menu == Some(m),
        call_ensures(VirtualTableView::menu_highlight_move, (v, dom, delta), ()),
        0 < m.items@.len() <= usize::MAX,
        m.items@.no_duplicates(),
        forall|k: int|
            0 <= k < m.items@.len() ==> is_element(dom_nodes(*old(dom)), #[trigger] m.items@[k]),
        0 <= i < m.items@.len(),
    ensures
        final(v).menu is Some,
        ({
            let at = final(v).menu.unwrap().cursor;
            let to = m.cursor + delta;
            &&& to < 0 ==> at == 0
            &&& 0 <= to < m.items@.len() ==> at == to
            &&& to >= m.items@.len() ==> at == m.items@.len() - 1
            &&& has_attr(dom_nodes(*final(dom)), m.items@[i], "data-vt-menu-active"@) <==> i == at
        }),
        final(v).grid@ == old(v).grid@,
{
    let at = final(v).menu.unwrap().cursor;
    let marks = item_marks(m.items@, at);
    assert(marks.take(marks.len() as int) =~= marks);
    lemma_items_marked(dom_nodes(*old(dom)), m.items@, at, marks.len() as int, i);
}

/// A click in an open chooser is left to it and any other closes it; one on the chip
/// opens a closed one.
pub proof fn clicks_toggle_the_chooser(
    v: &mut VirtualTableView,
    dom: &mut TuiDom,
    target: NodeId,
    r: bool,
)
    requires
        old(v).wf(),
        call_ensures(VirtualTableView::on_menu_click, (v, dom, target), r),
    ensures
        old(v).menu is Some ==> (final(v).menu is None <==> !is_within(
            dom_nodes(*old(dom)),
            old(v).menu.unwrap().node,
            target,
        )),
        old(v).menu is None ==> (final(v).menu is Some <==> old(v).chip is Some && is_within(
            dom_nodes(*old(dom)),
            old(v).chip.unwrap(),
            target,
        )),
        r <==> old(v).menu is Some != final(v).menu is Some,
        final(v).grid@ == old(v).grid@,
{
    clicks_open_and_close_the_chooser(
        *old(v),
        dom_nodes(*old(dom)),
        *final(v),
        dom_nodes(*final(dom)),
        target,
        r,
    );
}

/// A restored layout gives the columns their saved widths and the table its saved
/// sort.
pub proof fn a_restored_layout_has_its_widths_and_sort<R: Fn(&str) -> Option<u64>>(
    v: &mut VirtualTableView,
    dom: &mut TuiDom,
    state: TableState,
    read: R,
    j: int,
    at: usize,
)
    requires
        old(v).wf(),
        call_ensures(VirtualTableView::restore_state::<R>, (v, dom, &state, &read), ()),
        forall|s: &str| #[trigger] call_requires(read, (s,)),
    ensures
        is_last_saved(state.columns@, j) && is_first_column(
            final(v).grid@.table.columns,
            state.columns@[j].header@,
            at as int,
        ) ==> final(v).grid@.table.columns[at as int].width == state.columns@[j].width,
        state.sort is None ==> final(v).grid@.table.sort is None,
        state.sort is Some && is_first_column(
            final(v).grid@.table.columns,
            state.sort.unwrap().column@,
            at as int,
        ) ==> final(v).grid@.table.sort == Some((at, state.sort.unwrap().dir)),
{
    let n0 = dom_nodes(*old(dom));
    let n1 = dom_nodes(*final(dom));
    the_saved_sort_is_restored(*old(v), n0, *final(v), n1, state, read, at);
    if is_last_saved(state.columns@, j) && is_first_column(
        final(v).grid@.table.columns,
        state.columns@[j].header@,
        at as int,
    ) {
        the_last_saved_width_decides(*old(v), n0, *final(v), n1, state, read, j, at);
    }
}

} // verus!
