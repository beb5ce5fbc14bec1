//! What presses, drags and clicks on the nodes of a table do.

use rdom_tui::{NodeId, TuiDom};
use vstd::prelude::*;

use crate::clear::cleared;
use crate::column_laws::{hiding_changes_one_column, toggling_begins_ascending};
use crate::columns::{hide_step, menu_synced};
use crate::cursor_laws::{a_click_extends_the_range, is_held_as, key_of, row_total};
use crate::data::cell_text;
use crate::document::newly_shown;
use crate::dom::{
    column_sizes, dom_nodes, has_attr, is_closest, is_element, no_style, with_columns_sized,
    with_style, BoxSize, BoxStyle, Nodes,
};
use crate::draw::{all_dropped, cell_ids, Window};
use crate::draw_laws::{lemma_shown, reads, rows_shown, windows_show_the_cells_of_their_rows};
use crate::grid::{state_view, Grid, GridView, StateView};
use crate::header::{frame_built, Frame};
use crate::hit::is_place;
use crate::hit_laws::{cells_are_found_by_their_nodes, stands_once};
use crate::input::{
    header_click_step, is_drag_target, is_header_col, is_target_cell, press_step, Handled,
};
use crate::input_laws::{header_clicks_go_round, presses_select_as_the_modifiers_say};
use crate::menu::Menu;
use crate::model::{SortDir, VirtualTable};
use crate::selection::SelectionMode;
use crate::source_laws::{
    a_total_moves_the_window_up, invalidating_asks_for_the_window_on_show,
    showing_a_window_moves_it,
};
use crate::state::TableState;
use crate::view::{header_cells, stepped, window_shown, VirtualTableView};
use crate::view_laws::lemma_marks_keep_style;
use crate::width_laws::lemma_dropped_style;
use crate::window_laws::slot_at;

verus! {

proof fn lemma_closest_once(
    nodes: Nodes,
    id: NodeId,
    tag: Seq<char>,
    a: Option<NodeId>,
    b: Option<NodeId>,
)
    requires
        is_closest(nodes, id, tag, a),
        is_closest(nodes, id, tag, b),
    ensures
        a == b,
{
}

/// Is the node `target` in the cell in row `i` and column `c` of the rows on show?
pub open spec fn is_in_cell(
    v: VirtualTableView,
    nodes: Nodes,
    target: NodeId,
    i: int,
    c: int,
) -> bool {
    &&& 0 <= i < v.window.cells@.len()
    &&& 0 <= c < v.window.cells@[i]@.len()
    &&& is_closest(nodes, target, "td"@, Some(v.window.cells@[i]@[c]))
    &&& stands_once(cell_ids(v.window.cells@))
}

proof fn lemma_target(
    v: VirtualTableView,
    nodes: Nodes,
    target: NodeId,
    cell: Option<(usize, usize)>,
    i: int,
    c: int,
)
    requires
        is_target_cell(v, nodes, Some(target), cell),
        is_in_cell(v, nodes, target, i, c),
    ensures
        cell is Some,
        cell.unwrap().0 == v.grid@.window_start + i,
        cell.unwrap().1 == c,
{
    let cells = cell_ids(v.window.cells@);
    let own = Some(v.window.cells@[i]@[c]);
    let td = choose|td: Option<NodeId>| #[trigger]
        is_closest(nodes, target, "td"@, td) && match td {
            Some(td) => is_place(cells, v.grid@.window_start as int, td, cell),
            None => cell is None,
        };
    lemma_closest_once(nodes, target, "td"@, td, own);
    assert(cells[i] == v.window.cells@[i]@);
    cells_are_found_by_their_nodes(
        cells,
        v.grid@.window_start as int,
        own.unwrap(),
        cell,
        i,
        c,
    );
}

/// A press of the left button on a cell on show puts the cursor on the cell of the
/// dataset that it shows. Plain, it ends the range and a select-all and begins a
/// drag; with shift it ends the range there; with ctrl it toggles the cell alone.
pub proof fn a_press_is_for_the_cell_under_it(
    v: &mut VirtualTableView,
    dom: &mut TuiDom,
    target: NodeId,
    ctrl: bool,
    shift: bool,
    r: Handled,
    i: int,
    c: int,
    id: (Seq<char>, usize),
)
    requires
        old(v).wf(),
        old(v).menu is None,
        is_in_cell(*old(v), dom_nodes(*old(dom)), target, i, c),
        old(v).grid@.window_start + i < row_total(old(v).grid@) <= usize::MAX,
        c < old(v).grid@.table.columns.len() <= usize::MAX,
        call_ensures(
            VirtualTableView::on_press,
            (v, dom, Some(target), true, ctrl, shift),
            r,
        ),
    ensures
        r.handled,
        r.capture <==> !ctrl && !shift && old(v).frame is Some,
        final(v).mouse_drag <==> old(v).mouse_drag || (!ctrl && !shift),
        final(v).grid@.cursor.row == old(v).grid@.window_start + i,
        final(v).grid@.cursor.col == c,
        ({
            let g = old(v).grid@;
            let row = g.window_start + i;
            let s0 = g.selection;
            let s1 = final(v).grid@.selection;
            let own = key_of(g, row) is Some && is_held_as(
                s0.mode,
                key_of(g, row).unwrap(),
                c as usize,
                id,
            );
            &&& s1.mode == s0.mode
            &&& !ctrl ==> s1.explicit == s0.explicit && !s1.all
            &&& !ctrl && (!shift || s0.mode is Off) ==> s1.anchor is None
            &&& !ctrl && shift && !(s0.mode is Off) ==> {
                &&& s1.head.0 == row && s1.head.1 == c
                &&& s0.anchor is Some ==> s1.anchor == s0.anchor
                &&& s0.anchor is None ==> s1.anchor == Some((g.cursor.row, g.cursor.col))
            }
            &&& ctrl && !(s0.mode is Off) ==> s1.all == s0.all && s1.anchor == s0.anchor
            &&& ctrl && !(s0.mode is Off) && !s0.all ==> (s1.explicit.contains(id)
                <==> s0.explicit.contains(id) != own)
            &&& ctrl && !(s0.mode is Off) && s0.all ==> (s1.except.contains(id)
                <==> s0.except.contains(id) != own)
        }),
{
    let n0 = dom_nodes(*old(dom));
    let n1 = dom_nodes(*final(dom));
    let cell = choose|cell: Option<(usize, usize)>| #[trigger]
        is_target_cell(*old(v), n0, Some(target), cell) && press_step(
            *old(v),
            n0,
            *final(v),
            n1,
            cell,
            ctrl,
            shift,
            r,
        );
    lemma_target(*old(v), n0, target, cell, i, c);
    presses_select_as_the_modifiers_say(*old(v), n0, *final(v), n1, cell, ctrl, shift, r, id);
}

/// A press of another button, or with the chooser open, does nothing.
pub proof fn other_presses_do_nothing(
    v: &mut VirtualTableView,
    dom: &mut TuiDom,
    target: Option<NodeId>,
    left: bool,
    ctrl: bool,
    shift: bool,
    r: Handled,
)
    requires
        old(v).wf(),
        old(v).menu is Some || !left,
        call_ensures(VirtualTableView::on_press, (v, dom, target, left, ctrl, shift), r),
    ensures
        *final(v) == *old(v),
        dom_nodes(*final(dom)) == dom_nodes(*old(dom)),
        !r.handled,
        !r.capture,
{
}

/// While a press is held, a move of the mouse over a cell on show ends the range on
/// the cell of the dataset that it shows.
pub proof fn a_drag_is_for_the_cell_under_it(
    v: &mut VirtualTableView,
    dom: &mut TuiDom,
    target: NodeId,
    x: i32,
    y: i32,
    r: Handled,
    i: int,
    c: int,
)
    requires
        old(v).wf(),
        old(v).mouse_drag,
        !(old(v).grid@.selection.mode is Off),
        is_in_cell(*old(v), dom_nodes(*old(dom)), target, i, c),
        old(v).grid@.window_start + i < row_total(old(v).grid@) <= usize::MAX,
        c < old(v).grid@.table.columns.len() <= usize::MAX,
        call_ensures(VirtualTableView::on_drag, (v, dom, Some(target), true, x, y), r),
    ensures
        r.handled,
        final(v).grid@.cursor.row == old(v).grid@.window_start + i,
        final(v).grid@.cursor.col == c,
        ({
            let g = old(v).grid@;
            let s = final(v).grid@.selection;
            &&& s.head.0 == g.window_start + i && s.head.1 == c
            &&& g.selection.anchor is Some ==> s.anchor == g.selection.anchor
            &&& g.selection.anchor is None ==> s.anchor == Some((g.cursor.row, g.cursor.col))
            &&& s.explicit == g.selection.explicit
        }),
{
    let n0 = dom_nodes(*old(dom));
    let cell = choose|cell: Option<(usize, usize)>| #[trigger]
        is_drag_target(*old(v), n0, Some(target), x as int, y as int, cell) && match cell {
            Some((row, col)) => stepped(
                n0,
                dom_nodes(*final(dom)),
                *old(v),
                *final(v),
                old(v).grid@.after_extend_to(row, col),
                r.scroll_to,
            ) && r.handled == (old(v).grid@.has_cells() && (old(v).grid@.selection.mode
                != SelectionMode::Off || old(v).grid@.after_extend_to(row, col).cursor
                != old(v).grid@.cursor)),
            None => *final(v) == *old(v) && *final(dom) == *old(dom) && !r.handled,
        };
    let own = choose|own: Option<(usize, usize)>| #[trigger]
        is_target_cell(*old(v), n0, Some(target), own) && (own is Some ==> cell == own);
    lemma_target(*old(v), n0, target, own, i, c);
    let (row, col) = cell.unwrap();
    a_click_extends_the_range(old(v).grid@, row, col);
    assert(old(v).grid@.has_cells());
}

/// A move of the mouse does nothing without a press; one without the button ends the
/// drag, and so does a release.
pub proof fn drags_end_with_the_button(
    v: &mut VirtualTableView,
    dom: &mut TuiDom,
    target: Option<NodeId>,
    left_held: bool,
    x: i32,
    y: i32,
    r: Handled,
    w: &mut VirtualTableView,
)
    requires
        old(v).wf(),
        !old(v).mouse_drag || !left_held,
        call_ensures(VirtualTableView::on_drag, (v, dom, target, left_held, x, y), r),
        old(w).wf(),
        call_ensures(VirtualTableView::on_release, (w,), ()),
    ensures
        !final(v).mouse_drag,
        final(v).grid@ == old(v).grid@,
        *final(dom) == *old(dom),
        !r.handled,
        !final(w).mouse_drag,
        final(w).grid@ == old(w).grid@,
{
}

/// A click on a column's header sorts by it ascending, then descending, then not at
/// all; with the chooser open it does nothing.
pub proof fn a_click_on_a_header_is_for_its_column<R: Fn(&str) -> Option<u64>>(
    v: &mut VirtualTableView,
    dom: &mut TuiDom,
    target: NodeId,
    read: R,
    r: bool,
    c: usize,
)
    requires
        old(v).wf(),
        forall|s: &str| #[trigger] call_requires(read, (s,)),
        call_ensures(VirtualTableView::on_header_click::<R>, (v, dom, target, &read), r),
        c < header_cells(old(v).frame).len(),
        header_cells(old(v).frame).no_duplicates(),
        is_closest(
            dom_nodes(*old(dom)),
            target,
            "th"@,
            Some(header_cells(old(v).frame)[c as int]),
        ),
    ensures
        r <==> old(v).menu is None,
        !r ==> *final(v) == *old(v) && dom_nodes(*final(dom)) == dom_nodes(*old(dom)),
        r ==> {
            let was = old(v).grid@.table.sort;
            let now = final(v).grid@.table.sort;
            let s = final(v).grid@.selection;
            &&& was == Some((c, SortDir::Ascending)) ==> now == Some((c, SortDir::Descending))
            &&& was == Some((c, SortDir::Descending)) ==> now is None
            &&& was is None || was.unwrap().0 != c ==> now == Some((c, SortDir::Ascending))
            &&& final(v).grid@.cursor == old(v).grid@.cursor
            &&& s.anchor is None && !s.all && s.explicit == old(v).grid@.selection.explicit
        },
{
    let n0 = dom_nodes(*old(dom));
    let n1 = dom_nodes(*final(dom));
    let ths = header_cells(old(v).frame);
    let col = choose|col: Option<usize>| #[trigger]
        is_header_col(*old(v), n0, target, col) && r == (old(v).menu is None && col is Some)
            && header_click_step(
            *old(v),
            n0,
            *final(v),
            n1,
            if r {
                col
            } else {
                None
            },
            read,
        );
    let th = choose|th: Option<NodeId>| #[trigger]
        is_closest(n0, target, "th"@, th) && match (th, col) {
            (Some(th), Some(c)) => c < ths.len() && ths[c as int] == th && !ths.take(
                c as int,
            ).contains(th),
            (Some(th), None) => !ths.contains(th),
            (None, col) => col is None,
        };
    lemma_closest_once(n0, target, "th"@, th, Some(ths[c as int]));
    assert(ths.contains(ths[c as int]));
    assert(col == Some(c));
    header_clicks_go_round(*old(v), n0, *final(v), n1, if r {
        col
    } else {
        None
    }, read);
}

/// A change of the checkbox of a column shows the column if it is checked and hides
/// it if not, and no other; only that the one column still visible stays.
pub proof fn a_checkbox_is_for_its_column(
    v: &mut VirtualTableView,
    dom: &mut TuiDom,
    target: NodeId,
    r: bool,
    m: Menu,
    i: int,
    c: usize,
)
    requires
        old(v).wf(),
        old(v).menu == Some(m),
        call_ensures(VirtualTableView::on_menu_change, (v, dom, target), r),
        0 <= i < m.boxes@.len() <= usize::MAX,
        m.boxes@.no_duplicates(),
        m.boxes@[i] == target,
    ensures
        r,
        ({
            let before = old(v).grid@.table;
            let after = final(v).grid@.table;
            let shown = has_attr(dom_nodes(*old(dom)), target, "checked"@);
            let alone = i < before.columns.len() && !before.hidden.contains(i as usize) && forall|
                k: usize,
            |
                k < before.columns.len() && k != i ==> #[trigger] before.hidden.contains(k);
            &&& c != i ==> (after.hidden.contains(c) <==> before.hidden.contains(c))
            &&& shown ==> !after.hidden.contains(i as usize)
            &&& !shown ==> (after.hidden.contains(i as usize) <==> !alone)
            &&& after.columns == before.columns
        }),
{
    let n0 = dom_nodes(*old(dom));
    let shown = has_attr(n0, target, "checked"@);
    assert(m.boxes@.contains(target));
    let (k, n) = choose|k: int, n: Nodes|
        {
            &&& 0 <= k < m.boxes@.len()
            &&& #[trigger] m.boxes@[k] == target
            &&& hide_step(*old(v), n0, *final(v), n, k as usize, !shown)
            &&& dom_nodes(*final(dom)) == #[trigger] menu_synced(
                n,
                final(v).menu,
                final(v).grid@,
            )
        };
    assert(k == i);
    hiding_changes_one_column(old(v).grid@, i as usize, !shown, c);
}

/// A header toggle sorts by a column ascending, unless it was sorted so, when it is
/// sorted descending.
pub proof fn toggling_the_sort_begins_ascending<R: Fn(&str) -> Option<u64>>(
    v: &mut VirtualTableView,
    dom: &mut TuiDom,
    col: usize,
    read: R,
)
    requires
        old(v).wf(),
        forall|s: &str| #[trigger] call_requires(read, (s,)),
        call_ensures(VirtualTableView::toggle_sort::<R>, (v, dom, col, &read), ()),
    ensures
        old(v).grid@.table.sort == Some((col, SortDir::Ascending)) ==> final(v).grid@.table.sort
            == Some((col, SortDir::Descending)),
        old(v).grid@.table.sort != Some((col, SortDir::Ascending)) ==> final(v).grid@.table.sort
            == Some((col, SortDir::Ascending)),
        final(v).grid@.cursor == old(v).grid@.cursor,
        final(v).grid@.selection.explicit == old(v).grid@.selection.explicit,
{
    toggling_begins_ascending(old(v).grid@, col);
}

/// A total of a source shows the window as tall as the viewport, moved up where its
/// rows are gone.
pub proof fn a_total_shows_rows_that_there_are(
    v: &mut VirtualTableView,
    dom: &mut TuiDom,
    total: usize,
)
    requires
        old(v).wf(),
        old(v).frame is Some,
        old(v).grid@.viewport_rows > 0,
        call_ensures(VirtualTableView::set_total, (v, dom, total), ()),
    ensures
        ({
            let was = old(v).grid@.window_start;
            let page = old(v).grid@.viewport_rows as int;
            let to = final(v).grid@;
            &&& to.windowed && to.buffer.total == total
            &&& was < total ==> to.window_start == was
            &&& was >= total && page < total ==> to.window_start + page == total
            &&& was >= total && page >= total ==> to.window_start == 0
            &&& final(v).window.rows@.len() == rows_shown(to, to.window_start as int, page)
            &&& to.cursor == old(v).grid@.cursor && to.selection == old(v).grid@.selection
        }),
{
    a_total_moves_the_window_up(old(v).grid@, total);
}

/// Invalidating leaves no row at hand and asks for the window on show once more,
/// where somebody takes requests.
pub proof fn invalidating_a_view_asks_anew(v: &mut VirtualTableView, dom: &mut TuiDom, i: int)
    requires
        old(v).wf(),
        old(v).frame is Some,
        old(v).grid@.windowed,
        old(v).grid@.buffer.epoch < u64::MAX - 1,
        call_ensures(VirtualTableView::invalidate, (v, dom), ()),
    ensures
        slot_at(final(v).grid@.buffer, i) is None,
        final(v).grid@.window_start == old(v).grid@.window_start,
        final(v).grid@.buffer.total == old(v).grid@.buffer.total,
        old(v).grid@.listening ==> final(v).grid@.requests.len() > old(v).grid@.requests.len()
            && final(v).grid@.buffer.epoch > old(v).grid@.buffer.epoch,
        !old(v).grid@.listening ==> final(v).grid@.requests == old(v).grid@.requests,
        final(v).grid@.cursor == old(v).grid@.cursor,
        final(v).grid@.selection == old(v).grid@.selection,
{
    invalidating_asks_for_the_window_on_show(old(v).grid@, i);
}

/// A view that is told of requests, or of changes of layout, takes note of them from
/// then on.
pub proof fn listeners_are_told_from_then_on(v: &mut VirtualTableView, w: &mut VirtualTableView)
    requires
        old(v).wf(),
        call_ensures(VirtualTableView::on_window_change, (v,), ()),
        old(w).wf(),
        call_ensures(VirtualTableView::on_state_change, (w,), ()),
    ensures
        final(v).grid@.listening && final(v).grid@.windowed,
        final(v).grid@.table == old(v).grid@.table && final(v).grid@.cursor
            == old(v).grid@.cursor && final(v).grid@.selection == old(v).grid@.selection,
        final(w).grid@ == (GridView { watching: true, ..old(w).grid@ }),
{
}

/// Opening the chooser of a table with a chip gives it one item for each column, the
/// first highlighted; closing ends it, and toggling does the one or the other. The
/// state of the grid stays.
pub proof fn the_chooser_opens_and_closes(
    a: &mut VirtualTableView,
    b: &mut VirtualTableView,
    c: &mut VirtualTableView,
    x: &mut TuiDom,
    y: &mut TuiDom,
    z: &mut TuiDom,
)
    requires
        old(a).wf() && call_ensures(VirtualTableView::open_column_menu, (a, x), ()),
        old(b).wf() && call_ensures(VirtualTableView::close_column_menu, (b, y), ()),
        old(c).wf() && call_ensures(VirtualTableView::toggle_column_menu, (c, z), ()),
    ensures
        final(a).menu is Some <==> old(a).menu is Some || old(a).chip is Some,
        old(a).menu is Some ==> final(a).menu == old(a).menu,
        old(a).menu is None && final(a).menu is Some ==> final(a).menu.unwrap().cursor == 0
            && final(a).menu.unwrap().items@.len() == old(a).grid@.table.columns.len(),
        final(b).menu is None,
        final(c).menu is Some <==> old(c).menu is None && old(c).chip is Some,
        final(a).grid@ == old(a).grid@ && final(b).grid@ == old(b).grid@ && final(c).grid@
            == old(c).grid@,
{
}

/// A body with a scrollbar is as tall as the viewport and scrolls by itself; the rows
/// on show are as many.
pub proof fn a_scrolling_body_is_as_tall_as_the_viewport(
    v: &mut VirtualTableView,
    dom: &mut TuiDom,
    frame: Frame,
)
    requires
        old(v).wf(),
        old(v).frame == Some(frame),
        is_element(dom_nodes(*old(dom)), frame.tbody),
        call_ensures(VirtualTableView::enable_scrollbar, (v, dom), ()),
    ensures
        final(v).grid@.scroll_mode,
        final(v).grid@.window_start == old(v).grid@.window_start,
        final(v).grid@.cursor == old(v).grid@.cursor,
        final(v).grid@.selection == old(v).grid@.selection,
        final(v).window.rows@.len() == rows_shown(
            final(v).grid@,
            old(v).grid@.window_start as int,
            old(v).grid@.viewport_rows as int,
        ),
        dom_nodes(*final(dom))[frame.tbody].style.height == Some(
            BoxSize::Fixed(old(v).grid@.viewport_rows),
        ),
        dom_nodes(*final(dom))[frame.tbody].style.scroll_y,
{
    let style = BoxStyle {
        height: Some(BoxSize::Fixed(old(v).grid@.viewport_rows)),
        scroll_y: true,
        ..no_style()
    };
    let n = with_style(dom_nodes(*old(dom)), frame.tbody, style);
    let n1 = dom_nodes(*final(dom));
    let (drawn, marks) = lemma_shown(
        n,
        n1,
        frame,
        old(v).window,
        final(v).window,
        final(v).grid@,
        old(v).grid@.window_start as int,
        old(v).grid@.viewport_rows as int,
    );
    let sized = with_columns_sized(drawn, column_sizes(drawn, frame.table));
    let mid = all_dropped(n, old(v).window.rows@);
    assert(cleared(n, old(v).window).contains_key(frame.tbody));
    lemma_dropped_style(mid, old(v).window.spacers@, frame.tbody);
    lemma_dropped_style(n, old(v).window.rows@, frame.tbody);
    lemma_marks_keep_style(sized, marks, frame.tbody);
}

/// A table in a new tree shows its first rows, each with the texts of its cells, where
/// the nodes can be numbered.
pub proof fn a_new_tree_shows_the_first_rows(
    table: VirtualTable,
    count: usize,
    v: VirtualTableView,
    dom: TuiDom,
    node: NodeId,
    i: int,
    c: int,
)
    requires
        table@.wf(),
        table@.rows.len() <= usize::MAX,
        call_ensures(VirtualTableView::in_new_tree, (table, count), Some((v, dom, node))),
        0 <= i < v.window.rows@.len(),
        0 <= c < table@.columns.len(),
    ensures
        v.window.rows@.len() == if count < table@.rows.len() {
            count as int
        } else {
            table@.rows.len() as int
        },
        v.grid@.table == table@,
        v.grid@.window_start == 0,
        v.frame is Some && v.frame.unwrap().table == node,
        ({
            let n = dom_nodes(dom);
            let row = table@.rows[i];
            let td = n[v.window.rows@[i]].children[c];
            &&& n[v.window.rows@[i]].children.len() == table@.columns.len()
            &&& c < row.cells.len() ==> reads(n, td, cell_text(row.cells[c]))
            &&& c >= row.cells.len() ==> reads(n, td, Seq::empty())
        }),
{
    let f = v.frame.unwrap();
    let grid = choose|grid: Grid|
        {
            &&& call_ensures(Grid::new, (table,), grid)
            &&& newly_shown(v, dom_nodes(dom), f, count as int)
            &&& v.grid@ == (#[trigger] grid@).shown(0, count)
        };
    let (built, none) = choose|built: Nodes, none: Window|
        {
            &&& #[trigger] frame_built(built, f, v.grid@.table.columns)
            &&& #[trigger] window_shown(
                built,
                dom_nodes(dom),
                Some(f),
                none,
                v.window,
                v.grid@,
                0,
                count as int,
            )
        };
    showing_a_window_moves_it(grid@, 0, count, i);
    windows_show_the_cells_of_their_rows(
        built,
        dom_nodes(dom),
        f,
        none,
        v.window,
        v.grid@,
        0,
        count as int,
        i,
        c,
    );
}

/// The layout of a view says for each column, in order, its header, its width and
/// whether it is hidden, and which column the table is sorted by, in which direction.
pub proof fn a_saved_layout_says_how_columns_stand(v: VirtualTableView, r: TableState, c: int)
    requires
        call_ensures(VirtualTableView::table_state, (&v,), r),
        v.grid@.table.columns.len() <= usize::MAX,
    ensures
        r.columns@.len() == v.grid@.table.columns.len(),
        0 <= c < r.columns@.len() ==> {
            let column = v.grid@.table.columns[c];
            &&& r.columns@[c].header@ == column.header@
            &&& r.columns@[c].width == column.width
            &&& r.columns@[c].hidden <==> v.grid@.table.hidden.contains(c as usize)
        },
        (match v.grid@.table.sort {
            Some((col, dir)) => if col < v.grid@.table.columns.len() {
                r.sort is Some && r.sort.unwrap().column@
                    == v.grid@.table.columns[col as int].header@ && r.sort.unwrap().dir == dir
            } else {
                r.sort is None
            },
            None => r.sort is None,
        }),
{
    let s: StateView = state_view(r);
    assert(s == v.grid@.layout());
    if 0 <= c < r.columns@.len() {
        assert(s.columns[c] == v.grid@.layout().columns[c]);
    }
}

/// What a view tells is what it holds.
pub proof fn a_view_tells_what_it_holds(
    v: VirtualTableView,
    row: usize,
    col: usize,
    selected: bool,
    sort: Option<(usize, SortDir)>,
    shown: usize,
)
    requires
        call_ensures(VirtualTableView::is_cell_selected, (&v, row, col), selected),
        call_ensures(VirtualTableView::sort_state, (&v,), sort),
        call_ensures(VirtualTableView::mounted_row_count, (&v,), shown),
    ensures
        key_of(v.grid@, row as int) is None ==> !selected,
        key_of(v.grid@, row as int) is Some ==> selected == v.grid@.selection.selects(
            row,
            col,
            key_of(v.grid@, row as int).unwrap(),
        ),
        sort == v.grid@.table.sort,
        shown == v.window.rows@.len(),
{
}

} // verus!
