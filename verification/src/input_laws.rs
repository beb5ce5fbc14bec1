//! What keys, presses and clicks come to.

use rdom_tui::NodeId;
use vstd::prelude::*;

use crate::columns::relaid;
use crate::cursor_laws::{
    a_click_extends_the_range, a_click_leaves_the_toggled_cells, a_click_toggles_one_cell,
    horizontal_moves_go_to_the_next_visible_column, is_held_as, key_of, keys_name_moves,
    on_a_cell, row_total, rows_are_revealed_by_the_shortest_way,
    vertical_moves_go_over_the_dataset,
};
use crate::dom::{is_within, Nodes};
use crate::draw_laws::rows_shown;
use crate::grid::GridView;
use crate::grid_cursor::{key_nav, Nav};
use crate::header::Frame;
use crate::input::{
    action_of, header_click_step, key_step, menu_click_step, press_step, Handled, KeyAction,
};
use crate::model::SortDir;
use crate::selection::SelectionMode;
use crate::view::{refreshed, stepped, VirtualTableView};

verus! {

/// What tells the names of the keys apart that do not move.
proof fn lemma_other_key_names()
    ensures
        "a"@.len() == 1 && "a"@[0] == 'a',
        " "@.len() == 1 && " "@[0] == ' ',
        "j"@.len() == 1 && "j"@[0] == 'j',
        "k"@.len() == 1 && "k"@[0] == 'k',
        "h"@.len() == 1 && "h"@[0] == 'h',
        "l"@.len() == 1 && "l"@[0] == 'l',
        "g"@.len() == 1 && "g"@[0] == 'g',
        "G"@.len() == 1 && "G"@[0] == 'G',
        "Escape"@.len() == 6 && "Escape"@[0] == 'E',
        "PageUp"@.len() == 6 && "PageUp"@[0] == 'P',
        "Enter"@.len() == 5,
        "ArrowUp"@.len() == 7,
        "ArrowDown"@.len() == 9,
        "ArrowLeft"@.len() == 9,
        "ArrowRight"@.len() == 10,
        "Home"@.len() == 4,
        "End"@.len() == 3,
        "PageDown"@.len() == 8,
{
    reveal_strlit("a");
    reveal_strlit(" ");
    reveal_strlit("j");
    reveal_strlit("k");
    reveal_strlit("h");
    reveal_strlit("l");
    reveal_strlit("g");
    reveal_strlit("G");
    reveal_strlit("Escape");
    reveal_strlit("PageUp");
    reveal_strlit("Enter");
    reveal_strlit("ArrowUp");
    reveal_strlit("ArrowDown");
    reveal_strlit("ArrowLeft");
    reveal_strlit("ArrowRight");
    reveal_strlit("Home");
    reveal_strlit("End");
    reveal_strlit("PageDown");
}

/// With the chooser open, escape closes it, the arrows and their letters move its
/// highlight, enter and space flip the highlighted column, and no other key does
/// anything, whatever is held.
pub proof fn keys_of_an_open_chooser(mode: SelectionMode, key: Seq<char>, shift: bool, ctrl: bool)
    ensures
        ({
            let action = action_of(true, mode, key, shift, ctrl);
            &&& action is CloseMenu <==> key == "Escape"@
            &&& action is MenuDown <==> key == "ArrowDown"@ || key == "j"@
            &&& action is MenuUp <==> key == "ArrowUp"@ || key == "k"@
            &&& action is MenuActivate <==> key == "Enter"@ || key == " "@
            &&& action is Ignore || action is CloseMenu || action is MenuDown || action is MenuUp
                || action is MenuActivate
        }),
{
    lemma_other_key_names();
}

/// Where something can be selected, ctrl with `a` selects all, escape clears, space
/// toggles, and a key that moves moves the cursor, with shift the range too.
pub proof fn keys_of_a_selection(
    mode: SelectionMode,
    key: Seq<char>,
    shift: bool,
    ctrl: bool,
    nav: Nav,
)
    requires
        !(mode is Off),
    ensures
        ({
            let action = action_of(false, mode, key, shift, ctrl);
            &&& action is SelectAll <==> ctrl && key == "a"@
            &&& action is ClearSelection <==> key == "Escape"@
            &&& action is ToggleSelection <==> key == " "@
            &&& action == KeyAction::Extend(nav) <==> shift && key_nav(key) == Some(nav)
            &&& action == KeyAction::Navigate(nav) <==> !shift && key_nav(key) == Some(nav)
            &&& !(action is CloseMenu || action is MenuDown || action is MenuUp
                || action is MenuActivate)
        }),
{
    lemma_other_key_names();
    keys_name_moves(key);
}

/// Where nothing can be selected, a key that moves moves the cursor unless shift is
/// held, and no other key does anything.
pub proof fn keys_without_a_selection(key: Seq<char>, shift: bool, ctrl: bool, nav: Nav)
    ensures
        ({
            let action = action_of(false, SelectionMode::Off, key, shift, ctrl);
            &&& action == KeyAction::Navigate(nav) <==> !shift && key_nav(key) == Some(nav)
            &&& action is Navigate || action is Ignore
        }),
{
}

/// A step keeps what the move made of cursor, selection and table. Afterwards the
/// cursor's row is in view, where the window moves with it: the window moved no
/// further than it had to, and shows as many rows as the viewport has or are left.
pub proof fn a_step_follows_the_cursor(
    before: Nodes,
    after: Nodes,
    v0: VirtualTableView,
    v1: VirtualTableView,
    g1: GridView,
    scroll_to: Option<usize>,
    other: int,
)
    requires
        stepped(before, after, v0, v1, g1, scroll_to),
        row_total(v0.grid@) > 0,
        v0.grid@.table.columns.len() > 0,
        v0.frame is Some,
        0 <= g1.cursor.row < row_total(g1) <= usize::MAX,
    ensures
        v1.grid@.cursor == g1.cursor,
        v1.grid@.selection == g1.selection,
        v1.grid@.table == g1.table,
        v1.grid@.nav_active == g1.nav_active,
        !g1.scroll_mode ==> scroll_to is None,
        g1.scroll_mode ==> v1.grid@ == g1 && v1.window == v0.window,
        ({
            let from = g1.window_start as int;
            let to = v1.grid@.window_start as int;
            let page = g1.viewport_rows as int;
            let rows = row_total(g1);
            !g1.scroll_mode && page > 0 ==> {
                &&& to <= g1.cursor.row < to + page
                &&& 0 <= other <= g1.cursor.row < other + page && (other + page <= rows || other
                    == 0) ==> from <= to <= other || other <= to <= from
                &&& to == from ==> v1.window == v0.window && v1.grid@ == g1
                &&& to != from ==> v1.window.rows@.len() == rows_shown(v1.grid@, to, page)
            }
        }),
{
    assert(v0.grid@.has_cells());
    let row = g1.cursor.row as int;
    let page = g1.viewport_rows as int;
    let rows = g1.total_rows();
    if !g1.scroll_mode && page > 0 {
        rows_are_revealed_by_the_shortest_way(row, g1.window_start as int, page, rows, if row
            < page {
            0
        } else {
            row - page + 1
        });
        if 0 <= other <= row < other + page && (other + page <= rows || other == 0) {
            rows_are_revealed_by_the_shortest_way(row, g1.window_start as int, page, rows, other);
        }
    }
}

/// A key that moves, without shift and with the chooser closed, moves the cursor
/// over the dataset: one row or column, a page of as many rows as the viewport has,
/// or all the way. It ends the range and a select-all, and leaves the toggled cells.
pub proof fn a_key_moves_the_cursor(
    v0: VirtualTableView,
    n0: Nodes,
    v1: VirtualTableView,
    n1: Nodes,
    key: Seq<char>,
    ctrl: bool,
    scroll_to: Option<usize>,
)
    requires
        on_a_cell(v0.grid@),
        key_step(
            v0,
            n0,
            v1,
            n1,
            action_of(false, v0.grid@.selection.mode, key, false, ctrl),
            scroll_to,
        ),
    ensures
        ({
            let from = v0.grid@.cursor;
            let to = v1.grid@.cursor;
            let last = row_total(v0.grid@) - 1;
            let page = if v0.grid@.viewport_rows == 0 {
                1int
            } else {
                v0.grid@.viewport_rows as int
            };
            let down = key == "ArrowDown"@ || key == "j"@;
            let up = key == "ArrowUp"@ || key == "k"@;
            let right = key == "ArrowRight"@ || key == "l"@;
            let left = key == "ArrowLeft"@ || key == "h"@;
            let top = key == "Home"@ || key == "g"@;
            let bottom = key == "End"@ || key == "G"@;
            let page_down = key == "PageDown"@;
            let page_up = key == "PageUp"@;
            &&& down ==> to.col == from.col && to.row == if from.row < last {
                from.row + 1
            } else {
                last
            }
            &&& up ==> to.col == from.col && to.row == if from.row > 0 {
                from.row - 1
            } else {
                0
            }
            &&& page_down ==> to.col == from.col && to.row == if from.row + page <= last {
                from.row + page
            } else {
                last
            }
            &&& page_up ==> to.col == from.col && to.row == if from.row >= page {
                from.row - page
            } else {
                0
            }
            &&& top ==> to.col == from.col && to.row == 0
            &&& bottom ==> to.col == from.col && to.row == last
            &&& right ==> to.row == from.row && from.col <= to.col && (to.col == from.col
                || !v0.grid@.table.hidden.contains(to.col))
            &&& left ==> to.row == from.row && to.col <= from.col && (to.col == from.col
                || !v0.grid@.table.hidden.contains(to.col))
            &&& down || up || page_down || page_up || top || bottom || right || left ==> {
                let s = v1.grid@.selection;
                s.anchor is None && !s.all && s.explicit == v0.grid@.selection.explicit
            }
        }),
{
    lemma_other_key_names();
    keys_name_moves(key);
    if key_nav(key) is Some {
        let nav = key_nav(key).unwrap();
        horizontal_moves_go_to_the_next_visible_column(v0.grid@, nav);
        if !(nav is Left || nav is Right) {
            vertical_moves_go_over_the_dataset(v0.grid@, nav);
        }
        assert(v0.grid@.has_cells());
    }
}

/// A key that moves, with shift, moves the end of the range along with the cursor;
/// the range begins where it did, or else where the cursor was.
pub proof fn a_key_with_shift_extends_the_range(
    v0: VirtualTableView,
    n0: Nodes,
    v1: VirtualTableView,
    n1: Nodes,
    key: Seq<char>,
    ctrl: bool,
    scroll_to: Option<usize>,
)
    requires
        on_a_cell(v0.grid@),
        !(v0.grid@.selection.mode is Off),
        key_nav(key) is Some,
        key_step(
            v0,
            n0,
            v1,
            n1,
            action_of(false, v0.grid@.selection.mode, key, true, ctrl),
            scroll_to,
        ),
    ensures
        ({
            let g = v0.grid@;
            let s = v1.grid@.selection;
            &&& v1.grid@.cursor == g.after_nav(key_nav(key).unwrap()).cursor
            &&& s.head == (v1.grid@.cursor.row, v1.grid@.cursor.col)
            &&& g.selection.anchor is Some ==> s.anchor == g.selection.anchor
            &&& g.selection.anchor is None ==> s.anchor == Some((g.cursor.row, g.cursor.col))
            &&& s.explicit == g.selection.explicit
            &&& !s.all
        }),
{
    lemma_other_key_names();
    keys_name_moves(key);
    assert(v0.grid@.has_cells());
}

/// Ctrl with `a` selects every cell, escape none; the cursor, the table and the
/// window stay.
pub proof fn keys_select_all_and_nothing(
    v0: VirtualTableView,
    n0: Nodes,
    v1: VirtualTableView,
    n1: Nodes,
    key: Seq<char>,
    shift: bool,
    ctrl: bool,
    scroll_to: Option<usize>,
    row: usize,
    col: usize,
)
    requires
        !(v0.grid@.selection.mode is Off),
        key == "Escape"@ || (ctrl && key == "a"@),
        key_of(v0.grid@, row as int) is Some,
        key_step(
            v0,
            n0,
            v1,
            n1,
            action_of(false, v0.grid@.selection.mode, key, shift, ctrl),
            scroll_to,
        ),
    ensures
        v1.grid@.cell_selected(row, col) <==> key == "a"@,
        v1.grid@ == (GridView { selection: v1.grid@.selection, ..v0.grid@ }),
        v1.window == v0.window,
        scroll_to is None,
{
    lemma_other_key_names();
}

/// A press of the left button on a cell puts the cursor there. Plain, it ends the
/// range and a select-all and begins a drag; with shift it ends the range there;
/// with ctrl it toggles the cell alone. A press elsewhere does nothing.
pub proof fn presses_select_as_the_modifiers_say(
    v0: VirtualTableView,
    n0: Nodes,
    v1: VirtualTableView,
    n1: Nodes,
    cell: Option<(usize, usize)>,
    ctrl: bool,
    shift: bool,
    r: Handled,
    id: (Seq<char>, usize),
)
    requires
        press_step(v0, n0, v1, n1, cell, ctrl, shift, r),
        cell is Some ==> cell.unwrap().0 < row_total(v0.grid@) <= usize::MAX,
        cell is Some ==> cell.unwrap().1 < v0.grid@.table.columns.len() <= usize::MAX,
    ensures
        r.handled == cell is Some,
        cell is None ==> v1 == v0 && n1 == n0 && !r.capture && r.scroll_to is None,
        r.capture <==> cell is Some && !ctrl && !shift && v0.frame is Some,
        v1.mouse_drag <==> v0.mouse_drag || (cell is Some && !ctrl && !shift),
        cell is Some ==> {
            let (row, col) = cell.unwrap();
            let g = v0.grid@;
            let s0 = g.selection;
            let s1 = v1.grid@.selection;
            let own = key_of(g, row as int) is Some && is_held_as(
                s0.mode,
                key_of(g, row as int).unwrap(),
                col,
                id,
            );
            &&& v1.grid@.cursor.row == row && v1.grid@.cursor.col == col
            &&& v1.grid@.nav_active
            &&& s1.mode == s0.mode
            &&& !ctrl ==> s1.explicit == s0.explicit && !s1.all
            &&& !ctrl && (!shift || s0.mode is Off) ==> s1.anchor is None
            &&& !ctrl && shift && !(s0.mode is Off) ==> {
                &&& s1.head == (row, col)
                &&& s0.anchor is Some ==> s1.anchor == s0.anchor
                &&& s0.anchor is None ==> s1.anchor == Some((g.cursor.row, g.cursor.col))
            }
            &&& ctrl && !(s0.mode is Off) ==> s1.all == s0.all && s1.anchor == s0.anchor
            &&& ctrl && !(s0.mode is Off) && !s0.all ==> (s1.explicit.contains(id)
                <==> s0.explicit.contains(id) != own)
            &&& ctrl && !(s0.mode is Off) && s0.all ==> (s1.except.contains(id)
                <==> s0.except.contains(id) != own)
        },
{
    if cell is Some {
        let (row, col) = cell.unwrap();
        assert(v0.grid@.has_cells());
        a_click_leaves_the_toggled_cells(v0.grid@, row, col);
        a_click_extends_the_range(v0.grid@, row, col);
        if !(v0.grid@.selection.mode is Off) {
            a_click_toggles_one_cell(v0.grid@, row, col, id);
        }
    }
}

/// A click on the panel of an open chooser is left to it, and any other closes it;
/// with the chooser closed, a click on the chip opens it with the first of one item
/// for each column highlighted, and no other does anything.
pub proof fn clicks_open_and_close_the_chooser(
    v0: VirtualTableView,
    n0: Nodes,
    v1: VirtualTableView,
    n1: Nodes,
    target: NodeId,
    changed: bool,
)
    requires
        menu_click_step(v0, n0, v1, n1, target, changed),
        v0.wf(),
    ensures
        v1 == (VirtualTableView { menu: v1.menu, ..v0 }),
        v0.menu is Some ==> (v1.menu is None <==> !is_within(n0, v0.menu.unwrap().node, target)),
        v0.menu is None ==> (v1.menu is Some <==> v0.chip is Some && is_within(
            n0,
            v0.chip.unwrap(),
            target,
        )),
        v0.menu is None && v1.menu is Some ==> v1.menu.unwrap().cursor == 0
            && v1.menu.unwrap().items@.len() == v0.grid@.table.columns.len(),
        changed <==> v0.menu is Some != v1.menu is Some,
        !changed ==> v1 == v0 && n1 == n0,
{
}

/// What is laid out anew shows the rows that it showed, as far as there are so many,
/// and nothing of the grid changes by it but that a change of layout is noted where
/// one is watched for.
pub proof fn a_new_layout_shows_the_same_rows(
    v0: VirtualTableView,
    n: Nodes,
    v1: VirtualTableView,
    n1: Nodes,
    g1: GridView,
    frame: Frame,
)
    requires
        relaid(v0, n, v1, n1, g1),
        v0.frame == Some(frame),
        v0.window.rows@.len() <= usize::MAX,
    ensures
        v1.grid@.table == g1.table,
        v1.grid@.cursor == g1.cursor,
        v1.grid@.selection == g1.selection,
        v1.grid@.window_start == g1.window_start,
        v1.grid@.windowed == g1.windowed,
        v1.window.rows@.len() == rows_shown(
            v1.grid@,
            g1.window_start as int,
            v0.window.rows@.len() as int,
        ),
        g1.watching && !g1.muted ==> v1.grid@.changes.len() == g1.changes.len() + 1
            && v1.grid@.changes.drop_last() == g1.changes && v1.grid@.changes.last()
            == v1.grid@.layout(),
        !(g1.watching && !g1.muted) ==> v1.grid@.changes == g1.changes,
{
    let g2 = choose|g2: GridView| #[trigger]
        refreshed(
            n,
            n1,
            v0.frame,
            v0.window,
            v1.window,
            g1,
            g2,
            v0.window.rows@.len() as usize,
        ) && v1.grid@ == g2.noted();
    assert(g2.changes.push(g2.layout()).drop_last() =~= g2.changes);
    assert(g2.layout() =~= v1.grid@.layout());
}

/// A click on a column's header sorts by it ascending, then descending, then not at
/// all. It ends the range and a select-all, and leaves cursor and toggled cells.
pub proof fn header_clicks_go_round<R: Fn(&str) -> Option<u64>>(
    v0: VirtualTableView,
    n0: Nodes,
    v1: VirtualTableView,
    n1: Nodes,
    col: Option<usize>,
    read: R,
)
    requires
        header_click_step(v0, n0, v1, n1, col, read),
    ensures
        col is None ==> v1 == v0 && n1 == n0,
        col is Some ==> {
            let c = col.unwrap();
            let was = v0.grid@.table.sort;
            let now = v1.grid@.table.sort;
            let s = v1.grid@.selection;
            &&& was == Some((c, SortDir::Ascending)) ==> now == Some((c, SortDir::Descending))
            &&& was == Some((c, SortDir::Descending)) ==> now is None
            &&& was is None || was.unwrap().0 != c ==> now == Some((c, SortDir::Ascending))
            &&& v1.grid@.cursor == v0.grid@.cursor
            &&& s.anchor is None && !s.all && s.explicit == v0.grid@.selection.explicit
        },
{
}

} // verus!
