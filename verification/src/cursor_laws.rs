//! Where the cursor goes, and what its moves do to the selection.

use vstd::prelude::*;

use crate::grid::{next_visible, GridView};
use crate::grid_cursor::{key_nav, revealed, GridCursor, Nav};
use crate::selection::SelectionMode;
use crate::selection_laws::{committing_toggles_the_range_as_one, names_range_cell};

verus! {

/// Each move goes one row or one column, to the first or the last row, or a page,
/// as far as the grid goes, and changes nothing else.
pub proof fn moves_go_as_far_as_the_grid(
    c: GridCursor,
    nav: Nav,
    rows: usize,
    cols: usize,
    page: usize,
)
    requires
        c.row < rows,
        c.col < cols,
    ensures
        ({
            let r = c.navigated(nav, rows, cols, page);
            &&& r.scroll == c.scroll
            &&& nav is Left || nav is Right ==> r.row == c.row
            &&& !(nav is Left || nav is Right) ==> r.col == c.col
            &&& nav is Up && c.row > 0 ==> r.row + 1 == c.row
            &&& nav is Up && c.row == 0 ==> r.row == 0
            &&& nav is Down && c.row + 1 < rows ==> r.row == c.row + 1
            &&& nav is Down && c.row + 1 == rows ==> r.row == c.row
            &&& nav is Left && c.col > 0 ==> r.col + 1 == c.col
            &&& nav is Left && c.col == 0 ==> r.col == 0
            &&& nav is Right && c.col + 1 < cols ==> r.col == c.col + 1
            &&& nav is Right && c.col + 1 == cols ==> r.col == c.col
            &&& nav is Top ==> r.row == 0
            &&& nav is Bottom ==> r.row + 1 == rows
            &&& nav is PageUp && c.row >= page ==> r.row + page == c.row
            &&& nav is PageUp && c.row < page ==> r.row == 0
            &&& nav is PageDown && c.row + page < rows ==> r.row == c.row + page
            &&& nav is PageDown && c.row + page >= rows ==> r.row + 1 == rows
        }),
{
}

/// A cursor that is placed in the grid stands there; past the grid, on its last
/// row or column.
pub proof fn the_cursor_stands_where_it_is_placed(
    c: GridCursor,
    row: usize,
    col: usize,
    rows: usize,
    cols: usize,
)
    requires
        rows > 0,
        cols > 0,
    ensures
        ({
            let r = c.placed(row, col, rows, cols);
            &&& r.scroll == c.scroll
            &&& row < rows ==> r.row == row
            &&& row >= rows ==> r.row + 1 == rows
            &&& col < cols ==> r.col == col
            &&& col >= cols ==> r.col + 1 == cols
        }),
{
}

/// A row that is revealed comes into view by the shortest way: on the way to any
/// place of the band that shows it and does not go past the rows.
pub proof fn rows_are_revealed_by_the_shortest_way(
    row: int,
    top: int,
    viewport: int,
    rows: int,
    other: int,
)
    requires
        0 <= row < rows,
        0 <= top,
        0 < viewport,
        other <= row < other + viewport,
        0 <= other,
        other + viewport <= rows || other == 0,
    ensures
        ({
            let to = revealed(row, top, viewport, rows);
            &&& to <= row < to + viewport
            &&& 0 <= to && (to + viewport <= rows || to == 0)
            &&& top <= to <= other || other <= to <= top
        }),
{
}

/// The keys that move, and the moves that they are.
pub proof fn keys_name_moves(key: Seq<char>)
    ensures
        key_nav(key) == Some(Nav::Up) <==> key == "ArrowUp"@ || key == "k"@,
        key_nav(key) == Some(Nav::Down) <==> key == "ArrowDown"@ || key == "j"@,
        key_nav(key) == Some(Nav::Left) <==> key == "ArrowLeft"@ || key == "h"@,
        key_nav(key) == Some(Nav::Right) <==> key == "ArrowRight"@ || key == "l"@,
        key_nav(key) == Some(Nav::Top) <==> key == "Home"@ || key == "g"@,
        key_nav(key) == Some(Nav::Bottom) <==> key == "End"@ || key == "G"@,
        key_nav(key) == Some(Nav::PageUp) <==> key == "PageUp"@,
        key_nav(key) == Some(Nav::PageDown) <==> key == "PageDown"@,
{
    lemma_key_names();
}

/// What tells the names of the keys apart.
proof fn lemma_key_names()
    ensures
        "k"@.len() == 1 && "k"@[0] == 'k',
        "j"@.len() == 1 && "j"@[0] == 'j',
        "h"@.len() == 1 && "h"@[0] == 'h',
        "l"@.len() == 1 && "l"@[0] == 'l',
        "g"@.len() == 1 && "g"@[0] == 'g',
        "G"@.len() == 1 && "G"@[0] == 'G',
        "ArrowUp"@.len() == 7,
        "ArrowDown"@.len() == 9 && "ArrowDown"@[5] == 'D',
        "ArrowLeft"@.len() == 9 && "ArrowLeft"@[5] == 'L',
        "ArrowRight"@.len() == 10,
        "Home"@.len() == 4,
        "End"@.len() == 3,
        "PageUp"@.len() == 6,
        "PageDown"@.len() == 8,
{
    reveal_strlit("ArrowUp");
    reveal_strlit("k");
    reveal_strlit("ArrowDown");
    reveal_strlit("j");
    reveal_strlit("ArrowLeft");
    reveal_strlit("h");
    reveal_strlit("ArrowRight");
    reveal_strlit("l");
    reveal_strlit("Home");
    reveal_strlit("g");
    reveal_strlit("End");
    reveal_strlit("G");
    reveal_strlit("PageUp");
    reveal_strlit("PageDown");
}

/// The number of rows of the dataset: those of the source, or of the model.
pub open spec fn row_total(g: GridView) -> int {
    if g.windowed {
        g.buffer.total as int
    } else {
        g.table.rows.len() as int
    }
}

/// Does the cursor stand on a cell of the grid?
pub open spec fn on_a_cell(g: GridView) -> bool {
    &&& g.cursor.row < row_total(g) <= usize::MAX
    &&& g.cursor.col < g.table.columns.len() <= usize::MAX
}

/// A vertical move goes over the whole dataset, one row, a page of as many rows as
/// the viewport has, or all the way, and stays in its column.
pub proof fn vertical_moves_go_over_the_dataset(g: GridView, nav: Nav)
    requires
        on_a_cell(g),
        !(nav is Left || nav is Right),
    ensures
        ({
            let to = g.after_nav(nav).cursor;
            let row = g.cursor.row as int;
            let last = row_total(g) - 1;
            let page = if g.viewport_rows == 0 {
                1int
            } else {
                g.viewport_rows as int
            };
            &&& to.col == g.cursor.col
            &&& nav is Up && row > 0 ==> to.row == row - 1
            &&& nav is Up && row == 0 ==> to.row == 0
            &&& nav is Down && row < last ==> to.row == row + 1
            &&& nav is Down && row == last ==> to.row == last
            &&& nav is Top ==> to.row == 0
            &&& nav is Bottom ==> to.row == last
            &&& nav is PageDown && row + page <= last ==> to.row == row + page
            &&& nav is PageDown && row + page > last ==> to.row == last
            &&& nav is PageUp && row - page >= 0 ==> to.row == row - page
            &&& nav is PageUp && row - page < 0 ==> to.row == 0
        }),
{
}

proof fn lemma_scan(hidden: Set<usize>, cols: int, c: int, step: int)
    requires
        step == 1 || step == -1,
        0 <= c < cols <= usize::MAX,
    ensures
        (match next_visible(hidden, cols, c, step) {
            Some(d) => {
                &&& 0 <= d < cols && !hidden.contains(d as usize)
                &&& step == 1 ==> c <= d && forall|k: usize| c <= k < d ==> #[trigger]
                    hidden.contains(k)
                &&& step == -1 ==> d <= c && forall|k: usize| d < k <= c ==> #[trigger]
                    hidden.contains(k)
            },
            None => {
                &&& step == 1 ==> forall|k: usize| c <= k < cols ==> #[trigger] hidden.contains(k)
                &&& step == -1 ==> forall|k: usize| 0 <= k <= c ==> #[trigger] hidden.contains(k)
            },
        }),
    decreases
            if step > 0 {
                cols - c
            } else {
                c + 1
            },
{
    if hidden.contains(c as usize) {
        if 0 <= c + step < cols {
            lemma_scan(hidden, cols, c + step, step);
        }
    }
}

/// A move to the right or to the left goes to the next visible column that way, and
/// nowhere where there is none; it stays in its row.
pub proof fn horizontal_moves_go_to_the_next_visible_column(g: GridView, nav: Nav)
    requires
        on_a_cell(g),
    ensures
        ({
            let to = g.after_nav(nav).cursor;
            let from = g.cursor.col;
            let hidden = g.table.hidden;
            let cols = g.table.columns.len();
            &&& nav is Right ==> {
                &&& to.row == g.cursor.row
                &&& to.col == from ==> forall|k: usize| from < k < cols ==> #[trigger]
                    hidden.contains(k)
                &&& to.col != from ==> from < to.col < cols && !hidden.contains(to.col) && forall|
                    k: usize,
                |
                    from < k < to.col ==> #[trigger] hidden.contains(k)
            }
            &&& nav is Left ==> {
                &&& to.row == g.cursor.row
                &&& to.col == from ==> forall|k: usize| k < from ==> #[trigger] hidden.contains(k)
                &&& to.col != from ==> to.col < from && !hidden.contains(to.col) && forall|
                    k: usize,
                |
                    to.col < k < from ==> #[trigger] hidden.contains(k)
            }
        }),
{
    let from = g.cursor.col as int;
    let cols = g.table.columns.len() as int;
    if nav is Right && from + 1 < cols {
        lemma_scan(g.table.hidden, cols, from + 1, 1);
    }
    if nav is Left && from > 0 {
        lemma_scan(g.table.hidden, cols, from - 1, -1);
    }
}

/// A plain move shows the cursor, ends the range and a select-all and leaves the
/// toggled cells; nothing else of the grid changes.
pub proof fn plain_moves_leave_the_toggled_cells(g: GridView, nav: Nav)
    requires
        on_a_cell(g),
    ensures
        ({
            let to = g.after_nav(nav);
            &&& to.nav_active
            &&& to.selection.mode == g.selection.mode
            &&& to.selection.anchor is None
            &&& !to.selection.all
            &&& to.selection.explicit == g.selection.explicit
            &&& to == (GridView {
                cursor: to.cursor,
                selection: to.selection,
                nav_active: true,
                ..g
            })
        }),
{
}

/// An extending move moves the cursor as the plain move does, and the end of the
/// range with it; a range begins where the cursor was.
pub proof fn extending_moves_take_the_range_along(g: GridView, nav: Nav)
    requires
        on_a_cell(g),
        !(g.selection.mode is Off),
    ensures
        ({
            let to = g.after_extend(nav);
            &&& to.cursor == g.after_nav(nav).cursor
            &&& to.nav_active
            &&& to.selection.mode == g.selection.mode
            &&& to.selection.head == (to.cursor.row, to.cursor.col)
            &&& g.selection.anchor is None ==> to.selection.anchor == Some(
                (g.cursor.row, g.cursor.col),
            )
            &&& g.selection.anchor is Some ==> to.selection.anchor == g.selection.anchor
            &&& to.selection.explicit == g.selection.explicit
            &&& !to.selection.all
        }),
{
}

/// A plain click puts the cursor on the cell, ends the range and a select-all, and
/// leaves the toggled cells as the only ones selected.
pub proof fn a_click_leaves_the_toggled_cells(g: GridView, row: usize, col: usize)
    requires
        row < row_total(g) <= usize::MAX,
        col < g.table.columns.len() <= usize::MAX,
    ensures
        ({
            let to = g.after_place(row, col);
            &&& to.cursor.row == row && to.cursor.col == col
            &&& to.nav_active
            &&& to.selection.mode == g.selection.mode
            &&& to.selection.anchor is None
            &&& !to.selection.all
            &&& to.selection.explicit == g.selection.explicit
            &&& to == (GridView {
                cursor: to.cursor,
                selection: to.selection,
                nav_active: true,
                ..g
            })
        }),
{
}

/// After a plain click a cell is selected exactly if something can be selected and
/// the cell was toggled on by itself, or with its row.
pub proof fn a_click_selects_the_toggled_cells_alone(
    g: GridView,
    row: usize,
    col: usize,
    r: usize,
    c: usize,
)
    requires
        row < row_total(g) <= usize::MAX,
        col < g.table.columns.len() <= usize::MAX,
    ensures
        g.after_place(row, col).cell_selected(r, c) <==> {
            &&& !(g.selection.mode is Off)
            &&& key_of(g, r as int) is Some
            &&& g.selection.mode is Row ==> g.selection.explicit.contains(
                (key_of(g, r as int).unwrap(), 0usize),
            )
            &&& g.selection.mode is Cell ==> g.selection.explicit.contains(
                (key_of(g, r as int).unwrap(), c),
            )
        },
{
}

/// A click that extends puts the cursor on the cell and ends the range there, which
/// began where it did or else where the cursor was; without a selection mode it is
/// a plain click.
pub proof fn a_click_extends_the_range(g: GridView, row: usize, col: usize)
    requires
        row < row_total(g) <= usize::MAX,
        col < g.table.columns.len() <= usize::MAX,
    ensures
        ({
            let to = g.after_extend_to(row, col);
            &&& to.cursor.row == row && to.cursor.col == col
            &&& to.nav_active
            &&& to.selection.mode == g.selection.mode
            &&& to.selection.explicit == g.selection.explicit
            &&& !to.selection.all
            &&& g.selection.mode is Off ==> to.selection.anchor is None
            &&& !(g.selection.mode is Off) ==> {
                &&& to.selection.head == (row, col)
                &&& g.selection.anchor is Some ==> to.selection.anchor == g.selection.anchor
                &&& g.selection.anchor is None ==> to.selection.anchor == Some(
                    (g.cursor.row, g.cursor.col),
                )
            }
        }),
{
}

/// The key of the row at `row`: of the model, or of the row at hand.
pub open spec fn key_of(g: GridView, row: int) -> Option<Seq<char>> {
    if g.windowed {
        if 0 <= row - g.buffer.start < g.buffer.slots.len() {
            match g.buffer.slots[row - g.buffer.start] {
                Some(r) => Some(r.key),
                None => None,
            }
        } else {
            None
        }
    } else if 0 <= row < g.table.rows.len() {
        Some(g.table.rows[row].key)
    } else {
        None
    }
}

/// Is `id` what the cell of a row with the key `key` is held under?
pub open spec fn is_held_as(
    mode: SelectionMode,
    key: Seq<char>,
    col: usize,
    id: (Seq<char>, usize),
) -> bool {
    id.0 == key && if mode is Row {
        id.1 == 0
    } else {
        id.1 == col
    }
}

/// A click that toggles puts the cursor on the cell and toggles it, by its row's
/// key, and no other; the range and a select-all stay. A row without a key cannot
/// be toggled.
pub proof fn a_click_toggles_one_cell(
    g: GridView,
    row: usize,
    col: usize,
    id: (Seq<char>, usize),
)
    requires
        row < row_total(g) <= usize::MAX,
        col < g.table.columns.len() <= usize::MAX,
        !(g.selection.mode is Off),
    ensures
        ({
            let to = g.after_toggle_at(row, col);
            let own = key_of(g, row as int) is Some && is_held_as(
                g.selection.mode,
                key_of(g, row as int).unwrap(),
                col,
                id,
            );
            &&& to.cursor.row == row && to.cursor.col == col
            &&& to.nav_active
            &&& to.selection.mode == g.selection.mode
            &&& to.selection.anchor == g.selection.anchor
            &&& to.selection.all == g.selection.all
            &&& !g.selection.all ==> (to.selection.explicit.contains(id)
                <==> g.selection.explicit.contains(id) != own)
            &&& g.selection.all ==> (to.selection.except.contains(id)
                <==> g.selection.except.contains(id) != own)
        }),
{
}

/// Toggling at the cursor without a range toggles the cursor's cell alone; the
/// cursor stays.
pub proof fn toggling_at_the_cursor_toggles_its_cell(g: GridView, id: (Seq<char>, usize))
    requires
        !(g.selection.mode is Off),
        g.selection.anchor is None,
    ensures
        ({
            let to = g.after_toggle();
            let own = key_of(g, g.cursor.row as int) is Some && is_held_as(
                g.selection.mode,
                key_of(g, g.cursor.row as int).unwrap(),
                g.cursor.col,
                id,
            );
            &&& to == (GridView { selection: to.selection, ..g })
            &&& to.selection.mode == g.selection.mode
            &&& to.selection.anchor is None
            &&& to.selection.all == g.selection.all
            &&& !g.selection.all ==> (to.selection.explicit.contains(id)
                <==> g.selection.explicit.contains(id) != own)
            &&& g.selection.all ==> (to.selection.except.contains(id)
                <==> g.selection.except.contains(id) != own)
        }),
{
}

/// Toggling at the cursor with a range commits the range: it ends, and each of its
/// cells whose row is known is toggled on, unless all of them were, when they are
/// taken back. No other cell changes.
pub proof fn toggling_at_the_cursor_commits_the_range(g: GridView, id: (Seq<char>, usize))
    requires
        !(g.selection.mode is Off),
        g.selection.anchor is Some,
    ensures
        ({
            let to = g.after_toggle();
            let at = |r: usize| key_of(g, r as int);
            let all_on = forall|k: (Seq<char>, usize)|
                #[trigger] names_range_cell(g.selection, at, k)
                    ==> g.selection.explicit.contains(k);
            &&& to == (GridView { selection: to.selection, ..g })
            &&& to.selection.anchor is None
            &&& to.selection.mode == g.selection.mode
            &&& to.selection.all == g.selection.all
            &&& !names_range_cell(g.selection, at, id) ==> (
            to.selection.explicit.contains(id) <==> g.selection.explicit.contains(id))
            &&& names_range_cell(g.selection, at, id) ==> (
            to.selection.explicit.contains(id) <==> !all_on)
        }),
{
    let at = |r: usize| key_of(g, r as int);
    let key_at = |r: usize| g.key_at(r);
    assert(at =~= key_at) by {
        assert forall|r: usize| #[trigger] at(r) == key_at(r) by {}
    }
    committing_toggles_the_range_as_one(g.selection, key_at, id);
}

/// A cell is selected by the key of its row; one whose row is not known is not.
pub proof fn cells_are_selected_by_their_rows_key(g: GridView, row: usize, col: usize)
    ensures
        g.key_at(row) == key_of(g, row as int),
        key_of(g, row as int) is None ==> !g.cell_selected(row, col),
        key_of(g, row as int) is Some ==> g.cell_selected(row, col) == g.selection.selects(
            row,
            col,
            key_of(g, row as int).unwrap(),
        ),
{
}

} // verus!
