//! What becomes of the columns, the sort and the saved layout.

use vstd::prelude::*;

use crate::columns::sorted_grid;
use crate::grid::GridView;
use crate::model::{columns_move_as_a_whole, remapped, SortDir, TableView};
use crate::sort_laws::{indices_go_with_their_items, rows_go_back_to_their_places};
use crate::window_laws::slot_at;

verus! {

/// A header toggle sorts by a column ascending, unless it was sorted so, when it is
/// sorted descending.
pub proof fn toggling_begins_ascending(g: GridView, col: usize)
    ensures
        g.toggled_dir(col) is Descending <==> g.table.sort == Some((col, SortDir::Ascending)),
{
}

/// Header clicks sort by a column ascending, then descending, then not at all.
pub proof fn clicking_goes_round(g: GridView, col: usize)
    ensures
        g.cycled_dir(col) is None <==> g.table.sort == Some((col, SortDir::Descending)),
        g.cycled_dir(col) == Some(SortDir::Descending) <==> g.table.sort == Some(
            (col, SortDir::Ascending),
        ),
{
}

/// A sort shows in the grid as the sort of its table. It ends the range and a
/// select-all, leaves the toggled cells and the cursor, and where a source fills
/// the buffer it drops the rows, so that they are asked for anew.
pub proof fn a_sort_leaves_cursor_and_toggled_cells<R: Fn(&str) -> Option<u64>>(
    g0: GridView,
    g1: GridView,
    col: usize,
    dir: SortDir,
    read: R,
    i: int,
)
    requires
        sorted_grid(g0, g1, col, dir, read),
    ensures
        g1.table.sort == Some((col, dir)),
        g1.table.columns == g0.table.columns,
        g1.table.hidden == g0.table.hidden,
        g1.cursor == g0.cursor,
        g1.window_start == g0.window_start,
        g1.selection.mode == g0.selection.mode,
        g1.selection.anchor is None,
        !g1.selection.all,
        g1.selection.explicit == g0.selection.explicit,
        g0.windowed ==> slot_at(g1.buffer, i) is None && g1.last_request is None,
        g1.buffer.total == g0.buffer.total,
        g1.buffer.epoch == g0.buffer.epoch,
{
}

/// Turning the sort off puts every row back where it was inserted, and leaves
/// cursor and toggled cells as a sort does.
pub proof fn turning_the_sort_off_puts_rows_back(g: GridView, i: int, k: int)
    requires
        g.table.wf(),
    ensures
        ({
            let to = g.after_clear_sort();
            &&& to.table.sort is None
            &&& to.table.columns == g.table.columns
            &&& to.table.hidden == g.table.hidden
            &&& to.table.rows.len() == g.table.rows.len()
            &&& 0 <= i < g.table.rows.len() ==> to.table.rows[g.table.orig[i] as int]
                == g.table.rows[i] && to.table.orig[i] == i
            &&& to.cursor == g.cursor
            &&& to.selection.anchor is None && !to.selection.all && to.selection.explicit
                == g.selection.explicit && to.selection.mode == g.selection.mode
            &&& g.windowed ==> slot_at(to.buffer, k) is None && to.last_request is None
        }),
{
    if 0 <= i < g.table.rows.len() {
        rows_go_back_to_their_places(g.table, i);
    }
}

/// Hiding or showing a column does so, and to no other; only that the one column
/// still visible cannot be hidden.
pub proof fn hiding_changes_one_column(g: GridView, col: usize, hidden: bool, c: usize)
    ensures
        ({
            let to = g.after_hide(col, hidden);
            let alone = col < g.table.columns.len() && !g.table.hidden.contains(col) && forall|
                k: usize,
            |
                k < g.table.columns.len() && k != col ==> #[trigger] g.table.hidden.contains(k);
            &&& c != col ==> (to.table.hidden.contains(c) <==> g.table.hidden.contains(c))
            &&& !hidden ==> !to.table.hidden.contains(col)
            &&& hidden ==> (to.table.hidden.contains(col) <==> !alone)
            &&& to == (GridView { table: to.table, ..g })
            &&& to.table == (TableView { hidden: to.table.hidden, ..g.table })
        }),
{
}

/// A column that is given a width, or none, has it, and keeps its header; no other
/// column changes.
pub proof fn a_width_is_given_to_one_column(g: GridView, col: usize, width: Option<u16>, c: int)
    requires
        0 <= c < g.table.columns.len() <= usize::MAX,
    ensures
        ({
            let to = g.after_width(col, width);
            &&& to.table.columns.len() == g.table.columns.len()
            &&& to.table.columns[c].header == g.table.columns[c].header
            &&& c == col ==> to.table.columns[c].width == width
            &&& c != col ==> to.table.columns[c] == g.table.columns[c]
            &&& to.table == (TableView { columns: to.table.columns, ..g.table })
            &&& to == (GridView { table: to.table, ..g })
        }),
{
}

/// When a column moves, the others keep their order; every column keeps its header,
/// its width and its hidden flag, the sort and the cursor stay with their columns,
/// and nothing is selected any more.
pub proof fn a_column_moves_alone(g: GridView, from: usize, to: usize, a: usize, b: usize)
    requires
        from < g.table.columns.len() <= usize::MAX,
        to < g.table.columns.len(),
        from != to,
        a < b < g.table.columns.len(),
    ensures
        ({
            let after = g.after_move(from, to);
            exists|x: usize, y: usize|
                #![trigger after.table.columns[x as int], after.table.columns[y as int]]
                {
                    &&& x < g.table.columns.len() && y < g.table.columns.len()
                    &&& after.table.columns[x as int] == g.table.columns[a as int]
                    &&& after.table.columns[y as int] == g.table.columns[b as int]
                    &&& after.table.hidden.contains(x) <==> g.table.hidden.contains(a)
                    &&& after.table.hidden.contains(y) <==> g.table.hidden.contains(b)
                    &&& a == from ==> x == to
                    &&& b == from ==> y == to
                    &&& a != from && b != from ==> x < y
                    &&& forall|dir: SortDir| after.table.sort == Some((x, dir)) <==> g.table.sort
                        == Some((a, dir))
                    &&& g.cursor.col == a && g.cursor.row < g.total_rows() <= usize::MAX
                        ==> after.cursor.col == x && after.cursor.row == g.cursor.row
                }
        }),
        g.after_move(from, to).selection.mode == g.selection.mode,
        g.after_move(from, to).selection.anchor is None,
        !g.after_move(from, to).selection.all,
        forall|id: (Seq<char>, usize)|
            !#[trigger] g.after_move(from, to).selection.explicit.contains(id),
{
    let after = g.after_move(from, to);
    let n = g.table.columns.len() as int;
    let x = remapped(from as int, to as int, a as int) as usize;
    let y = remapped(from as int, to as int, b as int) as usize;
    columns_move_as_a_whole(g.table, from, to, a);
    columns_move_as_a_whole(g.table, from, to, b);
    indices_go_with_their_items(from as int, to as int, a as int, b as int, n);
    assert(after.table.columns[x as int] == g.table.columns[a as int]);
    assert(after.table.columns[y as int] == g.table.columns[b as int]);
}

/// A layout is the columns in order, each with its header, its width and whether it
/// is hidden, and the sort by its column's header.
pub proof fn a_layout_says_how_columns_stand(g: GridView, i: int)
    requires
        0 <= i < g.table.columns.len() <= usize::MAX,
    ensures
        ({
            let l = g.layout();
            &&& l.columns.len() == g.table.columns.len()
            &&& l.columns[i].header == g.table.columns[i].header
            &&& l.columns[i].width == g.table.columns[i].width
            &&& l.columns[i].hidden <==> g.table.hidden.contains(i as usize)
            &&& match g.table.sort {
                Some((col, dir)) => col < g.table.columns.len() ==> {
                    l.sort matches Some(spec) && spec.column == g.table.columns[col as int].header
                        && spec.dir == dir
                },
                None => l.sort is None,
            }
        }),
{
}

} // verus!
