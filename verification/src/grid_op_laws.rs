//! What the operations of a grid do, from the grid before and their arguments to the
//! grid after and their results.

use vstd::prelude::*;

use crate::column_laws::{
    a_width_is_given_to_one_column, hiding_changes_one_column, turning_the_sort_off_puts_rows_back,
};
use crate::cursor_laws::{
    a_click_extends_the_range, a_click_leaves_the_toggled_cells,
    a_click_selects_the_toggled_cells_alone, a_click_toggles_one_cell,
    extending_moves_take_the_range_along, horizontal_moves_go_to_the_next_visible_column,
    is_held_as, key_of, on_a_cell, plain_moves_leave_the_toggled_cells, row_total,
    toggling_at_the_cursor_commits_the_range, toggling_at_the_cursor_toggles_its_cell,
    vertical_moves_go_over_the_dataset,
};
use crate::data::{reads_as, CellValue, Delta, Row, RowKey};
use crate::grid::{first_header, key_texts, Grid, GridView};
use crate::grid_cursor::{GridCursor, Nav};
use crate::model::{SortDir, VirtualTable};
use crate::selection::SelectionMode;
use crate::selection_laws::names_range_cell;
use crate::sort_laws::{cell_in, sorted_spans_rise_or_fall};
use crate::source_laws::{
    a_snapshot_replaces_the_rows, a_total_moves_the_window_up, every_pushed_key_removes_its_row,
    every_pushed_row_replaces_its_own, is_last_pushed,
};
use crate::window_laws::slot_at;

verus! {

/// Pushing rows of the current epoch to a grid that a source fills: each row whose
/// key is at hand, and that is the last of the list with its key, stands in the slot
/// of its key; the other slots stay. Rows of another epoch change nothing.
pub proof fn accepting_rows_replaces_their_own(
    g: &mut Grid,
    epoch: u64,
    rows: Vec<Row>,
    r: bool,
    i: int,
    index: int,
)
    requires
        old(g).wf(),
        old(g)@.windowed,
        call_ensures(Grid::accept, (g, epoch, Delta::Upsert { rows }), r),
    ensures
        r <==> epoch == old(g)@.buffer.epoch,
        !r ==> final(g)@ == old(g)@,
        r ==> {
            let before = old(g)@.buffer;
            let after = final(g)@.buffer;
            &&& is_last_pushed(rows@, i) && before.by_key.contains_key(rows@[i]@.key) ==> slot_at(
                after,
                before.by_key[rows@[i]@.key] as int,
            ) == Some(rows@[i]@)
            &&& (forall|j: int|
                0 <= j < rows@.len() && before.by_key.contains_key((#[trigger] rows@[j])@.key)
                    ==> before.by_key[rows@[j]@.key] != index) ==> slot_at(after, index)
                == slot_at(before, index)
            &&& after.total == before.total
            &&& final(g)@ == (GridView { buffer: after, ..old(g)@ })
        },
{
    if epoch == old(g)@.buffer.epoch {
        every_pushed_row_replaces_its_own(old(g)@, epoch, rows, i, index);
    }
}

/// Pushing keys of the current epoch to a grid that a source fills leaves no row in
/// the slots of those that are at hand; the other slots stay.
pub proof fn accepting_keys_removes_their_rows(
    g: &mut Grid,
    epoch: u64,
    keys: Vec<RowKey>,
    r: bool,
    i: int,
    index: int,
)
    requires
        old(g).wf(),
        old(g)@.windowed,
        call_ensures(Grid::accept, (g, epoch, Delta::Remove { keys }), r),
    ensures
        r <==> epoch == old(g)@.buffer.epoch,
        !r ==> final(g)@ == old(g)@,
        r ==> {
            let before = old(g)@.buffer;
            let after = final(g)@.buffer;
            &&& 0 <= i < keys@.len() && before.by_key.contains_key(keys@[i]@) ==> slot_at(
                after,
                before.by_key[keys@[i]@] as int,
            ) is None
            &&& (forall|j: int|
                0 <= j < keys@.len() && before.by_key.contains_key((#[trigger] keys@[j])@)
                    ==> before.by_key[keys@[j]@] != index) ==> slot_at(after, index) == slot_at(
                before,
                index,
            )
            &&& after.total == before.total
            &&& final(g)@ == (GridView { buffer: after, ..old(g)@ })
        },
{
    if epoch == old(g)@.buffer.epoch {
        every_pushed_key_removes_its_row(old(g)@, epoch, keys, i, index);
    }
}

/// Pushing a snapshot of the current epoch puts its rows, and no others, at hand.
pub proof fn accepting_a_snapshot_replaces_the_rows(
    g: &mut Grid,
    epoch: u64,
    start: usize,
    rows: Vec<Row>,
    r: bool,
    i: int,
)
    requires
        old(g).wf(),
        start + rows@.len() <= usize::MAX + 1,
        call_ensures(Grid::accept, (g, epoch, Delta::Resync { start, rows }), r),
    ensures
        r <==> epoch == old(g)@.buffer.epoch,
        !r ==> final(g)@ == old(g)@,
        r ==> {
            let after = final(g)@.buffer;
            &&& final(g)@.windowed
            &&& start <= i < start + rows@.len() ==> slot_at(after, i) == Some(rows@[i - start]@)
            &&& !(start <= i < start + rows@.len()) ==> slot_at(after, i) is None
            &&& after.total == old(g)@.buffer.total
        },
{
    if epoch == old(g)@.buffer.epoch {
        a_snapshot_replaces_the_rows(old(g)@, epoch, start, rows, i);
    }
}

/// Is `to` where the move `nav` leads from the cursor of `g`?
pub open spec fn leads_to(g: GridView, nav: Nav, to: GridCursor) -> bool {
    let from = g.cursor;
    let last = row_total(g) - 1;
    let page = if g.viewport_rows == 0 {
        1int
    } else {
        g.viewport_rows as int
    };
    let hidden = g.table.hidden;
    &&& !(nav is Left || nav is Right) ==> to.col == from.col
    &&& nav is Up ==> to.row == if from.row > 0 {
        from.row - 1
    } else {
        0
    }
    &&& nav is Down ==> to.row == if from.row < last {
        from.row + 1
    } else {
        last
    }
    &&& nav is Top ==> to.row == 0
    &&& nav is Bottom ==> to.row == last
    &&& nav is PageDown ==> to.row == if from.row + page <= last {
        from.row + page
    } else {
        last
    }
    &&& nav is PageUp ==> to.row == if from.row >= page {
        from.row - page
    } else {
        0
    }
    &&& nav is Right ==> {
        &&& to.row == from.row
        &&& to.col == from.col ==> forall|k: usize|
            from.col < k < g.table.columns.len() ==> #[trigger] hidden.contains(k)
        &&& to.col != from.col ==> from.col < to.col < g.table.columns.len() && !hidden.contains(
            to.col,
        ) && forall|k: usize| from.col < k < to.col ==> #[trigger] hidden.contains(k)
    }
    &&& nav is Left ==> {
        &&& to.row == from.row
        &&& to.col == from.col ==> forall|k: usize|
            k < from.col ==> #[trigger] hidden.contains(k)
        &&& to.col != from.col ==> to.col < from.col && !hidden.contains(to.col) && forall|
            k: usize,
        |
            to.col < k < from.col ==> #[trigger] hidden.contains(k)
    }
}

pub(crate) proof fn lemma_leads(g: GridView, nav: Nav)
    requires
        on_a_cell(g),
    ensures
        leads_to(g, nav, g.after_nav(nav).cursor),
        g.after_nav(nav).cursor == g.cursor_after(nav),
{
    horizontal_moves_go_to_the_next_visible_column(g, nav);
    if !(nav is Left || nav is Right) {
        vertical_moves_go_over_the_dataset(g, nav);
    }
}

/// Moving the cursor takes it where the move leads, changes nothing else, and tells
/// where it was and is.
pub proof fn moving_the_cursor_takes_it_there(
    g: &mut Grid,
    nav: Nav,
    r: Option<(GridCursor, GridCursor)>,
)
    requires
        old(g).wf(),
        on_a_cell(old(g)@),
        call_ensures(Grid::move_cursor, (g, nav), r),
    ensures
        leads_to(old(g)@, nav, final(g)@.cursor),
        final(g)@ == (GridView { cursor: final(g)@.cursor, ..old(g)@ }),
        r == Some((old(g)@.cursor, final(g)@.cursor)),
{
    lemma_leads(old(g)@, nav);
}

/// A plain move takes the cursor where the move leads, ends the range and a
/// select-all, and leaves the toggled cells; it tells whether the cursor moved.
pub proof fn navigating_moves_the_cursor(g: &mut Grid, nav: Nav, r: Option<bool>)
    requires
        old(g).wf(),
        on_a_cell(old(g)@),
        call_ensures(Grid::navigate, (g, nav), r),
    ensures
        leads_to(old(g)@, nav, final(g)@.cursor),
        r == Some(final(g)@.cursor != old(g)@.cursor),
        final(g)@.selection.anchor is None,
        !final(g)@.selection.all,
        final(g)@.selection.explicit == old(g)@.selection.explicit,
        final(g)@.selection.mode == old(g)@.selection.mode,
        final(g)@.nav_active,
        final(g)@.table == old(g)@.table,
        final(g)@.buffer == old(g)@.buffer,
{
    lemma_leads(old(g)@, nav);
    plain_moves_leave_the_toggled_cells(old(g)@, nav);
}

/// An extending move takes the cursor where the move leads, and the end of the range
/// along; the range begins where it did, or else where the cursor was.
pub proof fn extending_moves_cursor_and_range(g: &mut Grid, nav: Nav, r: Option<bool>)
    requires
        old(g).wf(),
        on_a_cell(old(g)@),
        !(old(g)@.selection.mode is Off),
        call_ensures(Grid::extend_selection, (g, nav), r),
    ensures
        leads_to(old(g)@, nav, final(g)@.cursor),
        r == Some(final(g)@.cursor != old(g)@.cursor),
        final(g)@.selection.head == (final(g)@.cursor.row, final(g)@.cursor.col),
        old(g)@.selection.anchor is Some ==> final(g)@.selection.anchor
            == old(g)@.selection.anchor,
        old(g)@.selection.anchor is None ==> final(g)@.selection.anchor == Some(
            (old(g)@.cursor.row, old(g)@.cursor.col),
        ),
        !final(g)@.selection.all,
        final(g)@.selection.explicit == old(g)@.selection.explicit,
{
    lemma_leads(old(g)@, nav);
    extending_moves_take_the_range_along(old(g)@, nav);
}

/// A plain click puts the cursor on the cell, and ends the range and a select-all. A
/// cell is then selected exactly if something can be selected and it was toggled on,
/// by itself or with its row.
pub proof fn clicking_a_cell_leaves_the_toggled_ones(
    g: &mut Grid,
    row: usize,
    col: usize,
    r: Option<bool>,
    at: usize,
    c: usize,
)
    requires
        old(g).wf(),
        row < row_total(old(g)@) <= usize::MAX,
        col < old(g)@.table.columns.len() <= usize::MAX,
        call_ensures(Grid::set_cursor_at, (g, row, col), r),
    ensures
        final(g)@.cursor.row == row,
        final(g)@.cursor.col == col,
        final(g)@.nav_active,
        final(g)@.selection.mode == old(g)@.selection.mode,
        final(g)@.selection.anchor is None,
        !final(g)@.selection.all,
        final(g)@.selection.explicit == old(g)@.selection.explicit,
        final(g)@.table == old(g)@.table,
        final(g)@.buffer == old(g)@.buffer,
        r == Some(final(g)@.cursor != old(g)@.cursor),
        final(g)@.cell_selected(at, c) <==> {
            let s = old(g)@.selection;
            &&& !(s.mode is Off)
            &&& key_of(old(g)@, at as int) is Some
            &&& s.mode is Row ==> s.explicit.contains(
                (key_of(old(g)@, at as int).unwrap(), 0usize),
            )
            &&& s.mode is Cell ==> s.explicit.contains((key_of(old(g)@, at as int).unwrap(), c))
        },
{
    a_click_leaves_the_toggled_cells(old(g)@, row, col);
    a_click_selects_the_toggled_cells_alone(old(g)@, row, col, at, c);
}

/// A click that extends puts the cursor on the cell and ends the range there, which
/// began where it did or else where the cursor was.
pub proof fn extending_to_a_cell_ends_the_range_there(
    g: &mut Grid,
    row: usize,
    col: usize,
    r: Option<bool>,
)
    requires
        old(g).wf(),
        row < row_total(old(g)@) <= usize::MAX,
        col < old(g)@.table.columns.len() <= usize::MAX,
        call_ensures(Grid::extend_selection_to, (g, row, col), r),
    ensures
        final(g)@.cursor.row == row,
        final(g)@.cursor.col == col,
        final(g)@.nav_active,
        final(g)@.selection.mode == old(g)@.selection.mode,
        final(g)@.selection.explicit == old(g)@.selection.explicit,
        !final(g)@.selection.all,
        old(g)@.selection.mode is Off ==> final(g)@.selection.anchor is None && r == Some(
            final(g)@.cursor != old(g)@.cursor,
        ),
        !(old(g)@.selection.mode is Off) ==> {
            &&& r == Some(true)
            &&& final(g)@.selection.head == (row, col)
            &&& old(g)@.selection.anchor is Some ==> final(g)@.selection.anchor
                == old(g)@.selection.anchor
            &&& old(g)@.selection.anchor is None ==> final(g)@.selection.anchor == Some(
                (old(g)@.cursor.row, old(g)@.cursor.col),
            )
        },
{
    a_click_extends_the_range(old(g)@, row, col);
}

/// A click that toggles puts the cursor on the cell and toggles it alone; the range
/// and a select-all stay.
pub proof fn toggling_a_cell_toggles_it_alone(
    g: &mut Grid,
    row: usize,
    col: usize,
    r: Option<bool>,
    id: (Seq<char>, usize),
)
    requires
        old(g).wf(),
        row < row_total(old(g)@) <= usize::MAX,
        col < old(g)@.table.columns.len() <= usize::MAX,
        !(old(g)@.selection.mode is Off),
        call_ensures(Grid::toggle_at, (g, row, col), r),
    ensures
        r == Some(true),
        final(g)@.cursor.row == row,
        final(g)@.cursor.col == col,
        final(g)@.selection.anchor == old(g)@.selection.anchor,
        final(g)@.selection.all == old(g)@.selection.all,
        ({
            let own = key_of(old(g)@, row as int) is Some && is_held_as(
                old(g)@.selection.mode,
                key_of(old(g)@, row as int).unwrap(),
                col,
                id,
            );
            let before = old(g)@.selection;
            let after = final(g)@.selection;
            &&& !before.all ==> (after.explicit.contains(id) <==> before.explicit.contains(id)
                != own)
            &&& before.all ==> (after.except.contains(id) <==> before.except.contains(id) != own)
        }),
{
    a_click_toggles_one_cell(old(g)@, row, col, id);
}

/// Toggling at the cursor toggles the cursor's cell; or, with a range, commits it:
/// each of its cells whose row is known is toggled on, unless all of them were, when
/// they are taken back. The range ends; no other cell changes, and the cursor stays.
pub proof fn toggling_at_the_cursor(g: &mut Grid, id: (Seq<char>, usize))
    requires
        old(g).wf(),
        !(old(g)@.selection.mode is Off),
        call_ensures(Grid::toggle_selection, (g,), ()),
    ensures
        ({
            let before = old(g)@.selection;
            let after = final(g)@.selection;
            let own = key_of(old(g)@, old(g)@.cursor.row as int) is Some && is_held_as(
                before.mode,
                key_of(old(g)@, old(g)@.cursor.row as int).unwrap(),
                old(g)@.cursor.col,
                id,
            );
            let at = |r: usize| key_of(old(g)@, r as int);
            let all_on = forall|k: (Seq<char>, usize)|
                #[trigger] names_range_cell(before, at, k) ==> before.explicit.contains(k);
            &&& final(g)@ == (GridView { selection: after, ..old(g)@ })
            &&& after.anchor is None
            &&& after.all == before.all
            &&& before.anchor is None && !before.all ==> (after.explicit.contains(id)
                <==> before.explicit.contains(id) != own)
            &&& before.anchor is None && before.all ==> (after.except.contains(id)
                <==> before.except.contains(id) != own)
            &&& before.anchor is Some && !names_range_cell(before, at, id) ==> (
            after.explicit.contains(id) <==> before.explicit.contains(id))
            &&& before.anchor is Some && names_range_cell(before, at, id) ==> (
            after.explicit.contains(id) <==> !all_on)
        }),
{
    if old(g)@.selection.anchor is None {
        toggling_at_the_cursor_toggles_its_cell(old(g)@, id);
    } else {
        toggling_at_the_cursor_commits_the_range(old(g)@, id);
    }
}

/// Without cells no move does anything.
pub proof fn an_empty_grid_has_no_cursor_to_move(
    g: &mut Grid,
    nav: Nav,
    row: usize,
    col: usize,
    r: Option<bool>,
)
    requires
        old(g).wf(),
        row_total(old(g)@) == 0 || old(g)@.table.columns.len() == 0,
        call_ensures(Grid::navigate, (g, nav), r) || call_ensures(
            Grid::extend_selection,
            (g, nav),
            r,
        ) || call_ensures(Grid::set_cursor_at, (g, row, col), r) || call_ensures(
            Grid::extend_selection_to,
            (g, row, col),
            r,
        ) || call_ensures(Grid::toggle_at, (g, row, col), r),
    ensures
        final(g)@ == (GridView { nav_active: final(g)@.nav_active, ..old(g)@ }),
        r is None,
{
}

/// A click past the grid puts the cursor on its last row, or its last column.
pub proof fn clicking_past_the_grid_goes_to_its_edge(
    g: &mut Grid,
    row: usize,
    col: usize,
    r: Option<bool>,
)
    requires
        old(g).wf(),
        0 < row_total(old(g)@) <= usize::MAX,
        0 < old(g)@.table.columns.len() <= usize::MAX,
        call_ensures(Grid::set_cursor_at, (g, row, col), r),
    ensures
        final(g)@.cursor.row == if row < row_total(old(g)@) {
            row as int
        } else {
            row_total(old(g)@) - 1
        },
        final(g)@.cursor.col == if col < old(g)@.table.columns.len() {
            col as int
        } else {
            old(g)@.table.columns.len() - 1
        },
{
}

/// The keys of selected rows are those under which a cell was toggled on, each once.
pub proof fn selected_rows_are_those_with_toggled_cells(g: Grid, r: Vec<RowKey>, k: Seq<char>)
    requires
        g.wf(),
        call_ensures(Grid::selected_row_keys, (&g,), r),
    ensures
        forall|i: int, j: int| 0 <= i < j < r@.len() ==> (#[trigger] r@[i])@ != (#[trigger] r@[j])@,
        (exists|i: int| 0 <= i < r@.len() && (#[trigger] r@[i])@ == k) <==> exists|c: usize|
            g@.selection.explicit.contains((k, c)),
{
    let texts = key_texts(r@);
    assert forall|i: int, j: int| 0 <= i < j < r@.len() implies (#[trigger] r@[i])@ != (
    #[trigger] r@[j])@ by {
        assert(texts[i] == r@[i]@ && texts[j] == r@[j]@);
    }
    if exists|c: usize| g@.selection.explicit.contains((k, c)) {
        assert(texts.contains(k));
        let i = choose|i: int| 0 <= i < texts.len() && texts[i] == k;
        assert(r@[i]@ == k);
    }
    if exists|i: int| 0 <= i < r@.len() && (#[trigger] r@[i])@ == k {
        let i = choose|i: int| 0 <= i < r@.len() && (#[trigger] r@[i])@ == k;
        assert(texts[i] == k);
        assert(texts.contains(k));
    }
}

/// The column that is found by a header has it, and none before it does.
pub proof fn columns_are_found_by_their_header(g: Grid, text: String, r: Option<usize>, c: int)
    requires
        call_ensures(Grid::column_named, (&g, &text), r),
        r is Some,
        0 <= c < r.unwrap(),
    ensures
        r.unwrap() < g@.table.columns.len(),
        g@.table.columns[r.unwrap() as int].header@ == text@,
        g@.table.columns[c].header@ != text@,
{
    assert(first_header(g@.table.columns, text@, r.unwrap() as int));
}

/// Sorting a grid by a column of spans puts them in order of their lengths, and
/// leaves cursor and toggled cells.
pub proof fn sorting_spans_puts_them_in_order<R: Fn(&str) -> Option<u64>>(
    g: &mut Grid,
    col: usize,
    dir: SortDir,
    read: R,
    m: spec_fn(Seq<char>) -> Option<u64>,
    i: int,
    j: int,
)
    requires
        old(g).wf(),
        call_ensures(Grid::sort::<R>, (g, col, dir, &read), ()),
        reads_as(read, m),
        forall|s: &str| #[trigger] call_requires(read, (s,)),
        forall|k: int|
            0 <= k < old(g)@.table.rows.len() ==> (#[trigger] cell_in(
                old(g)@.table,
                k,
                col,
            )) is Duration,
        0 <= i < j < final(g)@.table.rows.len(),
    ensures
        (match (cell_in(final(g)@.table, i, col), cell_in(final(g)@.table, j, col)) {
            (CellValue::Duration(a), CellValue::Duration(b)) => match dir {
                SortDir::Ascending => a.secs * 1_000_000_000 + a.nanos <= b.secs * 1_000_000_000
                    + b.nanos,
                SortDir::Descending => a.secs * 1_000_000_000 + a.nanos >= b.secs * 1_000_000_000
                    + b.nanos,
            },
            _ => false,
        }),
        final(g)@.table.sort == Some((col, dir)),
        final(g)@.cursor == old(g)@.cursor,
        final(g)@.selection.explicit == old(g)@.selection.explicit,
        final(g)@.selection.anchor is None,
        !final(g)@.selection.all,
{
    sorted_spans_rise_or_fall(old(g)@.table, final(g)@.table, col, dir, read, m, i, j);
}

/// Turning the sort off puts every row back where it was inserted.
pub proof fn clearing_the_sort_puts_rows_back(g: &mut Grid, i: int)
    requires
        old(g).wf(),
        call_ensures(Grid::clear_sort, (g,), ()),
    ensures
        final(g)@.table.sort is None,
        final(g)@.table.rows.len() == old(g)@.table.rows.len(),
        0 <= i < old(g)@.table.rows.len() ==> final(g)@.table.rows[old(g)@.table.orig[i] as int]
            == old(g)@.table.rows[i],
        final(g)@.cursor == old(g)@.cursor,
        final(g)@.selection.explicit == old(g)@.selection.explicit,
        final(g)@.selection.anchor is None,
        !final(g)@.selection.all,
{
    turning_the_sort_off_puts_rows_back(old(g)@, i, 0);
}

/// A toggle sorts by a column ascending, unless it was sorted so; a click goes on to
/// no sort from descending.
pub proof fn directions_follow_the_sort(g: Grid, col: usize, t: SortDir, c: Option<SortDir>)
    requires
        call_ensures(Grid::toggled_dir, (&g, col), t),
        call_ensures(Grid::cycled_dir, (&g, col), c),
    ensures
        t is Descending <==> g@.table.sort == Some((col, SortDir::Ascending)),
        c is None <==> g@.table.sort == Some((col, SortDir::Descending)),
        c == Some(SortDir::Descending) <==> g@.table.sort == Some((col, SortDir::Ascending)),
{
}

/// Hiding or showing a column does so, and to no other; the one column still visible
/// cannot be hidden, and it is told whether that was asked for.
pub proof fn hiding_a_column_changes_it_alone(
    g: &mut Grid,
    col: usize,
    hidden: bool,
    r: bool,
    c: usize,
)
    requires
        old(g).wf(),
        call_ensures(Grid::set_column_hidden, (g, col, hidden), r),
    ensures
        ({
            let before = old(g)@.table;
            let after = final(g)@.table;
            let alone = col < before.columns.len() && !before.hidden.contains(col) && forall|
                k: usize,
            |
                k < before.columns.len() && k != col ==> #[trigger] before.hidden.contains(k);
            &&& r <==> !(hidden && alone)
            &&& c != col ==> (after.hidden.contains(c) <==> before.hidden.contains(c))
            &&& !hidden ==> !after.hidden.contains(col)
            &&& hidden ==> (after.hidden.contains(col) <==> !alone)
            &&& after.columns == before.columns && after.rows == before.rows && after.sort
                == before.sort
        }),
{
    hiding_changes_one_column(old(g)@, col, hidden, c);
}

/// A column that is given a width, or none, has it; no other column changes.
pub proof fn sizing_a_column_changes_it_alone(
    g: &mut Grid,
    col: usize,
    width: Option<u16>,
    c: int,
)
    requires
        old(g).wf(),
        0 <= c < old(g)@.table.columns.len() <= usize::MAX,
        call_ensures(Grid::set_column_width, (g, col, width), ()),
    ensures
        final(g)@.table.columns.len() == old(g)@.table.columns.len(),
        final(g)@.table.columns[c].header == old(g)@.table.columns[c].header,
        c == col ==> final(g)@.table.columns[c].width == width,
        c != col ==> final(g)@.table.columns[c] == old(g)@.table.columns[c],
        final(g)@.table.hidden == old(g)@.table.hidden,
        final(g)@.table.rows == old(g)@.table.rows,
{
    a_width_is_given_to_one_column(old(g)@, col, width, c);
}

/// A total is that of the source from then on, and the window moves up where its
/// rows are gone.
pub proof fn setting_the_total_moves_the_window_up(g: &mut Grid, total: usize)
    requires
        old(g).wf(),
        call_ensures(Grid::set_total, (g, total), ()),
    ensures
        ({
            let count = if old(g)@.viewport_rows == 0 {
                old(g)@.buffer.slots.len() as int
            } else {
                old(g)@.viewport_rows as int
            };
            let was = old(g)@.window_start;
            let to = final(g)@;
            &&& to.windowed && to.buffer.total == total
            &&& was < total ==> to.window_start == was
            &&& was >= total && count < total ==> to.window_start + count == total
            &&& was >= total && count >= total ==> to.window_start == 0
            &&& to.cursor == old(g)@.cursor && to.selection == old(g)@.selection
        }),
{
    a_total_moves_the_window_up(old(g)@, total);
}

/// A source that takes over leaves the rows on show; where the model filled the
/// buffer before, no key names a row any more.
pub proof fn a_source_takes_over(g: &mut Grid, i: int, k: Seq<char>)
    requires
        old(g).wf(),
        call_ensures(Grid::take_source, (g,), ()),
    ensures
        final(g)@.windowed,
        slot_at(final(g)@.buffer, i) == slot_at(old(g)@.buffer, i),
        old(g)@.windowed ==> final(g)@ == old(g)@,
        !old(g)@.windowed ==> !final(g)@.buffer.by_key.contains_key(k),
        final(g)@.table == old(g)@.table,
        final(g)@.cursor == old(g)@.cursor,
        final(g)@.selection == old(g)@.selection,
{
}

/// Changing the selection mode ends every selection.
pub proof fn a_new_mode_begins_with_nothing_selected(
    g: &mut Grid,
    mode: SelectionMode,
    row: usize,
    col: usize,
)
    requires
        old(g).wf(),
        call_ensures(Grid::set_selection_mode, (g, mode), ()),
    ensures
        final(g)@.selection.mode == mode,
        !final(g)@.cell_selected(row, col),
        final(g)@.cursor == old(g)@.cursor,
        final(g)@.nav_active <==> old(g)@.nav_active || !(mode is Off),
{
}

/// A new grid shows nothing and selects nothing, with the cursor on the first cell.
pub proof fn a_new_grid_is_idle(table: VirtualTable, g: Grid, i: int, row: usize, col: usize)
    requires
        table@.wf(),
        call_ensures(Grid::new, (table,), g),
    ensures
        g@.table == table@,
        g@.cursor.row == 0 && g@.cursor.col == 0,
        g@.selection.mode is Off,
        !g@.cell_selected(row, col),
        slot_at(g@.buffer, i) is None,
        !g@.windowed && !g@.listening && !g@.watching && !g@.muted && !g@.nav_active
            && !g@.scroll_mode,
        g@.requests.len() == 0 && g@.changes.len() == 0,
        g@.window_start == 0 && g@.viewport_rows == 0 && g@.buffer.epoch == 0,
{
}

} // verus!
