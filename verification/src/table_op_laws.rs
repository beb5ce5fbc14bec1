//! What the operations of a table, a window buffer, a selection and a cursor do, from
//! what was before and their arguments to what is after and their results.

use vstd::prelude::*;

use crate::cursor_laws::{
    keys_name_moves, moves_go_as_far_as_the_grid, rows_are_revealed_by_the_shortest_way,
    the_cursor_stands_where_it_is_placed,
};
use crate::data::{reads_as, CellValue, Row, RowKey};
use crate::data_laws::decimals_stand_for_their_numbers;
use crate::grid_cursor::{nav_for_key, reveal_scroll, GridCursor, Nav};
use crate::model::{
    columns_move_as_a_whole, hidden_below, remapped, row_views, SortDir, VirtualTable,
};
use crate::natural::Measure;
use crate::selection::{GridSelection, SelectionMode};
use crate::selection_laws::{
    cells_are_selected_one_by_one, clearing_and_selecting_all, extending_moves_the_end,
    in_rectangle, rows_are_selected_one_by_one, spans, toggling_changes_one_mark,
};
use crate::sort_laws::{
    a_move_leaves_the_others_in_order, alike, cell_in, hidden_columns_are_listed, in_order,
    indices_go_with_their_items, rows_go_back_to_their_places, sorted_columns_rise_or_fall,
    taken_from,
};
use crate::value_op_laws::is_numeral;
use crate::window::WindowBuffer;
use crate::window_laws::{
    a_window_holds_its_rows, is_last_of_key, rows_are_read_at_their_index, slot_at,
};

verus! {

/// The rows to show begin where the body is scrolled to, as long as there are rows,
/// and are as many as the viewport has, as long as there are so many.
pub proof fn windows_begin_where_the_body_is_scrolled_to(
    viewport_rows: u16,
    scroll_y: usize,
    total: usize,
    r: (usize, usize),
)
    requires
        call_ensures(VirtualTable::window_for, (viewport_rows, scroll_y, total), r),
    ensures
        scroll_y <= total ==> r.0 == scroll_y,
        scroll_y > total ==> r.0 == total,
        r.0 + viewport_rows <= total ==> r.1 == viewport_rows,
        r.0 + viewport_rows > total ==> r.0 + r.1 == total,
{
}

/// Rows that are set stand in their order, each under its place in digits as its key,
/// with its cells; columns, hidden flags and the recorded sort stay.
pub proof fn set_rows_stand_in_their_order(t: &mut VirtualTable, rows: Vec<Vec<CellValue>>, i: int)
    requires
        rows@.len() <= u32::MAX,
        call_ensures(VirtualTable::set_rows, (t, rows), ()),
        0 <= i < rows@.len(),
    ensures
        final(t)@.rows.len() == rows@.len(),
        is_numeral(final(t)@.rows[i].key, i),
        final(t)@.rows[i].cells == rows@[i]@,
        final(t)@.orig[i] == i,
        final(t)@.columns == old(t)@.columns,
        final(t)@.hidden == old(t)@.hidden,
        final(t)@.sort == old(t)@.sort,
{
    decimals_stand_for_their_numbers(i as nat);
}

/// Rows that are set with their keys stand in their order, with keys and cells.
pub proof fn set_rows_keep_their_keys(t: &mut VirtualTable, rows: Vec<Row>, i: int)
    requires
        rows@.len() <= u32::MAX,
        call_ensures(VirtualTable::set_rows_keyed, (t, rows), ()),
        0 <= i < rows@.len(),
    ensures
        final(t)@.rows.len() == rows@.len(),
        final(t)@.rows[i] == rows@[i]@,
        final(t)@.orig[i] == i,
        final(t)@.columns == old(t)@.columns,
        final(t)@.hidden == old(t)@.hidden,
        final(t)@.sort == old(t)@.sort,
{
    assert(row_views(rows@)[i] == rows@[i]@);
}

/// A row that is pushed comes last, with its place in digits as its key; the others
/// stay.
pub proof fn a_pushed_row_comes_last(t: &mut VirtualTable, cells: Vec<CellValue>, i: int)
    requires
        old(t)@.wf(),
        old(t)@.rows.len() < u32::MAX,
        call_ensures(VirtualTable::push_row, (t, cells), ()),
    ensures
        final(t)@.rows.len() == old(t)@.rows.len() + 1,
        is_numeral(final(t)@.rows.last().key, old(t)@.rows.len() as int),
        final(t)@.rows.last().cells == cells@,
        final(t)@.orig.last() == old(t)@.rows.len(),
        0 <= i < old(t)@.rows.len() ==> final(t)@.rows[i] == old(t)@.rows[i] && final(t)@.orig[i]
            == old(t)@.orig[i],
        final(t)@.columns == old(t)@.columns,
        final(t)@.hidden == old(t)@.hidden,
        final(t)@.sort == old(t)@.sort,
{
    decimals_stand_for_their_numbers(old(t)@.rows.len());
}

/// Hiding a column hides it and showing it shows it; no other column changes.
pub proof fn flags_are_set_one_by_one(
    t: &mut VirtualTable,
    col: usize,
    hidden: bool,
    c: usize,
)
    requires
        call_ensures(VirtualTable::set_column_hidden, (t, col, hidden), ()),
    ensures
        final(t)@.hidden.contains(col) <==> hidden,
        c != col ==> (final(t)@.hidden.contains(c) <==> old(t)@.hidden.contains(c)),
        final(t)@.columns == old(t)@.columns,
        final(t)@.rows == old(t)@.rows,
        final(t)@.sort == old(t)@.sort,
{
}

/// A width is that of its column; no other column changes.
pub proof fn widths_are_set_one_by_one(
    t: &mut VirtualTable,
    col: usize,
    width: Option<u16>,
    c: int,
)
    requires
        0 <= c < old(t)@.columns.len() <= usize::MAX,
        call_ensures(VirtualTable::set_column_width, (t, col, width), ()),
    ensures
        final(t)@.columns.len() == old(t)@.columns.len(),
        c == col ==> final(t)@.columns[c].width == width && final(t)@.columns[c].header
            == old(t)@.columns[c].header,
        c != col ==> final(t)@.columns[c] == old(t)@.columns[c],
        final(t)@.hidden == old(t)@.hidden,
        final(t)@.rows == old(t)@.rows,
        final(t)@.sort == old(t)@.sort,
{
}

/// Sorting by a column whose cells are of one kind takes every row over, and puts the
/// column in order; rows whose cells are the same keep their order.
pub proof fn sorting_puts_a_column_in_order<R: Fn(&str) -> Option<u64>>(
    t: &mut VirtualTable,
    col: usize,
    dir: SortDir,
    read: R,
    m: spec_fn(Seq<char>) -> Option<u64>,
    kind: Measure,
)
    requires
        old(t)@.wf(),
        forall|s: &str| #[trigger] call_requires(read, (s,)),
        call_ensures(VirtualTable::sort_by::<R>, (t, col, dir, &read), ()),
        reads_as(read, m),
        forall|i: int|
            0 <= i < old(t)@.rows.len() ==> alike(#[trigger] cell_in(old(t)@, i, col), kind, m),
    ensures
        final(t)@.sort == Some((col, dir)),
        final(t)@.columns == old(t)@.columns,
        final(t)@.hidden == old(t)@.hidden,
        exists|p: Seq<int>| #[trigger]
            taken_from(old(t)@, final(t)@, p) && in_order(final(t)@, col, dir, m, p),
{
    sorted_columns_rise_or_fall(old(t)@, final(t)@, col, dir, read, m, kind);
}

/// Turning the sort off puts every row back where it was inserted.
pub proof fn unsorted_rows_stand_where_they_were_inserted(t: &mut VirtualTable, i: int)
    requires
        old(t)@.wf(),
        call_ensures(VirtualTable::clear_sort, (t,), ()),
        0 <= i < old(t)@.rows.len(),
    ensures
        final(t)@.sort is None,
        final(t)@.rows.len() == old(t)@.rows.len(),
        final(t)@.rows[old(t)@.orig[i] as int] == old(t)@.rows[i],
        final(t)@.orig[i] == i,
        final(t)@.columns == old(t)@.columns,
        final(t)@.hidden == old(t)@.hidden,
{
    rows_go_back_to_their_places(old(t)@, i);
}

/// A column that is moved stands at its new place and the others keep their order;
/// every column takes its hidden flag and its cells along.
pub proof fn a_moved_column_takes_its_cells_along(
    t: &mut VirtualTable,
    from: usize,
    to: usize,
    c: usize,
    row: int,
) -> (d: usize)
    requires
        old(t)@.wf(),
        call_ensures(VirtualTable::move_column, (t, from, to), ()),
        from < old(t)@.columns.len() <= usize::MAX,
        to < old(t)@.columns.len(),
        from != to,
        c < old(t)@.columns.len(),
        0 <= row < old(t)@.rows.len(),
    ensures
        final(t)@.columns.len() == old(t)@.columns.len(),
        final(t)@.columns[to as int] == old(t)@.columns[from as int],
        final(t)@.columns.remove(to as int) == old(t)@.columns.remove(from as int),
        c == from ==> d == to,
        d < old(t)@.columns.len(),
        final(t)@.columns[d as int] == old(t)@.columns[c as int],
        final(t)@.hidden.contains(d) <==> old(t)@.hidden.contains(c),
        final(t)@.rows.len() == old(t)@.rows.len(),
        final(t)@.rows[row].key == old(t)@.rows[row].key,
        cell_in(final(t)@, row, d) == cell_in(old(t)@, row, c),
{
    a_move_leaves_the_others_in_order(old(t)@.columns, from as int, to as int);
    columns_move_as_a_whole(old(t)@, from, to, c);
    let d = remapped(from as int, to as int, c as int) as usize;
    assert(final(t)@.rows[row].cell(d as int) == old(t)@.rows[row].cell(c as int));
    d
}

/// An index goes where its item goes.
pub proof fn indices_go_where_their_items_go(
    from: usize,
    to: usize,
    i: usize,
    j: usize,
    n: usize,
    a: usize,
    b: usize,
)
    requires
        call_ensures(VirtualTable::remapped_index, (from, to, i), a),
        call_ensures(VirtualTable::remapped_index, (from, to, j), b),
        from < n,
        to < n,
        i < n,
        j < n,
    ensures
        a < n,
        i == from ==> a == to,
        i != j ==> a != b,
        i != from && j != from && i < j ==> a < b,
        i < from && i < to || i > from && i > to ==> a == i,
{
    indices_go_with_their_items(from as int, to as int, i as int, j as int, n as int);
}

/// The hidden columns are listed in their order, each with its header.
pub proof fn listed_columns_are_the_hidden_ones(
    t: VirtualTable,
    r: Vec<(usize, &str)>,
    i: int,
    j: int,
    c: usize,
)
    requires
        call_ensures(VirtualTable::hidden_columns, (&t,), r),
        t@.columns.len() <= usize::MAX,
    ensures
        0 <= i < r@.len() ==> r@[i].0 < t@.columns.len() && t@.hidden.contains(r@[i].0)
            && r@[i].1@ == t@.columns[r@[i].0 as int].header@,
        0 <= i < j < r@.len() ==> r@[i].0 < r@[j].0,
        c < t@.columns.len() && t@.hidden.contains(c) ==> exists|k: int|
            0 <= k < r@.len() && (#[trigger] r@[k]).0 == c,
{
    hidden_columns_are_listed(t@, t@.columns.len());
    if 0 <= i < r@.len() {
        assert(r@[i].0 == r@[i].0);
    }
    if 0 <= j < r@.len() {
        assert(r@[j].0 == r@[j].0);
    }
    if c < t@.columns.len() && t@.hidden.contains(c) {
        let list = hidden_below(t@, t@.columns.len());
        let k = choose|k: int| 0 <= k < list.len() && (#[trigger] list[k]).0 == c;
        assert(r@[k].0 == c);
    }
}

/// An upserted row stands in the slot of its key, if it is at hand; the others stay,
/// and the index with them. It is told whether it was.
pub proof fn an_upserted_row_stands_in_its_slot(b: &mut WindowBuffer, row: Row, r: bool, i: int)
    requires
        old(b).wf(),
        old(b)@.wf(),
        call_ensures(WindowBuffer::upsert, (b, row), r),
    ensures
        r <==> old(b)@.by_key.contains_key(row@.key),
        r && i == old(b)@.by_key[row@.key] ==> slot_at(final(b)@, i) == Some(row@),
        !(r && i == old(b)@.by_key[row@.key]) ==> slot_at(final(b)@, i) == slot_at(old(b)@, i),
        final(b)@.by_key == old(b)@.by_key,
        final(b)@.total == old(b)@.total,
        final(b)@.epoch == old(b)@.epoch,
{
}

/// A removed key leaves no row in its slot, if it is at hand, and names none any
/// more; the other slots stay.
pub proof fn a_removed_key_leaves_no_row(
    b: &mut WindowBuffer,
    key: RowKey,
    r: bool,
    i: int,
    k: Seq<char>,
)
    requires
        old(b).wf(),
        old(b)@.wf(),
        call_ensures(WindowBuffer::remove, (b, &key), r),
    ensures
        r <==> old(b)@.by_key.contains_key(key@),
        r && i == old(b)@.by_key[key@] ==> slot_at(final(b)@, i) is None,
        !(r && i == old(b)@.by_key[key@]) ==> slot_at(final(b)@, i) == slot_at(old(b)@, i),
        final(b)@.by_key.contains_key(k) <==> old(b)@.by_key.contains_key(k) && k != key@,
        final(b)@.total == old(b)@.total,
        final(b)@.epoch == old(b)@.epoch,
{
}

/// A window that is set holds its rows and no others, and each key names the last row
/// with it.
pub proof fn a_set_window_holds_its_rows(
    b: &mut WindowBuffer,
    start: usize,
    rows: Vec<Row>,
    i: int,
)
    requires
        old(b).wf(),
        start + rows@.len() <= usize::MAX + 1,
        call_ensures(WindowBuffer::set_window, (b, start, rows), ()),
    ensures
        start <= i < start + rows@.len() ==> slot_at(final(b)@, i) == Some(rows@[i - start]@),
        !(start <= i < start + rows@.len()) ==> slot_at(final(b)@, i) is None,
        start <= i < start + rows@.len() && (forall|j: int|
            i - start < j < rows@.len() ==> (#[trigger] rows@[j])@.key != rows@[i - start]@.key)
            ==> final(b)@.by_key.contains_key(rows@[i - start]@.key) && final(b)@.by_key[rows@[i
            - start]@.key] == i,
        final(b)@.total == old(b)@.total,
        final(b)@.epoch == old(b)@.epoch,
{
    let views = row_views(rows@);
    a_window_holds_its_rows(old(b)@, start, views);
    if start <= i < start + rows@.len() {
        let k = i - start;
        assert(views[k] == rows@[k]@);
        if forall|j: int| k < j < rows@.len() ==> (#[trigger] rows@[j])@.key != rows@[k]@.key {
            assert forall|j: int| k < j < views.len() implies (#[trigger] views[j]).key
                != views[k].key by {
                assert(views[j] == rows@[j]@);
            }
            assert(is_last_of_key(views, k));
        }
    }
}

/// A row is read in its slot, and its key with it.
pub proof fn slots_are_read_by_their_index(
    b: WindowBuffer,
    index: usize,
    row: Option<&Row>,
    key: Option<&RowKey>,
    loaded: bool,
)
    requires
        call_ensures(WindowBuffer::row_at, (&b, index), row),
        call_ensures(WindowBuffer::key_at, (&b, index), key),
        call_ensures(WindowBuffer::is_loaded, (&b, index), loaded),
    ensures
        row is Some <==> slot_at(b@, index as int) is Some,
        row is Some ==> slot_at(b@, index as int) == Some(row.unwrap()@),
        key is Some <==> slot_at(b@, index as int) is Some,
        key is Some ==> slot_at(b@, index as int).unwrap().key == key.unwrap()@,
        loaded <==> slot_at(b@, index as int) is Some,
{
    rows_are_read_at_their_index(b@, index as int, 0, 0);
}

/// A cleared buffer holds no row and knows no key; total and epoch stay.
pub proof fn cleared_buffers_hold_no_row(b: &mut WindowBuffer, i: int, k: Seq<char>)
    requires
        old(b).wf(),
        call_ensures(WindowBuffer::clear_rows, (b,), ()),
    ensures
        slot_at(final(b)@, i) is None,
        !final(b)@.by_key.contains_key(k),
        final(b)@.total == old(b)@.total,
        final(b)@.epoch == old(b)@.epoch,
{
}

/// A cell is selected if it is not taken out of a select-all, if it was toggled on, or
/// if it is in the rectangle of the range; in row mode, if its row is; and without a
/// mode, not at all.
pub proof fn selected_cells(s: GridSelection, row: usize, col: usize, key: RowKey, r: bool)
    requires
        call_ensures(GridSelection::is_selected, (&s, row, col, &key), r),
    ensures
        s@.mode is Off ==> !r,
        s@.mode is Cell ==> (r <==> {
            ||| s@.all && !s@.except.contains((key@, col))
            ||| s@.explicit.contains((key@, col))
            ||| s@.anchor is Some && in_rectangle(s@.anchor.unwrap(), s@.head, row, col)
        }),
        s@.mode is Row ==> (r <==> {
            ||| s@.all && !s@.except.contains((key@, 0))
            ||| s@.explicit.contains((key@, 0))
            ||| s@.anchor is Some && spans(s@.anchor.unwrap().0, s@.head.0, row)
        }),
{
    if s@.mode is Cell {
        cells_are_selected_one_by_one(s@, row, col, key@);
    }
    if s@.mode is Row {
        rows_are_selected_one_by_one(s@, row, col, key@);
    }
}

/// Extending takes the end of the range to a cell; a range begins where the cursor
/// was. The toggled cells stay, and a select-all ends.
pub proof fn an_extended_range_ends_at_the_cell(
    s: &mut GridSelection,
    from: (usize, usize),
    to: (usize, usize),
)
    requires
        old(s).wf(),
        !(old(s)@.mode is Off),
        call_ensures(GridSelection::extend, (s, from, to), ()),
    ensures
        final(s)@.mode == old(s)@.mode,
        final(s)@.head == to,
        old(s)@.anchor is Some ==> final(s)@.anchor == old(s)@.anchor,
        old(s)@.anchor is None ==> final(s)@.anchor == Some(from),
        final(s)@.explicit == old(s)@.explicit,
        !final(s)@.all,
{
    extending_moves_the_end(old(s)@, from, to);
}

/// Toggling a cell changes whether it is marked, and no other.
pub proof fn a_toggled_cell_changes_alone(
    s: &mut GridSelection,
    key: RowKey,
    col: usize,
    id: (Seq<char>, usize),
)
    requires
        old(s).wf(),
        !(old(s)@.mode is Off),
        call_ensures(GridSelection::toggle, (s, key, col), ()),
    ensures
        ({
            let own = id.0 == key@ && if old(s)@.mode is Row {
                id.1 == 0
            } else {
                id.1 == col
            };
            let before = old(s)@;
            let after = final(s)@;
            &&& after.mode == before.mode && after.anchor == before.anchor && after.head
                == before.head && after.all == before.all
            &&& before.all ==> after.explicit == before.explicit && (after.except.contains(id)
                <==> before.except.contains(id) != own)
            &&& !before.all ==> after.except == before.except && (after.explicit.contains(id)
                <==> before.explicit.contains(id) != own)
        }),
{
    toggling_changes_one_mark(old(s)@, key@, col, id);
}

/// Selecting all leaves no other mark, clearing none at all, and collapsing the
/// toggled cells.
pub proof fn selections_end_as_they_should(
    a: &mut GridSelection,
    b: &mut GridSelection,
    c: &mut GridSelection,
    id: (Seq<char>, usize),
)
    requires
        old(a).wf() && call_ensures(GridSelection::select_all, (a,), ()),
        call_ensures(GridSelection::clear, (b,), ()),
        old(c).wf() && call_ensures(GridSelection::collapse_transient, (c,), ()),
    ensures
        final(a)@.mode == old(a)@.mode,
        !(old(a)@.mode is Off) ==> final(a)@.all && final(a)@.anchor is None
            && !final(a)@.explicit.contains(id) && !final(a)@.except.contains(id),
        final(b)@.mode == old(b)@.mode && final(b)@.anchor is None && !final(b)@.all
            && !final(b)@.explicit.contains(id),
        final(c)@.mode == old(c)@.mode && final(c)@.anchor is None && !final(c)@.all
            && final(c)@.explicit == old(c)@.explicit,
{
    clearing_and_selecting_all(old(a)@, id);
    clearing_and_selecting_all(old(b)@, id);
}

/// A new mode begins with nothing selected.
pub proof fn modes_begin_with_nothing(
    s: &mut GridSelection,
    mode: SelectionMode,
    id: (Seq<char>, usize),
)
    requires
        call_ensures(GridSelection::set_mode, (s, mode), ()),
    ensures
        final(s)@.mode == mode,
        final(s)@.anchor is None,
        !final(s)@.all,
        !final(s)@.explicit.contains(id),
{
}

/// A cursor goes one row or column, a page, or to an end, and no further than the
/// grid; and it is put where it is put, or else at the edge.
pub proof fn cursors_go_as_far_as_the_grid(
    c: GridCursor,
    nav: Nav,
    row: usize,
    col: usize,
    rows: usize,
    cols: usize,
    page: usize,
    r: GridCursor,
    p: GridCursor,
)
    requires
        c.row < rows,
        c.col < cols,
        call_ensures(GridCursor::navigate, (c, nav, rows, cols, page), r),
        call_ensures(GridCursor::at, (c, row, col, rows, cols), p),
    ensures
        nav is Left || nav is Right ==> r.row == c.row,
        !(nav is Left || nav is Right) ==> r.col == c.col,
        nav is Up ==> r.row == if c.row > 0 {
            c.row - 1
        } else {
            0
        },
        nav is Down ==> r.row == if c.row + 1 < rows {
            c.row + 1
        } else {
            c.row as int
        },
        nav is Left ==> r.col == if c.col > 0 {
            c.col - 1
        } else {
            0
        },
        nav is Right ==> r.col == if c.col + 1 < cols {
            c.col + 1
        } else {
            c.col as int
        },
        nav is Top ==> r.row == 0,
        nav is Bottom ==> r.row == rows - 1,
        nav is PageUp ==> r.row == if c.row >= page {
            c.row - page
        } else {
            0
        },
        nav is PageDown ==> r.row == if c.row + page < rows {
            c.row + page
        } else {
            rows - 1
        },
        p.row == if row < rows {
            row as int
        } else {
            rows - 1
        },
        p.col == if col < cols {
            col as int
        } else {
            cols - 1
        },
{
    moves_go_as_far_as_the_grid(c, nav, rows, cols, page);
    the_cursor_stands_where_it_is_placed(c, row, col, rows, cols);
}

/// A row is revealed by the shortest way.
pub proof fn a_revealed_row_is_in_view(
    row: usize,
    top: usize,
    viewport: usize,
    rows: usize,
    r: usize,
    other: int,
)
    requires
        row < rows,
        0 < viewport,
        other <= row < other + viewport,
        0 <= other,
        other + viewport <= rows || other == 0,
        call_ensures(reveal_scroll, (row, top, viewport, rows), r),
    ensures
        r <= row < r + viewport,
        r + viewport <= rows || r == 0,
        top <= r <= other || other <= r <= top,
{
    rows_are_revealed_by_the_shortest_way(
        row as int,
        top as int,
        viewport as int,
        rows as int,
        other,
    );
}

/// A key names a move unless shift is held.
pub proof fn keys_move_without_shift(key: &str, shift: bool, r: Option<Nav>)
    requires
        call_ensures(nav_for_key, (key, shift), r),
    ensures
        shift ==> r is None,
        !shift ==> {
            &&& r == Some(Nav::Up) <==> key@ == "ArrowUp"@ || key@ == "k"@
            &&& r == Some(Nav::Down) <==> key@ == "ArrowDown"@ || key@ == "j"@
            &&& r == Some(Nav::Left) <==> key@ == "ArrowLeft"@ || key@ == "h"@
            &&& r == Some(Nav::Right) <==> key@ == "ArrowRight"@ || key@ == "l"@
            &&& r == Some(Nav::Top) <==> key@ == "Home"@ || key@ == "g"@
            &&& r == Some(Nav::Bottom) <==> key@ == "End"@ || key@ == "G"@
            &&& r == Some(Nav::PageUp) <==> key@ == "PageUp"@
            &&& r == Some(Nav::PageDown) <==> key@ == "PageDown"@
        },
{
    keys_name_moves(key@);
}

} // verus!
