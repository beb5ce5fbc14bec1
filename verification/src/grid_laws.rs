//! What holds of a grid across its operations.

use vstd::prelude::*;

use crate::columns::sorted_grid;
use crate::data::{Delta, RowView};
use crate::grid::{key_texts, next_visible, GridView};
use crate::grid_cursor::{cursor_stays_in_the_grid, Nav};
use crate::model::{
    cells_move_with_their_columns, fresh_rows_stand_as_inserted, moved_items_follow_their_index,
    places, remapped, row_views, SortDir,
};
use crate::selection::SelectionMode;
use crate::window::{
    a_window_reads_back, an_upsert_reads_back, upserts_keep_the_window, BufferView,
};

verus! {

/// A sort takes the selection along: a row is selected in its new place exactly
/// if it was toggled on, by its identity, before.
pub proof fn sorting_keeps_the_toggled_rows<R: Fn(&str) -> Option<u64>>(
    g0: GridView,
    g1: GridView,
    col: usize,
    dir: SortDir,
    read: R,
    i: usize,
    j: usize,
    c: usize,
)
    requires
        sorted_grid(g0, g1, col, dir, read),
        !g0.windowed,
        i < g0.table.rows.len(),
        j < g1.table.rows.len(),
        g1.table.rows[j as int].key == g0.table.rows[i as int].key,
    ensures
        g1.selection.explicit == g0.selection.explicit,
        g1.cell_selected(j, c) == (g0.selection.mode != SelectionMode::Off
            && g0.selection.explicit.contains(g0.selection.id(g0.table.rows[i as int].key, c))),
        g0.selection.anchor is None && !g0.selection.all ==> g1.cell_selected(j, c)
            == g0.cell_selected(i, c),
{
}

/// Scrolling leaves the selection alone: over the rows of the model every cell
/// is selected as before.
pub proof fn scrolling_keeps_the_selection(
    g: GridView,
    start: usize,
    count: usize,
    row: usize,
    col: usize,
)
    ensures
        g.shown(start, count).selection == g.selection,
        g.shown(start, count).cursor == g.cursor,
        !g.windowed ==> g.shown(start, count).cell_selected(row, col) == g.cell_selected(row, col),
{
}

/// A live update keeps the selection; rows that change in place stay selected,
/// or not selected, as they were.
pub proof fn updates_keep_the_selection(
    g: GridView,
    epoch: u64,
    delta: Delta,
    row: usize,
    col: usize,
)
    requires
        g.buffer.wf(),
        g.windowed,
    ensures
        g.after_delta(epoch, delta).selection == g.selection,
        g.after_delta(epoch, delta).cursor == g.cursor,
        delta is Upsert ==> g.after_delta(epoch, delta).cell_selected(row, col)
            == g.cell_selected(row, col),
{
    match delta {
        Delta::Upsert { rows } => {
            lemma_upserts_keep_keys(g.buffer, row_views(rows@), row as int);
        },
        _ => {},
    }
}

proof fn lemma_upserts_keep_keys(b: BufferView, rows: Seq<RowView>, i: int)
    requires
        b.wf(),
    ensures
        b.all_upserted(rows).key_at(i) == b.key_at(i),
    decreases rows.len(),
{
    if rows.len() > 0 {
        let rest = rows.drop_last();
        upserts_keep_the_window(b, rest);
        lemma_upserts_keep_keys(b, rest, i);
        an_upsert_reads_back(b.all_upserted(rest), rows.last(), i);
    }
}

/// What comes back under another epoch than the current one is dropped.
pub proof fn stale_deltas_change_nothing(g: GridView, epoch: u64, delta: Delta)
    requires
        epoch != g.buffer.epoch,
    ensures
        g.after_delta(epoch, delta) == g,
{
}

/// A request asks, within the rows there are, for all the rows of the window and
/// at most half a window more on either side.
pub proof fn requests_cover_the_window(g: GridView, start: usize, count: usize)
    requires
        start <= g.buffer.total,
    ensures
        ({
            let (lo, hi) = g.fetch_range(start as int, count as int);
            &&& 0 <= lo <= start
            &&& g.window_end(start as int, count as int) <= hi <= g.buffer.total
            &&& hi - lo <= 2 * count
        }),
{
}

/// Each request is made under a new epoch, greater than every one before, which
/// makes the answers to earlier requests stale.
pub proof fn requests_outdate_earlier_ones(
    g: GridView,
    start: usize,
    count: usize,
    force: bool,
    epoch: u64,
    delta: Delta,
)
    requires
        g.must_request(start as int, count as int, force),
        g.buffer.epoch < u64::MAX,
        epoch <= g.buffer.epoch,
    ensures
        ({
            let asked = g.requested(start, count, force);
            &&& asked.requests.len() == g.requests.len() + 1
            &&& asked.requests.last().epoch == asked.buffer.epoch
            &&& asked.buffer.epoch > g.buffer.epoch
            &&& asked.requests.last().sort == g.sort_keys()
            &&& asked.after_delta(epoch, delta) == asked
        }),
{
}

/// The same window is not requested twice in a row.
pub proof fn requests_are_not_repeated(g: GridView, start: usize, count: usize)
    ensures
        g.requested(start, count, false).requested(start, count, false) == g.requested(
            start,
            count,
            false,
        ),
        !g.listening ==> g.requested(start, count, true) == g,
{
}

/// The answer to a request, a snapshot of the rows it asked for under its epoch,
/// puts all the rows of the window at hand, so that nothing more is requested.
pub proof fn answers_settle_requests(
    g: GridView,
    start: usize,
    count: usize,
    force: bool,
    delta: Delta,
)
    requires
        g.must_request(start as int, count as int, force),
        start <= g.buffer.total,
        delta is Resync,
        delta->Resync_start == g.fetch_range(start as int, count as int).0,
        delta->Resync_rows@.len() == g.fetch_range(start as int, count as int).1 - g.fetch_range(
            start as int,
            count as int,
        ).0,
    ensures
        ({
            let asked = g.requested(start, count, force);
            let answered = asked.after_delta(asked.buffer.epoch, delta);
            &&& answered.buffer.covers(
                start as int,
                answered.window_end(start as int, count as int),
            )
            &&& !answered.must_request(start as int, count as int, false)
        }),
{
    let asked = g.requested(start, count, force);
    let answered = asked.after_delta(asked.buffer.epoch, delta);
    requests_cover_the_window(g, start, count);
    let rows = row_views(delta->Resync_rows@);
    a_window_reads_back(asked.buffer, delta->Resync_start, rows, 0);
    assert forall|i: int|
        start <= i < answered.window_end(
            start as int,
            count as int,
        ) implies #[trigger] answered.buffer.row_at(i) is Some by {
        assert(asked.buffer.resynced(delta->Resync_start, rows).row_at(i) is Some);
    }
}

/// Invalidating drops every row at hand and, where somebody takes requests,
/// asks for the window anew under a new epoch.
pub proof fn invalidating_asks_anew(g: GridView, i: int)
    requires
        g.buffer.epoch < u64::MAX,
    ensures
        g.invalidated().buffer.row_at(i) is None,
        g.listening ==> g.invalidated().requests.len() == g.requests.len() + 1
            && g.invalidated().requests.last().epoch > g.buffer.epoch,
{
}

/// Without a windowed source the rows on show are those of the model.
pub proof fn the_model_fills_the_window(g: GridView, start: usize, count: usize, i: usize)
    requires
        !g.windowed,
        start <= i < start + count,
        i < g.table.rows.len(),
    ensures
        g.shown(start, count).buffer.row_at(i as int) == Some(g.table.rows[i as int]),
        g.shown(start, count).buffer.slots.len() <= count,
{
}

proof fn lemma_next_visible(hidden: Set<usize>, cols: int, c: int, step: int)
    requires
        step == 1 || step == -1,
        cols <= usize::MAX,
    ensures
        (match next_visible(hidden, cols, c, step) {
            Some(d) => 0 <= d < cols && !hidden.contains(d as usize) && (d - c) * step >= 0,
            None => forall|d: usize|
                0 <= d < cols && 0 <= c < cols && (d - c) * step >= 0 ==> #[trigger] hidden.contains(
                    d,
                ),
        }),
    decreases
            if step > 0 {
                cols - c
            } else {
                c + 1
            },
{
    if 0 <= c < cols && hidden.contains(c as usize) {
        lemma_next_visible(hidden, cols, c + step, step);
        assert forall|d: int|
            #![trigger ((d - c) * step)]
            (d - c) * step == (d - (c + step)) * step + 1 by {
            assert((d - c) * step == (d - (c + step)) * step + step * step) by (nonlinear_arith);
        }
        if next_visible(hidden, cols, c + step, step) is None {
            assert forall|d: usize| 0 <= d < cols && (d - c) * step >= 0 implies #[trigger] hidden.contains(
                d,
            ) by {
                if d != c {
                    if step == 1 {
                        assert(d >= c + 1);
                    } else {
                        assert(d <= c - 1);
                    }
                }
            }
        }
    }
}

/// A move of a cursor in the grid leaves it in the grid; and from a visible
/// column it never leads to a hidden one.
pub proof fn the_cursor_stays_on_visible_cells(g: GridView, nav: Nav)
    requires
        g.has_cells(),
        g.total_rows() <= usize::MAX,
        g.table.columns.len() <= usize::MAX,
        g.cursor.row < g.total_rows(),
        g.cursor.col < g.table.columns.len(),
    ensures
        g.cursor_after(nav).row < g.total_rows(),
        g.cursor_after(nav).col < g.table.columns.len(),
        !g.table.hidden.contains(g.cursor.col) ==> !g.table.hidden.contains(
            g.cursor_after(nav).col,
        ),
{
    let rows = g.total_rows() as usize;
    let cols = g.table.columns.len() as usize;
    let page = if g.viewport_rows == 0 {
        1
    } else {
        g.viewport_rows as usize
    };
    cursor_stays_in_the_grid(g.cursor, nav, 0, 0, rows, cols, page);
    let after = g.cursor.navigated(nav, rows, cols, page);
    let step = if after.col > g.cursor.col {
        1int
    } else {
        -1int
    };
    lemma_next_visible(g.table.hidden, cols as int, after.col as int, step);
}

/// While a column is visible, hiding columns leaves one visible.
pub proof fn a_column_stays_visible(g: GridView, col: usize, hidden: bool, seen: usize)
    requires
        seen < g.table.columns.len(),
        !g.table.hidden.contains(seen),
    ensures
        exists|c: usize|
            c < g.table.columns.len() && !#[trigger] g.after_hide(
                col,
                hidden,
            ).table.hidden.contains(c),
{
    let after = g.after_hide(col, hidden).table.hidden;
    if hidden && !g.last_visible(col) && seen == col {
        let c = choose|c: usize|
            c < g.table.columns.len() && c != col && !#[trigger] g.table.hidden.contains(c);
        assert(!after.contains(c));
    } else {
        assert(!after.contains(seen));
    }
}

/// Showing a column that was just hidden leaves the grid as it was.
pub proof fn showing_undoes_hiding(g: GridView, col: usize)
    requires
        !g.table.hidden.contains(col),
    ensures
        g.after_hide(col, true).after_hide(col, false) == g,
{
    assert(g.table.hidden.insert(col).remove(col) =~= g.table.hidden);
    assert(g.table.hidden.remove(col) =~= g.table.hidden);
}

/// When a column moves, a cursor in the grid stays on its row and follows its
/// column, and nothing stays selected.
pub proof fn the_cursor_follows_its_column(g: GridView, from: usize, to: usize)
    requires
        g.has_cells(),
        g.total_rows() <= usize::MAX,
        g.table.columns.len() <= usize::MAX,
        g.cursor.row < g.total_rows(),
        g.cursor.col < g.table.columns.len(),
        from < g.table.columns.len(),
        to < g.table.columns.len(),
        from != to,
    ensures
        g.after_move(from, to).cursor.row == g.cursor.row,
        g.after_move(from, to).cursor.col < g.table.columns.len(),
        g.after_move(from, to).table.columns[g.after_move(from, to).cursor.col as int]
            == g.table.columns[g.cursor.col as int],
        !g.after_move(from, to).selection.active(),
{
    moved_items_follow_their_index(
        g.table.columns,
        from as int,
        to as int,
        g.cursor.col as int,
    );
    assert(Set::<(Seq<char>, usize)>::empty().len() == 0);
}

/// Toggling the sort by one column turns it round each time, beginning with
/// ascending.
pub proof fn toggles_alternate<R: Fn(&str) -> Option<u64>>(
    g0: GridView,
    g1: GridView,
    col: usize,
    read: R,
)
    requires
        sorted_grid(g0, g1, col, g0.toggled_dir(col), read),
    ensures
        g1.table.sort == Some((col, g0.toggled_dir(col))),
        g1.toggled_dir(col) == g0.toggled_dir(col).opposite(),
        g0.table.sort is None || g0.table.sort.unwrap().0 != col ==> g0.toggled_dir(col)
            == SortDir::Ascending,
{
}

/// Clicks on one header sort by it ascending, then descending, and then not at
/// all, beginning anew on another column.
pub proof fn header_clicks_cycle<R: Fn(&str) -> Option<u64>>(
    g0: GridView,
    g1: GridView,
    g2: GridView,
    col: usize,
    read: R,
)
    requires
        (match g0.table.sort {
            Some((c, _)) => c != col,
            None => true,
        }),
        sorted_grid(g0, g1, col, SortDir::Ascending, read),
        sorted_grid(g1, g2, col, SortDir::Descending, read),
    ensures
        g0.cycled_dir(col) == Some(SortDir::Ascending),
        g1.cycled_dir(col) == Some(SortDir::Descending),
        g2.cycled_dir(col) is None,
        g2.after_clear_sort().table.sort is None,
        g2.after_clear_sort().cycled_dir(col) == Some(SortDir::Ascending),
{
}

/// Turning the sort off brings rows that were never sorted before back to where
/// they were.
pub proof fn turning_the_sort_off_restores_the_rows<R: Fn(&str) -> Option<u64>>(
    g0: GridView,
    g1: GridView,
    col: usize,
    dir: SortDir,
    read: R,
)
    requires
        g0.table.rows.len() <= u32::MAX,
        g0.table.orig == places(g0.table.rows.len()),
        sorted_grid(g0, g1, col, dir, read),
    ensures
        g1.after_clear_sort().table.rows == g0.table.rows,
        g1.after_clear_sort().table.columns == g0.table.columns,
        g1.after_clear_sort().table.hidden == g0.table.hidden,
{
    fresh_rows_stand_as_inserted(g0.table);
}

/// Each change of the layout is noted once where somebody takes changes, and
/// not at all while a layout is being restored.
pub proof fn changes_are_noted_once(g: GridView)
    ensures
        g.watching && !g.muted ==> g.noted().changes == g.changes.push(g.layout()),
        g.muted || !g.watching ==> g.noted() == g,
        g.noted().layout() == g.layout(),
{
}

/// Patches change nothing in a buffer without an index.
proof fn lemma_patches_idle(b: BufferView, rows: Seq<RowView>, keys: Seq<Seq<char>>)
    requires
        b.by_key == Map::<Seq<char>, usize>::empty(),
    ensures
        b.all_upserted(rows) == b,
        b.all_removed(keys) == b,
    decreases rows.len() + keys.len(),
{
    if rows.len() > 0 {
        lemma_patches_idle(b, rows.drop_last(), keys);
    }
    if keys.len() > 0 {
        lemma_patches_idle(b, rows, keys.drop_last());
    }
}

/// A patch before the first snapshot of an epoch changes no row: not after a
/// request, which begins an epoch; not after the buffered rows were dropped; and
/// not where the rows on show came from the model.
pub proof fn patches_wait_for_a_snapshot(
    g: GridView,
    start: usize,
    count: usize,
    force: bool,
    epoch: u64,
    delta: Delta,
)
    requires
        !(delta is Resync),
    ensures
        g.must_request(start as int, count as int, force) ==> g.requested(
            start,
            count,
            force,
        ).after_delta(epoch, delta).buffer == g.requested(start, count, force).buffer,
        g.forgotten().after_delta(epoch, delta).buffer == g.forgotten().buffer,
        g.invalidated().after_delta(epoch, delta).buffer == g.invalidated().buffer,
        !g.windowed ==> g.sourced().after_delta(epoch, delta).buffer == g.sourced().buffer
            && g.after_delta(epoch, delta).buffer.slots == g.buffer.slots,
{
    let asked = g.requested(start, count, force);
    let rows = match delta {
        Delta::Upsert { rows } => row_views(rows@),
        _ => Seq::empty(),
    };
    let keys = match delta {
        Delta::Remove { keys } => key_texts(keys@),
        _ => Seq::empty(),
    };
    if g.must_request(start as int, count as int, force) {
        lemma_patches_idle(asked.buffer, rows, keys);
    }
    lemma_patches_idle(g.forgotten().buffer, rows, keys);
    lemma_patches_idle(g.invalidated().buffer, rows, keys);
    lemma_patches_idle(g.buffer.unindexed(), rows, keys);
}

/// When a column moves, the cells of the buffered rows move with it, and the rows
/// keep their keys and their places.
pub proof fn buffered_cells_move_with_their_columns(
    g: GridView,
    from: usize,
    to: usize,
    row: int,
    col: int,
)
    requires
        from < g.table.columns.len(),
        to < g.table.columns.len(),
        from != to,
        0 <= col,
    ensures
        g.after_move(from, to).buffer.key_at(row) == g.buffer.key_at(row),
        (match (g.buffer.row_at(row), g.after_move(from, to).buffer.row_at(row)) {
            (Some(a), Some(b)) => b.cell(remapped(from as int, to as int, col)) == a.cell(col),
            (None, None) => true,
            _ => false,
        }),
{
    match g.buffer.row_at(row) {
        Some(a) => {
            cells_move_with_their_columns(a, from as int, to as int, col);
        },
        None => {},
    }
}

/// However the total changes, a window of at least one row shows a row while
/// there is one, and one that still has rows where it starts stays there.
pub proof fn a_new_total_leaves_rows_on_show(g: GridView, total: usize)
    requires
        g.current_count() > 0,
    ensures
        total > 0 ==> g.with_total(total).window_start < total,
        g.window_start < total ==> g.with_total(total).window_start == g.window_start,
        g.with_total(total).window_start <= g.window_start,
{
}

/// Without a selection mode extending does nothing.
pub proof fn extending_needs_a_mode(g: GridView, nav: Nav)
    requires
        g.selection.mode == SelectionMode::Off,
    ensures
        g.after_extend(nav) == g,
{
}

} // verus!
