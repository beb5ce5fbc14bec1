//! What a windowed source is asked for, and what its answers do.

use vstd::prelude::*;

use crate::cursor_laws::row_total;
use crate::data::{Delta, Row, RowKey};
use crate::grid::{key_texts, GridView};
use crate::model::row_views;
use crate::window::{removals_keep_the_window, upserts_keep_the_window};
use crate::window_laws::{
    a_window_holds_its_rows, every_key_of_a_list_is_removed, every_row_of_a_list_is_upserted,
    is_last_of_key, rows_are_read_at_their_index, slot_at,
};

verus! {

/// Is `rows[i]` the last of the pushed rows with its key?
pub open spec fn is_last_pushed(rows: Seq<Row>, i: int) -> bool {
    &&& 0 <= i < rows.len()
    &&& forall|j: int| i < j < rows.len() ==> (#[trigger] rows[j])@.key != rows[i]@.key
}

/// A push of rows under the current epoch replaces every row at hand that it names,
/// each by the last one pushed with its key, and no other.
pub proof fn every_pushed_row_replaces_its_own(
    g: GridView,
    epoch: u64,
    rows: Vec<Row>,
    i: int,
    index: int,
)
    requires
        g.buffer.wf(),
        g.windowed,
        epoch == g.buffer.epoch,
    ensures
        ({
            let after = g.after_delta(epoch, Delta::Upsert { rows });
            &&& is_last_pushed(rows@, i) && g.buffer.by_key.contains_key(rows@[i]@.key) ==> slot_at(
                after.buffer,
                g.buffer.by_key[rows@[i]@.key] as int,
            ) == Some(rows@[i]@)
            &&& (forall|j: int|
                0 <= j < rows@.len() && g.buffer.by_key.contains_key((#[trigger] rows@[j])@.key)
                    ==> g.buffer.by_key[rows@[j]@.key] != index) ==> slot_at(after.buffer, index)
                == slot_at(g.buffer, index)
            &&& after.buffer.total == g.buffer.total
            &&& after.buffer.epoch == g.buffer.epoch
            &&& after == (GridView { buffer: after.buffer, ..g })
        }),
{
    let views = row_views(rows@);
    every_row_of_a_list_is_upserted(g.buffer, views);
    upserts_keep_the_window(g.buffer, views);
    if is_last_pushed(rows@, i) {
        assert(views[i] == rows@[i]@);
        assert(is_last_of_key(views, i)) by {
            assert forall|j: int| i < j < views.len() implies (#[trigger] views[j]).key
                != views[i].key by {
                assert(views[j] == rows@[j]@);
            }
        }
    }
    if forall|j: int|
        0 <= j < rows@.len() && g.buffer.by_key.contains_key((#[trigger] rows@[j])@.key)
            ==> g.buffer.by_key[rows@[j]@.key] != index {
        assert forall|j: int|
            0 <= j < views.len() && g.buffer.by_key.contains_key(
                (#[trigger] views[j]).key,
            ) implies g.buffer.by_key[views[j].key] != index by {
            assert(views[j] == rows@[j]@);
        }
    }
}

/// A push of keys under the current epoch turns every row at hand that it names
/// into a placeholder, and no other.
pub proof fn every_pushed_key_removes_its_row(
    g: GridView,
    epoch: u64,
    keys: Vec<RowKey>,
    i: int,
    index: int,
)
    requires
        g.buffer.wf(),
        g.windowed,
        epoch == g.buffer.epoch,
    ensures
        ({
            let after = g.after_delta(epoch, Delta::Remove { keys });
            &&& 0 <= i < keys@.len() && g.buffer.by_key.contains_key(keys@[i]@) ==> slot_at(
                after.buffer,
                g.buffer.by_key[keys@[i]@] as int,
            ) is None
            &&& (forall|j: int|
                0 <= j < keys@.len() && g.buffer.by_key.contains_key((#[trigger] keys@[j])@)
                    ==> g.buffer.by_key[keys@[j]@] != index) ==> slot_at(after.buffer, index)
                == slot_at(g.buffer, index)
            &&& after.buffer.total == g.buffer.total
            &&& after.buffer.epoch == g.buffer.epoch
            &&& after == (GridView { buffer: after.buffer, ..g })
        }),
{
    let texts = key_texts(keys@);
    every_key_of_a_list_is_removed(g.buffer, texts);
    removals_keep_the_window(g.buffer, texts);
    if 0 <= i < keys@.len() {
        assert(texts[i] == keys@[i]@);
        assert(texts.contains(keys@[i]@));
    }
    if forall|j: int|
        0 <= j < keys@.len() && g.buffer.by_key.contains_key((#[trigger] keys@[j])@)
            ==> g.buffer.by_key[keys@[j]@] != index {
        assert forall|k: Seq<char>|
            #![trigger g.buffer.by_key.contains_key(k)]
            g.buffer.by_key.contains_key(k) && texts.contains(k) implies g.buffer.by_key[k]
            != index by {
            let j = choose|j: int| 0 <= j < texts.len() && texts[j] == k;
            assert(keys@[j]@ == k);
        }
    }
}

/// A snapshot under the current epoch takes the place of all the rows at hand.
pub proof fn a_snapshot_replaces_the_rows(
    g: GridView,
    epoch: u64,
    start: usize,
    rows: Vec<Row>,
    i: int,
)
    requires
        epoch == g.buffer.epoch,
        start + rows@.len() <= usize::MAX + 1,
    ensures
        ({
            let after = g.after_delta(epoch, Delta::Resync { start, rows });
            &&& after.windowed
            &&& start <= i < start + rows@.len() ==> slot_at(after.buffer, i) == Some(
                rows@[i - start]@,
            )
            &&& !(start <= i < start + rows@.len()) ==> slot_at(after.buffer, i) is None
            &&& after.buffer.total == g.buffer.total
            &&& after.buffer.epoch == g.buffer.epoch
            &&& after.cursor == g.cursor && after.selection == g.selection && after.table
                == g.table && after.window_start == g.window_start
        }),
{
    let views = row_views(rows@);
    a_window_holds_its_rows(g.sourced().buffer, start, views);
    if start <= i < start + rows@.len() {
        assert(views[i - start] == rows@[i - start]@);
    }
}

/// Where the window of `count` rows from `start` ends.
pub open spec fn ends_at(g: GridView, start: int, count: int) -> int {
    if start + count < g.buffer.total {
        start + count
    } else {
        g.buffer.total as int
    }
}

/// A request goes half a window further than the window on either side, or as far
/// as there are rows.
pub proof fn requests_reach_half_a_window_further(g: GridView, start: usize, count: usize)
    requires
        start <= g.buffer.total,
    ensures
        ({
            let (lo, hi) = g.fetch_range(start as int, count as int);
            let end = ends_at(g, start as int, count as int);
            &&& start >= count / 2 ==> lo + count / 2 == start
            &&& start < count / 2 ==> lo == 0
            &&& end + count / 2 <= g.buffer.total ==> hi == end + count / 2
            &&& end + count / 2 > g.buffer.total ==> hi == g.buffer.total
            &&& g.window_end(start as int, count as int) == end
        }),
{
}

/// A window is requested exactly if somebody takes requests and either that is
/// forced, or one of its rows is missing and its range is not that of the last
/// request; else nothing changes.
pub proof fn missing_rows_are_requested(g: GridView, start: usize, count: usize, force: bool)
    requires
        start <= g.buffer.total,
    ensures
        g.must_request(start as int, count as int, force) <==> g.listening && (force || {
            let (lo, hi) = g.fetch_range(start as int, count as int);
            &&& exists|i: int|
                start <= i < ends_at(g, start as int, count as int) && (#[trigger] slot_at(
                    g.buffer,
                    i,
                )) is None
            &&& match g.last_request {
                Some((a, b)) => !(a == lo && b == hi),
                None => true,
            }
        }),
        !g.must_request(start as int, count as int, force) ==> g.requested(start, count, force)
            == g,
{
    requests_reach_half_a_window_further(g, start, count);
    rows_are_read_at_their_index(
        g.buffer,
        0,
        start as int,
        ends_at(g, start as int, count as int),
    );
}

/// What is requested is asked for once, behind what was asked for before, with the
/// range, the sort by its column's header, and the next epoch, which becomes the
/// current one; the rows at hand stay on show.
pub proof fn requests_say_what_to_fetch(g: GridView, start: usize, count: usize, force: bool)
    requires
        g.must_request(start as int, count as int, force),
        g.buffer.epoch < u64::MAX,
        start <= g.buffer.total,
    ensures
        ({
            let asked = g.requested(start, count, force);
            let (lo, hi) = g.fetch_range(start as int, count as int);
            let r = asked.requests.last();
            &&& asked.requests.drop_last() == g.requests
            &&& r.start == lo && r.end == hi
            &&& r.epoch == g.buffer.epoch + 1
            &&& asked.buffer.epoch == g.buffer.epoch + 1
            &&& asked.buffer.slots == g.buffer.slots && asked.buffer.start == g.buffer.start
                && asked.buffer.total == g.buffer.total
            &&& asked.last_request matches Some((a, b)) && a == lo && b == hi
            &&& match g.table.sort {
                Some((col, dir)) => if col < g.table.columns.len() {
                    r.sort.len() == 1 && r.sort[0].column == g.table.columns[col as int].header
                        && r.sort[0].dir == dir
                } else {
                    r.sort.len() == 0
                },
                None => r.sort.len() == 0,
            }
            &&& asked == (GridView {
                buffer: asked.buffer,
                last_request: asked.last_request,
                requests: asked.requests,
                ..g
            })
        }),
{
    let asked = g.requested(start, count, force);
    assert(asked.requests.drop_last() =~= g.requests);
}

/// A total is that of the source from then on. The window stays where it is while
/// there are rows; else it shows the last ones, or all if they are fewer.
pub proof fn a_total_moves_the_window_up(g: GridView, total: usize)
    ensures
        ({
            let to = g.with_total(total);
            let count = if g.viewport_rows == 0 {
                g.buffer.slots.len() as int
            } else {
                g.viewport_rows as int
            };
            &&& to.windowed
            &&& to.buffer.total == total
            &&& to.buffer.epoch == g.buffer.epoch
            &&& to.buffer.slots == g.buffer.slots && to.buffer.start == g.buffer.start
            &&& g.window_start < total ==> to.window_start == g.window_start
            &&& g.window_start >= total && count < total ==> to.window_start + count == total
            &&& g.window_start >= total && count >= total ==> to.window_start == 0
            &&& to.cursor == g.cursor && to.selection == g.selection && to.table == g.table
        }),
{
}

/// The rows on show are as many as the viewport has, or as are at hand where it has
/// none; and the dataset has as many as the source says, or as the model has.
pub proof fn windows_are_as_tall_as_the_viewport(g: GridView)
    ensures
        g.viewport_rows > 0 ==> g.current_count() == g.viewport_rows,
        g.viewport_rows == 0 ==> g.current_count() == g.buffer.slots.len(),
        g.total_rows() == row_total(g),
        g.has_cells() <==> row_total(g) > 0 && g.table.columns.len() > 0,
{
}

/// Showing a window moves it, and takes its rows from the model, or asks the source
/// for them where one fills the buffer.
pub proof fn showing_a_window_moves_it(g: GridView, start: usize, count: usize, i: int)
    requires
        g.table.rows.len() <= usize::MAX,
    ensures
        ({
            let to = g.shown(start, count);
            &&& to.window_start == start
            &&& to.cursor == g.cursor && to.selection == g.selection && to.table == g.table
            &&& to.windowed == g.windowed
            &&& g.windowed ==> to == (GridView {
                window_start: start,
                ..g.requested(start, count, false)
            })
            &&& !g.windowed ==> {
                &&& to.buffer.total == g.table.rows.len()
                &&& to.requests == g.requests
                &&& start <= i < start + count && i < g.table.rows.len() ==> slot_at(to.buffer, i)
                    == Some(g.table.rows[i])
                &&& !(start <= i < start + count && i < g.table.rows.len()) ==> slot_at(
                    to.buffer,
                    i,
                ) is None
            }
        }),
{
}

/// Invalidating leaves no row at hand and, where somebody takes requests, asks for
/// the window on show once more, though it was asked for last.
pub proof fn invalidating_asks_for_the_window_on_show(g: GridView, i: int)
    requires
        g.buffer.epoch < u64::MAX,
    ensures
        ({
            let to = g.invalidated();
            &&& slot_at(to.buffer, i) is None
            &&& to.buffer.total == g.buffer.total
            &&& to.window_start == g.window_start
            &&& !g.listening ==> to.requests == g.requests
            &&& g.listening ==> {
                let (lo, hi) = g.fetch_range(g.window_start as int, to.current_count());
                &&& to.requests.drop_last() == g.requests
                &&& to.requests.len() == g.requests.len() + 1
                &&& to.requests.last().epoch == g.buffer.epoch + 1
                &&& g.window_start <= g.buffer.total ==> to.requests.last().start == lo
                    && to.requests.last().end == hi
            }
        }),
{
    if g.listening {
        assert(g.invalidated().requests.drop_last() =~= g.requests);
    }
}

} // verus!
