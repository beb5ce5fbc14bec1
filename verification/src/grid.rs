//! The state of a table view apart from its DOM nodes: the model, the cursor,
//! the selection, the window buffer, and the requests and layout changes that
//! wait to be delivered.

use vstd::prelude::*;

use crate::data::{Delta, Row, RowKey, RowView};
use crate::grid_cursor::{reveal_scroll, revealed, GridCursor, Nav};
use crate::model::{
    places, remapped, row_views, sorts, Column, SortDir, TableView, VirtualTable,
};
use crate::selection::{
    key_set, key_views, resolves_as, GridSelection, SelectionMode, SelectionView,
};
use crate::state::{ColumnState, TableState};
use crate::window::{
    removals_keep_the_window, upserts_keep_the_window, BufferView, SortSpec, WindowBuffer,
    WindowRequest,
};

verus! {

/// The state of a table view apart from its DOM nodes.
pub struct Grid {
    pub model: VirtualTable,
    pub cursor: GridCursor,
    pub selection: GridSelection,
    pub buffer: WindowBuffer,
    /// A windowed source fills the buffer, rather than the model.
    pub windowed: bool,
    /// Somebody takes window requests.
    pub listening: bool,
    /// The range that was requested last.
    pub last_request: Option<(usize, usize)>,
    /// Window requests that were not taken yet.
    pub requests: Vec<WindowRequest>,
    /// Somebody takes layout changes.
    pub watching: bool,
    /// A layout is being restored, which is no change.
    pub muted: bool,
    /// Layout changes that were not taken yet.
    pub changes: Vec<TableState>,
    /// Number of visible data rows.
    pub viewport_rows: u16,
    /// The row that the first materialized row stands for.
    pub window_start: usize,
    /// The cursor is shown.
    pub nav_active: bool,
    /// The body scrolls by itself.
    pub scroll_mode: bool,
    /// What a header sorted ascending, or descending, ends in.
    pub sort_glyphs: (String, String),
}

/// A window request as a mathematical value.
pub struct RequestView {
    pub epoch: u64,
    pub start: usize,
    pub end: usize,
    pub sort: Seq<SortSpec>,
}

/// A layout as a mathematical value.
pub struct StateView {
    pub columns: Seq<ColumnState>,
    pub sort: Option<SortSpec>,
}

/// The mathematical value of a window request.
pub open spec fn request_view(r: WindowRequest) -> RequestView {
    RequestView { epoch: r.epoch, start: r.range.start, end: r.range.end, sort: r.sort@ }
}

/// The mathematical value of a layout.
pub open spec fn state_view(s: TableState) -> StateView {
    StateView { columns: s.columns@, sort: s.sort }
}

/// The state of a view as a mathematical value.
#[verifier::ext_equal]
pub struct GridView {
    pub table: TableView,
    pub cursor: GridCursor,
    pub selection: SelectionView,
    pub buffer: BufferView,
    pub windowed: bool,
    pub listening: bool,
    pub last_request: Option<(usize, usize)>,
    pub requests: Seq<RequestView>,
    pub watching: bool,
    pub muted: bool,
    pub changes: Seq<StateView>,
    pub viewport_rows: u16,
    pub window_start: usize,
    pub nav_active: bool,
    pub scroll_mode: bool,
    pub glyphs: (Seq<char>, Seq<char>),
}

impl View for Grid {
    type V = GridView;

    open spec fn view(&self) -> GridView {
        GridView {
            table: self.model@,
            cursor: self.cursor,
            selection: self.selection@,
            buffer: self.buffer@,
            windowed: self.windowed,
            listening: self.listening,
            last_request: self.last_request,
            requests: Seq::new(self.requests@.len(), |i: int| request_view(self.requests@[i])),
            watching: self.watching,
            muted: self.muted,
            changes: Seq::new(self.changes@.len(), |i: int| state_view(self.changes@[i])),
            viewport_rows: self.viewport_rows,
            window_start: self.window_start,
            nav_active: self.nav_active,
            scroll_mode: self.scroll_mode,
            glyphs: (self.sort_glyphs.0@, self.sort_glyphs.1@),
        }
    }
}

/// The lesser of two numbers.
pub open spec fn lesser(a: int, b: int) -> int {
    if a < b {
        a
    } else {
        b
    }
}

/// The visible column nearest to `c` at or beyond it in steps of `step`.
pub open spec fn next_visible(hidden: Set<usize>, cols: int, c: int, step: int) -> Option<int>
    decreases
            if step > 0 {
                cols - c
            } else {
                c + 1
            },
{
    if (step != 1 && step != -1) || c < 0 || c >= cols {
        None
    } else if !hidden.contains(c as usize) {
        Some(c)
    } else {
        next_visible(hidden, cols, c + step, step)
    }
}

/// The texts of a list of keys.
pub open spec fn key_texts(keys: Seq<RowKey>) -> Seq<Seq<char>> {
    Seq::new(keys.len(), |i: int| keys[i]@)
}

/// Is `text` the header of a column of `columns`, at `at` for the first time?
pub open spec fn first_header(columns: Seq<Column>, text: Seq<char>, at: int) -> bool {
    &&& 0 <= at < columns.len()
    &&& columns[at].header@ == text
    &&& forall|i: int| 0 <= i < at ==> (#[trigger] columns[i]).header@ != text
}

impl GridView {
    /// The identity of the row at `index`: of any row in the model, and of any
    /// row at hand where a windowed source fills the buffer.
    pub open spec fn key_at(self, index: usize) -> Option<Seq<char>> {
        key_in(self.table, self.buffer, self.windowed, index)
    }

    /// The number of rows of the dataset.
    pub open spec fn total_rows(self) -> int {
        if self.windowed {
            self.buffer.total as int
        } else {
            self.table.rows.len() as int
        }
    }

    /// Does the grid have cells?
    pub open spec fn has_cells(self) -> bool {
        self.total_rows() > 0 && self.table.columns.len() > 0
    }

    /// Is the cell at `(row, col)` selected?
    pub open spec fn cell_selected(self, row: usize, col: usize) -> bool {
        match self.key_at(row) {
            Some(key) => self.selection.selects(row, col, key),
            None => false,
        }
    }

    /// The number of rows to show: the viewport, or what is at hand where none
    /// is set.
    pub open spec fn current_count(self) -> int {
        if self.viewport_rows == 0 {
            self.buffer.slots.len() as int
        } else {
            self.viewport_rows as int
        }
    }

    /// The end of the window of `count` rows from `start`.
    pub open spec fn window_end(self, start: int, count: int) -> int {
        lesser(start + count, self.buffer.total as int)
    }

    /// The rows of the model from `start`, `count` of them where there are.
    pub open spec fn slice(self, start: int, count: int) -> Seq<RowView> {
        let end = lesser(start + count, self.table.rows.len() as int);
        if start < end {
            self.table.rows.subrange(start, end)
        } else {
            Seq::empty()
        }
    }

    /// The buffer filled from the model.
    pub open spec fn filled(self, start: usize, count: usize) -> GridView {
        GridView {
            buffer: BufferView { total: self.table.rows.len() as usize, ..self.buffer }.resynced(
                start,
                self.slice(start as int, count as int),
            ),
            ..self
        }
    }

    /// The sort as a list of sort keys.
    pub open spec fn sort_keys(self) -> Seq<SortSpec> {
        match self.sort_key() {
            Some(key) => seq![key],
            None => Seq::empty(),
        }
    }

    /// The sort as a sort key, if its column exists.
    pub open spec fn sort_key(self) -> Option<SortSpec> {
        match self.table.sort {
            Some((col, dir)) => if col < self.table.columns.len() {
                Some(SortSpec { column: self.table.columns[col as int].header, dir })
            } else {
                None
            },
            None => None,
        }
    }

    /// The range to fetch for `count` rows from `start`: half a window more on
    /// either side, as far as there are rows.
    pub open spec fn fetch_range(self, start: int, count: int) -> (int, int) {
        (
            if start > count / 2 {
                start - count / 2
            } else {
                0
            },
            lesser(self.window_end(start, count) + count / 2, self.buffer.total as int),
        )
    }

    /// Must the window of `count` rows from `start` be requested? Not if nobody
    /// takes requests; and, unless `force` is set, not if its rows are at hand
    /// or its range was requested last.
    pub open spec fn must_request(self, start: int, count: int, force: bool) -> bool {
        let range = self.fetch_range(start, count);
        self.listening && (force || (!self.buffer.covers(start, self.window_end(start, count))
            && self.last_request != Some((range.0 as usize, range.1 as usize))))
    }

    /// The window requested, where it must be, under a new epoch. The rows at hand
    /// are of the old one, and can no longer be patched.
    pub open spec fn requested(self, start: usize, count: usize, force: bool) -> GridView {
        if self.must_request(start as int, count as int, force) {
            let range = self.fetch_range(start as int, count as int);
            let epoch = (self.buffer.epoch + 1) as u64;
            GridView {
                buffer: BufferView { epoch, ..self.buffer.unindexed() },
                last_request: Some((range.0 as usize, range.1 as usize)),
                requests: self.requests.push(
                    RequestView {
                        epoch,
                        start: range.0 as usize,
                        end: range.1 as usize,
                        sort: self.sort_keys(),
                    },
                ),
                ..self
            }
        } else {
            self
        }
    }

    /// The buffer made ready for the window of `count` rows from `start`: from
    /// the model, or by a request to the windowed source.
    pub open spec fn prepared(self, start: usize, count: usize) -> GridView {
        if self.windowed {
            self.requested(start, count, false)
        } else {
            self.filled(start, count)
        }
    }

    /// The state once the window from `start` is shown.
    pub open spec fn shown(self, start: usize, count: usize) -> GridView {
        GridView { window_start: start, ..self.prepared(start, count) }
    }

    /// The buffer dropped and the last request forgotten.
    pub open spec fn forgotten(self) -> GridView {
        GridView { last_request: None, buffer: self.buffer.without_rows(), ..self }
    }

    /// The same, where a windowed source fills the buffer.
    pub open spec fn refetching(self) -> GridView {
        if self.windowed {
            self.forgotten()
        } else {
            self
        }
    }

    /// The layout: columns in display order and the sort.
    pub open spec fn layout(self) -> StateView {
        StateView {
            columns: Seq::new(
                self.table.columns.len(),
                |i: int|
                    ColumnState {
                        header: self.table.columns[i].header,
                        width: self.table.columns[i].width,
                        hidden: self.table.hidden.contains(i as usize),
                    },
            ),
            sort: self.sort_key(),
        }
    }

    /// The layout noted as a change, where somebody takes changes and none is
    /// being restored.
    pub open spec fn noted(self) -> GridView {
        if self.watching && !self.muted {
            GridView { changes: self.changes.push(self.layout()), ..self }
        } else {
            self
        }
    }

    /// The cursor that the move `nav` leads to. A horizontal move passes over
    /// hidden columns, and does not happen if there are only such.
    pub open spec fn cursor_after(self, nav: Nav) -> GridCursor {
        let rows = self.total_rows() as usize;
        let cols = self.table.columns.len() as usize;
        let page = if self.viewport_rows == 0 {
            1
        } else {
            self.viewport_rows as usize
        };
        let after = self.cursor.navigated(nav, rows, cols, page);
        if after.col != self.cursor.col && self.table.hidden.contains(after.col) {
            let step = if after.col > self.cursor.col {
                1int
            } else {
                -1int
            };
            match next_visible(self.table.hidden, cols as int, after.col as int, step) {
                Some(c) => GridCursor { col: c as usize, ..after },
                None => self.cursor,
            }
        } else {
            after
        }
    }

    /// The cursor moved to `(row, col)`, limited to the grid.
    pub open spec fn cursor_to(self, row: usize, col: usize) -> GridCursor {
        self.cursor.placed(
            row,
            col,
            self.total_rows() as usize,
            self.table.columns.len() as usize,
        )
    }

    /// The top row that brings the cursor into view from `top`.
    pub open spec fn top_for_cursor(self, top: int) -> int {
        revealed(
            self.cursor.row as int,
            top,
            self.viewport_rows as int,
            self.total_rows(),
        )
    }

    /// Is `col` the only visible column?
    pub open spec fn last_visible(self, col: usize) -> bool {
        &&& col < self.table.columns.len()
        &&& !self.table.hidden.contains(col)
        &&& forall|c: usize|
            c < self.table.columns.len() && c != col ==> #[trigger] self.table.hidden.contains(c)
    }

    /// The state after the navigation move `nav`. A plain move collapses the
    /// range and a select-all.
    pub open spec fn after_nav(self, nav: Nav) -> GridView {
        if self.has_cells() {
            GridView {
                cursor: self.cursor_after(nav),
                selection: self.selection.collapsed(),
                nav_active: true,
                ..self
            }
        } else {
            GridView { nav_active: true, ..self }
        }
    }

    /// The state after the range was extended by the move `nav`. Nothing happens
    /// where nothing can be selected.
    pub open spec fn after_extend(self, nav: Nav) -> GridView {
        if self.selection.mode == SelectionMode::Off {
            self
        } else if self.has_cells() {
            let to = self.cursor_after(nav);
            GridView {
                cursor: to,
                selection: self.selection.extended(
                    (self.cursor.row, self.cursor.col),
                    (to.row, to.col),
                ),
                nav_active: true,
                ..self
            }
        } else {
            GridView { nav_active: true, ..self }
        }
    }

    /// The state after the cursor was put at `(row, col)`.
    pub open spec fn after_place(self, row: usize, col: usize) -> GridView {
        if self.has_cells() {
            GridView {
                cursor: self.cursor_to(row, col),
                selection: self.selection.collapsed(),
                nav_active: true,
                ..self
            }
        } else {
            self
        }
    }

    /// The state after the range was extended to `(row, col)`; where nothing is
    /// selected, after the cursor was put there.
    pub open spec fn after_extend_to(self, row: usize, col: usize) -> GridView {
        if self.selection.mode == SelectionMode::Off {
            self.after_place(row, col)
        } else if self.has_cells() {
            let to = self.cursor_to(row, col);
            GridView {
                cursor: to,
                selection: self.selection.extended(
                    (self.cursor.row, self.cursor.col),
                    (to.row, to.col),
                ),
                nav_active: true,
                ..self
            }
        } else {
            self
        }
    }

    /// The state after `(row, col)` was toggled; where nothing is selected,
    /// after the cursor was put there.
    pub open spec fn after_toggle_at(self, row: usize, col: usize) -> GridView {
        if self.selection.mode == SelectionMode::Off {
            self.after_place(row, col)
        } else if self.has_cells() {
            GridView {
                cursor: self.cursor_to(row, col),
                selection: match self.key_at(row) {
                    Some(key) => self.selection.toggled(key, col),
                    None => self.selection,
                },
                nav_active: true,
                ..self
            }
        } else {
            self
        }
    }

    /// The state after the selection was toggled at the cursor: the range as a
    /// unit where one is active, else the cursor's cell.
    pub open spec fn after_toggle(self) -> GridView {
        GridView {
            selection: if self.selection.mode != SelectionMode::Off && self.selection.anchor
                is Some {
                self.selection.range_toggled(|r: usize| self.key_at(r))
            } else {
                match self.key_at(self.cursor.row) {
                    Some(key) => self.selection.toggled(key, self.cursor.col),
                    None => self.selection,
                }
            },
            ..self
        }
    }

    /// The state in which a windowed source fills the buffer. Rows that came from
    /// the model stay on show until then, and cannot be patched.
    pub open spec fn sourced(self) -> GridView {
        if self.windowed {
            self
        } else {
            GridView { windowed: true, buffer: self.buffer.unindexed(), ..self }
        }
    }

    /// The state after a delta of the current epoch. Another epoch's is
    /// dropped.
    pub open spec fn after_delta(self, epoch: u64, delta: Delta) -> GridView {
        if epoch != self.buffer.epoch {
            self
        } else {
            let buffer = self.sourced().buffer;
            GridView {
                buffer: match delta {
                    Delta::Resync { start, rows } => buffer.resynced(start, row_views(rows@)),
                    Delta::Upsert { rows } => buffer.all_upserted(row_views(rows@)),
                    Delta::Remove { keys } => buffer.all_removed(key_texts(keys@)),
                },
                ..self.sourced()
            }
        }
    }

    /// Where the window starts among `total` rows: where it does, unless there are
    /// no rows there any more, when it shows the last ones.
    pub open spec fn start_within(self, total: int) -> int {
        if self.window_start < total {
            self.window_start as int
        } else if self.current_count() < total {
            total - self.current_count()
        } else {
            0
        }
    }

    /// The state with a windowed source of `total` rows.
    pub open spec fn with_total(self, total: usize) -> GridView {
        GridView {
            buffer: BufferView { total, ..self.sourced().buffer },
            window_start: self.start_within(total as int) as usize,
            ..self.sourced()
        }
    }

    /// The state with the buffered rows dropped and the window requested anew.
    pub open spec fn invalidated(self) -> GridView {
        self.forgotten().requested(
            self.window_start,
            self.forgotten().current_count() as usize,
            true,
        )
    }

    /// The direction in which a header toggle sorts by `col`: ascending first,
    /// then the other way each time.
    pub open spec fn toggled_dir(self, col: usize) -> SortDir {
        match self.table.sort {
            Some((c, dir)) => if c == col {
                dir.opposite()
            } else {
                SortDir::Ascending
            },
            None => SortDir::Ascending,
        }
    }

    /// The direction in which a header click sorts by `col`: ascending, then
    /// descending, then none.
    pub open spec fn cycled_dir(self, col: usize) -> Option<SortDir> {
        match self.table.sort {
            Some((c, SortDir::Ascending)) => if c == col {
                Some(SortDir::Descending)
            } else {
                Some(SortDir::Ascending)
            },
            Some((c, SortDir::Descending)) => if c == col {
                None
            } else {
                Some(SortDir::Ascending)
            },
            None => Some(SortDir::Ascending),
        }
    }

    /// The state after the column `from` moved to `to`. The cursor follows its
    /// column and the selection is cleared.
    pub open spec fn after_move(self, from: usize, to: usize) -> GridView {
        if from < self.table.columns.len() && to < self.table.columns.len() && from != to {
            GridView {
                table: self.table.column_moved(from as int, to as int),
                buffer: self.buffer.column_moved(from as int, to as int),
                cursor: self.cursor_to(
                    self.cursor.row,
                    remapped(from as int, to as int, self.cursor.col as int) as usize,
                ),
                selection: self.selection.cleared(),
                ..self
            }
        } else {
            self
        }
    }

    /// The state after `col` was hidden or shown. The last visible column
    /// cannot be hidden.
    pub open spec fn after_hide(self, col: usize, hidden: bool) -> GridView {
        if hidden && self.last_visible(col) {
            self
        } else {
            GridView {
                table: TableView {
                    hidden: if hidden {
                        self.table.hidden.insert(col)
                    } else {
                        self.table.hidden.remove(col)
                    },
                    ..self.table
                },
                ..self
            }
        }
    }

    /// The state after `col` got the width `width`.
    pub open spec fn after_width(self, col: usize, width: Option<u16>) -> GridView {
        if col < self.table.columns.len() {
            GridView {
                table: TableView {
                    columns: self.table.columns.update(
                        col as int,
                        Column { header: self.table.columns[col as int].header, width },
                    ),
                    ..self.table
                },
                ..self
            }
        } else {
            self
        }
    }

    /// The state after the rows went back to the order of insertion.
    pub open spec fn after_clear_sort(self) -> GridView {
        GridView {
            table: TableView {
                rows: self.table.as_inserted(),
                orig: places(self.table.rows.len()),
                sort: None,
                ..self.table
            },
            selection: self.selection.collapsed(),
            ..self
        }.refetching()
    }
}

impl Grid {
    /// The parts are well-formed.
    pub open spec fn wf(&self) -> bool {
        self.model@.wf() && self.selection.wf() && self.buffer.wf()
    }

    pub fn new(table: VirtualTable) -> (r: Self)
        requires
            table@.wf(),
        ensures
            r.wf(),
            r@ == (GridView {
                table: table@,
                cursor: GridCursor { row: 0, col: 0, scroll: 0 },
                selection: SelectionView::nothing(SelectionMode::Off),
                buffer: BufferView {
                    start: 0,
                    slots: Seq::empty(),
                    by_key: Map::empty(),
                    total: 0,
                    epoch: 0,
                },
                windowed: false,
                listening: false,
                last_request: None,
                requests: Seq::empty(),
                watching: false,
                muted: false,
                changes: Seq::empty(),
                viewport_rows: 0,
                window_start: 0,
                nav_active: false,
                scroll_mode: false,
                glyphs: (" \u{25B2}"@, " \u{25BC}"@),
            }),
    {
        let r = Grid {
            model: table,
            cursor: GridCursor::new(),
            selection: GridSelection::new(SelectionMode::Off),
            buffer: WindowBuffer::new(),
            windowed: false,
            listening: false,
            last_request: None,
            requests: Vec::new(),
            watching: false,
            muted: false,
            changes: Vec::new(),
            viewport_rows: 0,
            window_start: 0,
            nav_active: false,
            scroll_mode: false,
            sort_glyphs: (" \u{25B2}".to_owned(), " \u{25BC}".to_owned()),
        };
        assert(r@.requests =~= Seq::empty());
        assert(r@.changes =~= Seq::empty());
        r
    }

    /// The identity of the row at `index`, if it is known.
    pub fn key_at(&self, index: usize) -> (r: Option<RowKey>)
        ensures
            (match r {
                Some(key) => self@.key_at(index) == Some(key@),
                None => self@.key_at(index) is None,
            }),
    {
        find_key(&self.model, &self.buffer, self.windowed, index)
    }

    /// The number of rows of the dataset.
    pub fn total_rows(&self) -> (r: usize)
        ensures
            r == self@.total_rows(),
    {
        if self.windowed {
            self.buffer.total()
        } else {
            self.model.row_count()
        }
    }

    /// Is the cell at `(row, col)` selected? A row whose identity is not known
    /// never is.
    pub fn is_cell_selected(&self, row: usize, col: usize) -> (r: bool)
        ensures
            r == self@.cell_selected(row, col),
    {
        match self.key_at(row) {
            Some(key) => self.selection.is_selected(row, col, &key),
            None => false,
        }
    }

    /// The number of rows to show.
    pub fn current_count(&self) -> (r: usize)
        ensures
            r == self@.current_count(),
    {
        if self.viewport_rows == 0 {
            self.buffer.len()
        } else {
            self.viewport_rows as usize
        }
    }

    /// The end of the window of `count` rows from `start`, of `total`.
    fn end_of(start: usize, count: usize, total: usize) -> (r: usize)
        ensures
            r == lesser(start + count, total as int),
    {
        if start >= total || count >= total - start {
            total
        } else {
            start + count
        }
    }

    /// The end of the window of `count` rows from `start`.
    pub fn window_end(&self, start: usize, count: usize) -> (r: usize)
        ensures
            r == self@.window_end(start as int, count as int),
    {
        Self::end_of(start, count, self.buffer.total())
    }

    /// Fill the buffer with `count` rows of the model from `start`.
    pub fn fill_buffer_from_model(&mut self, start: usize, count: usize)
        requires
            old(self).wf(),
        ensures
            final(self).wf(),
            final(self)@ == old(self)@.filled(start, count),
    {
        let total: usize = self.model.row_count();
        let end: usize = Self::end_of(start, count, total);
        let mut rows: Vec<Row> = Vec::new();
        let source = self.model.rows();
        assert(row_views(source@).len() == source@.len());
        let mut i: usize = start;
        while i < end
            invariant
                end <= total == source@.len(),
                start < end ==> i <= end,
                start >= end ==> i == start,
                rows@.len() == i - start,
                forall|k: int|
                    0 <= k < rows@.len() ==> (#[trigger] rows@[k])@ == source@[start + k]@,
            decreases end - i,
        {
            rows.push(source[i].clone());
            i = i + 1;
        }
        let ghost views = row_views(rows@);
        proof {
            assert(row_views(source@) == self@.table.rows);
            assert(views =~= self@.slice(start as int, count as int));
        }
        self.buffer.set_total(total);
        self.buffer.set_window(start, rows);
    }

    /// The sort as sort keys.
    pub fn current_sort_specs(&self) -> (r: Vec<SortSpec>)
        ensures
            r@ == self@.sort_keys(),
    {
        let mut out: Vec<SortSpec> = Vec::new();
        match self.sort_spec() {
            Some(key) => {
                out.push(key);
            },
            None => {},
        }
        assert(out@ =~= self@.sort_keys());
        out
    }

    /// The sort as a sort key, if its column exists.
    pub fn sort_spec(&self) -> (r: Option<SortSpec>)
        ensures
            r == self@.sort_key(),
    {
        match self.model.sort_state() {
            Some((col, dir)) => {
                let columns = self.model.columns();
                if col < columns.len() {
                    Some(SortSpec { column: columns[col].header.clone(), dir })
                } else {
                    None
                }
            },
            None => None,
        }
    }

    /// Are the rows of `start..end` at hand?
    fn covered(&self, start: usize, end: usize) -> (r: bool)
        ensures
            r == self@.buffer.covers(start as int, end as int),
    {
        let mut i: usize = start;
        while i < end
            invariant
                start <= i,
                i <= end || i == start,
                forall|k: int| start <= k < i ==> #[trigger] self@.buffer.row_at(k) is Some,
            decreases end - i,
        {
            if !self.buffer.is_loaded(i) {
                assert(self@.buffer.row_at(i as int) is None);
                return false;
            }
            i = i + 1;
        }
        true
    }

    /// Request the window of `count` rows from `start`, if need be: half a
    /// window more on either side is asked for, under a new epoch. Nothing is
    /// requested if nobody takes requests; and, unless `force` is set, if the
    /// rows are at hand or the same range was requested last.
    pub fn request_window(&mut self, start: usize, count: usize, force: bool)
        requires
            old(self).wf(),
            old(self)@.buffer.epoch < u64::MAX,
        ensures
            final(self).wf(),
            final(self)@ == old(self)@.requested(start, count, force),
    {
        if !self.listening {
            return;
        }
        let total: usize = self.buffer.total();
        let end: usize = Self::end_of(start, count, total);
        if !force && self.covered(start, end) {
            return;
        }
        let margin: usize = count / 2;
        let lo: usize = start.saturating_sub(margin);
        let hi: usize = Self::end_of(end, margin, total);
        if !force {
            match self.last_request {
                Some((a, b)) => {
                    if a == lo && b == hi {
                        return;
                    }
                },
                None => {},
            }
        }
        let sort = self.current_sort_specs();
        self.buffer.forget_keys();
        let epoch: u64 = self.buffer.bump_epoch();
        self.last_request = Some((lo, hi));
        self.requests.push(WindowRequest { epoch, range: lo..hi, sort });
        assert(self@.requests =~= old(self)@.requested(start, count, force).requests);
    }

    /// Make the buffer ready for the window of `count` rows from `start`.
    pub fn prepare_window(&mut self, start: usize, count: usize)
        requires
            old(self).wf(),
            old(self)@.buffer.epoch < u64::MAX,
        ensures
            final(self).wf(),
            final(self)@ == old(self)@.prepared(start, count),
    {
        if self.windowed {
            self.request_window(start, count, false);
        } else {
            self.fill_buffer_from_model(start, count);
        }
    }

    /// Forget the last request and drop the buffered rows.
    pub fn forget_window(&mut self)
        requires
            old(self).wf(),
        ensures
            final(self).wf(),
            final(self)@ == old(self)@.forgotten(),
    {
        self.last_request = None;
        self.buffer.clear_rows();
    }

    /// Where a windowed source fills the buffer, drop what no longer holds, so
    /// that the next window is requested anew.
    pub fn reset_window_for_refetch(&mut self)
        requires
            old(self).wf(),
        ensures
            final(self).wf(),
            final(self)@ == old(self)@.refetching(),
    {
        if self.windowed {
            self.forget_window();
        }
    }

    /// The column layout and the active sort.
    pub fn table_state(&self) -> (r: TableState)
        ensures
            state_view(r) == self@.layout(),
    {
        let columns = self.model.columns();
        let mut out: Vec<ColumnState> = Vec::new();
        let mut i: usize = 0;
        while i < columns.len()
            invariant
                i <= columns@.len(),
                columns@ == self@.table.columns,
                out@ == self@.layout().columns.take(i as int),
            decreases columns@.len() - i,
        {
            out.push(
                ColumnState {
                    header: columns[i].header.clone(),
                    width: columns[i].width,
                    hidden: self.model.is_column_hidden(i),
                },
            );
            i = i + 1;
            assert(out@ =~= self@.layout().columns.take(i as int));
        }
        assert(out@ =~= self@.layout().columns);
        TableState { columns: out, sort: self.sort_spec() }
    }

    /// Note the layout as a change, unless nobody takes changes or one is being
    /// restored.
    pub fn notify_state_change(&mut self)
        requires
            old(self).wf(),
        ensures
            final(self).wf(),
            final(self)@ == old(self)@.noted(),
    {
        if self.muted || !self.watching {
            return;
        }
        let state = self.table_state();
        self.changes.push(state);
        assert(self@.changes =~= old(self)@.noted().changes);
    }

    /// The visible column nearest to `c` at or beyond it, to the right or to
    /// the left.
    fn find_visible(&self, c: usize, right: bool) -> (r: Option<usize>)
        ensures
            (match r {
                Some(v) => next_visible(
                    self@.table.hidden,
                    self@.table.columns.len() as int,
                    c as int,
                    if right {
                        1
                    } else {
                        -1
                    },
                ) == Some(v as int),
                None => next_visible(
                    self@.table.hidden,
                    self@.table.columns.len() as int,
                    c as int,
                    if right {
                        1
                    } else {
                        -1
                    },
                ) is None,
            }),
    {
        let cols: usize = self.model.columns().len();
        let ghost step = if right {
            1int
        } else {
            -1int
        };
        let mut at: usize = c;
        while at < cols
            invariant
                cols == self@.table.columns.len(),
                step == if right {
                    1int
                } else {
                    -1int
                },
                next_visible(self@.table.hidden, cols as int, c as int, step) == next_visible(
                    self@.table.hidden,
                    cols as int,
                    at as int,
                    step,
                ),
            decreases
                    if right {
                        cols - at
                    } else {
                        at as int
                    },
        {
            if !self.model.is_column_hidden(at) {
                return Some(at);
            }
            if right {
                at = at + 1;
            } else if at == 0 {
                assert(next_visible(self@.table.hidden, cols as int, -1, -1) is None);
                return None;
            } else {
                at = at - 1;
            }
        }
        None
    }

    /// Move the cursor by `nav`; the cursor before and after, or `None` if the
    /// grid has no cells.
    pub fn move_cursor(&mut self, nav: Nav) -> (r: Option<(GridCursor, GridCursor)>)
        requires
            old(self).wf(),
        ensures
            final(self).wf(),
            old(self)@.has_cells() ==> r == Some((old(self)@.cursor, final(self)@.cursor))
                && final(self)@ == (GridView {
                cursor: old(self)@.cursor_after(nav),
                ..old(self)@
            }),
            !old(self)@.has_cells() ==> r is None && final(self)@ == old(self)@,
    {
        let cols: usize = self.model.columns().len();
        let rows: usize = self.total_rows();
        if rows == 0 || cols == 0 {
            return None;
        }
        let page: usize = if self.viewport_rows == 0 {
            1
        } else {
            self.viewport_rows as usize
        };
        let before = self.cursor;
        let mut after = before.navigate(nav, rows, cols, page);
        if after.col != before.col && self.model.is_column_hidden(after.col) {
            after = match self.find_visible(after.col, after.col > before.col) {
                Some(c) => GridCursor { row: after.row, col: c, scroll: after.scroll },
                None => before,
            };
        }
        self.cursor = after;
        Some((before, after))
    }

    /// Move the cursor to `(row, col)`, limited to the grid; the cursor before
    /// and after, or `None` if the grid has no cells.
    pub fn place_cursor(&mut self, row: usize, col: usize) -> (r: Option<(GridCursor, GridCursor)>)
        requires
            old(self).wf(),
        ensures
            final(self).wf(),
            old(self)@.has_cells() ==> r == Some((old(self)@.cursor, final(self)@.cursor))
                && final(self)@ == (GridView {
                cursor: old(self)@.cursor_to(row, col),
                ..old(self)@
            }),
            !old(self)@.has_cells() ==> r is None && final(self)@ == old(self)@,
    {
        let cols: usize = self.model.columns().len();
        let rows: usize = self.total_rows();
        if rows == 0 || cols == 0 {
            return None;
        }
        let before = self.cursor;
        self.cursor = before.at(row, col, rows, cols);
        Some((before, self.cursor))
    }

    /// The top row that brings the cursor into view from `top`.
    pub fn top_for_cursor(&self, top: usize) -> (r: usize)
        ensures
            r == self@.top_for_cursor(top as int),
    {
        reveal_scroll(self.cursor.row, top, self.viewport_rows as usize, self.total_rows())
    }

    /// Is `col` the only visible column?
    pub fn is_last_visible(&self, col: usize) -> (r: bool)
        ensures
            r == self@.last_visible(col),
    {
        let cols: usize = self.model.columns().len();
        if col >= cols || self.model.is_column_hidden(col) {
            return false;
        }
        let mut c: usize = 0;
        while c < cols
            invariant
                c <= cols == self@.table.columns.len(),
                col < cols,
                !self@.table.hidden.contains(col),
                forall|k: usize| k < c && k != col ==> #[trigger] self@.table.hidden.contains(k),
            decreases cols - c,
        {
            if c != col && !self.model.is_column_hidden(c) {
                return false;
            }
            c = c + 1;
        }
        true
    }

    /// Set the number of visible data rows, which also shows the cursor.
    pub fn set_viewport_rows(&mut self, rows: u16)
        requires
            old(self).wf(),
        ensures
            final(self).wf(),
            final(self)@ == (GridView { viewport_rows: rows, nav_active: true, ..old(self)@ }),
    {
        self.viewport_rows = rows;
        self.nav_active = true;
    }

    /// Set the selection mode, which clears the selection and, unless it is
    /// `Off`, shows the cursor.
    pub fn set_selection_mode(&mut self, mode: SelectionMode)
        requires
            old(self).wf(),
        ensures
            final(self).wf(),
            final(self)@ == (GridView {
                selection: SelectionView { mode, ..old(self)@.selection.cleared() },
                nav_active: old(self)@.nav_active || mode != SelectionMode::Off,
                ..old(self)@
            }),
    {
        self.selection.set_mode(mode);
        if mode != SelectionMode::Off {
            self.nav_active = true;
        }
    }

    /// Let a windowed source fill the buffer.
    pub fn take_source(&mut self)
        requires
            old(self).wf(),
        ensures
            final(self).wf(),
            final(self)@ == old(self)@.sourced(),
    {
        if !self.windowed {
            self.buffer.forget_keys();
            self.windowed = true;
        }
    }

    /// Set the number of rows of a windowed source.
    pub fn set_total(&mut self, total: usize)
        requires
            old(self).wf(),
        ensures
            final(self).wf(),
            final(self)@ == old(self)@.with_total(total),
    {
        if self.window_start >= total {
            let count: usize = self.current_count();
            self.window_start = if count < total {
                total - count
            } else {
                0
            };
        }
        self.take_source();
        self.buffer.set_total(total);
    }

    /// Take a delta of window `epoch`; `false`, and nothing done, if the window
    /// has moved on to another epoch.
    pub fn accept(&mut self, epoch: u64, delta: Delta) -> (r: bool)
        requires
            old(self).wf(),
            epoch == old(self)@.buffer.epoch ==> (delta matches Delta::Resync { start, rows }
                ==> start + rows@.len() <= usize::MAX + 1),
        ensures
            final(self).wf(),
            r == (epoch == old(self)@.buffer.epoch),
            final(self)@ == old(self)@.after_delta(epoch, delta),
            final(self)@.buffer.epoch == old(self)@.buffer.epoch,
    {
        if epoch != self.buffer.epoch() {
            return false;
        }
        self.take_source();
        let ghost g0 = self@;
        match delta {
            Delta::Resync { start, rows } => {
                self.buffer.set_window(start, rows);
            },
            Delta::Upsert { rows } => {
                let ghost views = row_views(rows@);
                assert(views.take(0) =~= Seq::empty());
                for row in it: rows
                    invariant
                        it.seq() == rows@,
                        views == row_views(rows@),
                        self.wf(),
                        self@ == (GridView {
                            buffer: g0.buffer.all_upserted(views.take(it.index())),
                            ..g0
                        }),
                {
                    self.buffer.upsert(row);
                    assert(views.take(it.index() + 1).drop_last() =~= views.take(it.index()));
                }
                assert(views.take(views.len() as int) =~= views);
                proof {
                    upserts_keep_the_window(g0.buffer, views);
                }
            },
            Delta::Remove { keys } => {
                let ghost texts = key_texts(keys@);
                assert(texts.take(0) =~= Seq::empty());
                for key in it: keys
                    invariant
                        it.seq() == keys@,
                        texts == key_texts(keys@),
                        self.wf(),
                        self@ == (GridView {
                            buffer: g0.buffer.all_removed(texts.take(it.index())),
                            ..g0
                        }),
                {
                    self.buffer.remove(&key);
                    assert(texts.take(it.index() + 1).drop_last() =~= texts.take(it.index()));
                }
                assert(texts.take(texts.len() as int) =~= texts);
                proof {
                    removals_keep_the_window(g0.buffer, texts);
                }
            },
        }
        true
    }

    /// Apply the move `nav` to the cursor; whether it moved, or `None` if the
    /// grid has no cells.
    pub fn navigate(&mut self, nav: Nav) -> (r: Option<bool>)
        requires
            old(self).wf(),
        ensures
            final(self).wf(),
            final(self)@ == old(self)@.after_nav(nav),
            r == (if old(self)@.has_cells() {
                Some(final(self)@.cursor != old(self)@.cursor)
            } else {
                None
            }),
    {
        self.nav_active = true;
        match self.move_cursor(nav) {
            Some((before, after)) => {
                self.selection.collapse_transient();
                Some(after != before)
            },
            None => None,
        }
    }

    /// Extend the range by moving the cursor; whether it moved, or `None` if
    /// the grid has no cells or nothing can be selected.
    pub fn extend_selection(&mut self, nav: Nav) -> (r: Option<bool>)
        requires
            old(self).wf(),
        ensures
            final(self).wf(),
            final(self)@ == old(self)@.after_extend(nav),
            r == (if old(self)@.selection.mode != SelectionMode::Off && old(self)@.has_cells() {
                Some(final(self)@.cursor != old(self)@.cursor)
            } else {
                None
            }),
    {
        if self.selection.mode() == SelectionMode::Off {
            return None;
        }
        self.nav_active = true;
        match self.move_cursor(nav) {
            Some((before, after)) => {
                self.selection.extend((before.row, before.col), (after.row, after.col));
                Some(after != before)
            },
            None => None,
        }
    }

    /// Put the cursor at `(row, col)`; whether it moved, or `None` if the grid
    /// has no cells.
    pub fn set_cursor_at(&mut self, row: usize, col: usize) -> (r: Option<bool>)
        requires
            old(self).wf(),
        ensures
            final(self).wf(),
            final(self)@ == old(self)@.after_place(row, col),
            r == (if old(self)@.has_cells() {
                Some(final(self)@.cursor != old(self)@.cursor)
            } else {
                None
            }),
    {
        match self.place_cursor(row, col) {
            Some((before, after)) => {
                self.nav_active = true;
                self.selection.collapse_transient();
                Some(after != before)
            },
            None => None,
        }
    }

    /// Extend the range to `(row, col)` and put the cursor there; where nothing
    /// is selected this is a plain cursor move. `None` if the grid has no
    /// cells, else whether the cursor moved or a range was extended.
    pub fn extend_selection_to(&mut self, row: usize, col: usize) -> (r: Option<bool>)
        requires
            old(self).wf(),
        ensures
            final(self).wf(),
            final(self)@ == old(self)@.after_extend_to(row, col),
            r == (if old(self)@.has_cells() {
                Some(
                    old(self)@.selection.mode != SelectionMode::Off || final(self)@.cursor
                        != old(self)@.cursor,
                )
            } else {
                None
            }),
    {
        if self.selection.mode() == SelectionMode::Off {
            return self.set_cursor_at(row, col);
        }
        match self.place_cursor(row, col) {
            Some((before, after)) => {
                self.nav_active = true;
                self.selection.extend((before.row, before.col), (after.row, after.col));
                Some(true)
            },
            None => None,
        }
    }

    /// Toggle `(row, col)` and put the cursor there; where nothing is selected
    /// this is a plain cursor move. `None` if the grid has no cells, else
    /// whether the cursor moved or a cell was toggled.
    pub fn toggle_at(&mut self, row: usize, col: usize) -> (r: Option<bool>)
        requires
            old(self).wf(),
        ensures
            final(self).wf(),
            final(self)@ == old(self)@.after_toggle_at(row, col),
            r == (if old(self)@.has_cells() {
                Some(
                    old(self)@.selection.mode != SelectionMode::Off || final(self)@.cursor
                        != old(self)@.cursor,
                )
            } else {
                None
            }),
    {
        if self.selection.mode() == SelectionMode::Off {
            return self.set_cursor_at(row, col);
        }
        match self.place_cursor(row, col) {
            Some(_) => {
                self.nav_active = true;
                match self.key_at(row) {
                    Some(key) => {
                        self.selection.toggle(key, col);
                    },
                    None => {},
                }
                Some(true)
            },
            None => None,
        }
    }

    /// Toggle the selection at the cursor: the range as a unit where one is
    /// active, else the cursor's cell.
    pub fn toggle_selection(&mut self)
        requires
            old(self).wf(),
        ensures
            final(self).wf(),
            final(self)@ == old(self)@.after_toggle(),
    {
        let model = &self.model;
        let buffer = &self.buffer;
        let windowed = self.windowed;
        let key_at = |r: usize| -> (k: Option<RowKey>)
            ensures
                match k {
                    Some(key) => key_in(model@, buffer@, windowed, r) == Some(key@),
                    None => key_in(model@, buffer@, windowed, r) is None,
                },
            { find_key(model, buffer, windowed, r) };
        let ghost resolve = |r: usize| old(self)@.key_at(r);
        proof {
            assert forall|r: usize, k: Option<RowKey>| #[trigger]
                call_ensures(key_at, (r,), k) implies match k {
                Some(key) => resolve(r) == Some(key@),
                None => resolve(r) is None,
            } by {
                assert(resolve(r) == key_in(model@, buffer@, windowed, r));
            }
            assert(resolves_as(key_at, resolve));
        }
        let done = self.selection.toggle_range(key_at);
        if !done {
            let row: usize = self.cursor.row;
            match self.key_at(row) {
                Some(key) => {
                    self.selection.toggle(key, self.cursor.col);
                },
                None => {},
            }
        }
    }

    /// The keys of the rows with an explicitly selected cell, each once.
    pub fn selected_row_keys(&self) -> (r: Vec<RowKey>)
        requires
            self.wf(),
        ensures
            key_texts(r@).no_duplicates(),
            forall|k: Seq<char>| #[trigger]
                key_texts(r@).contains(k) == exists|c: usize|
                    self@.selection.explicit.contains((k, c)),
    {
        let cells = self.selection.explicit();
        let mut out: Vec<RowKey> = Vec::new();
        let mut i: usize = 0;
        while i < cells.len()
            invariant
                i <= cells@.len(),
                key_texts(out@).no_duplicates(),
                forall|j: int|
                    0 <= j < i ==> key_texts(out@).contains((#[trigger] cells@[j]).0@),
                forall|o: int|
                    0 <= o < out@.len() ==> exists|j: int|
                        0 <= j < i && cells@[j].0@ == (#[trigger] out@[o])@,
            decreases cells@.len() - i,
        {
            let ghost before = out@;
            if !has_key(&out, &cells[i].0) {
                out.push(cells[i].0.clone());
                assert(key_texts(out@) =~= key_texts(before).push(cells@[i as int].0@));
                assert(key_texts(out@)[before.len() as int] == cells@[i as int].0@);
            }
            assert forall|j: int| 0 <= j < i + 1 implies key_texts(out@).contains(
                (#[trigger] cells@[j]).0@,
            ) by {
                if j < i {
                    let o = choose|o: int|
                        0 <= o < key_texts(before).len() && key_texts(before)[o] == cells@[j].0@;
                    assert(key_texts(out@)[o] == cells@[j].0@);
                }
            }
            assert forall|o: int| 0 <= o < out@.len() implies exists|j: int|
                0 <= j < i + 1 && cells@[j].0@ == (#[trigger] out@[o])@ by {
                if o < before.len() {
                    assert(out@[o] == before[o]);
                    let j = choose|j: int| 0 <= j < i && cells@[j].0@ == before[o]@;
                    assert(0 <= j < i + 1 && cells@[j].0@ == out@[o]@);
                } else {
                    assert(0 <= i < i + 1 && cells@[i as int].0@ == out@[o]@);
                }
            }
            i = i + 1;
        }
        proof {
            assert forall|k: Seq<char>| #[trigger]
                key_texts(out@).contains(k) == exists|c: usize|
                    self@.selection.explicit.contains((k, c)) by {
                if key_texts(out@).contains(k) {
                    let o = choose|o: int| 0 <= o < out@.len() && key_texts(out@)[o] == k;
                    assert(out@[o]@ == k);
                    let j = choose|j: int| 0 <= j < cells@.len() && cells@[j].0@ == out@[o]@;
                    assert(key_views(cells@)[j] == (k, cells@[j].1));
                    assert(key_set(cells@).contains((k, cells@[j].1)));
                }
                if exists|c: usize| self@.selection.explicit.contains((k, c)) {
                    let c = choose|c: usize| self@.selection.explicit.contains((k, c));
                    assert(key_set(cells@).contains((k, c)));
                    let j = choose|j: int|
                        0 <= j < key_views(cells@).len() && key_views(cells@)[j] == (k, c);
                    assert(cells@[j].0@ == k);
                }
            }
        }
        out
    }

    /// Sort by `col` in direction `dir`. The range and a select-all collapse;
    /// the explicitly selected cells, which go by identity, stay.
    pub fn sort<R: Fn(&str) -> Option<u64>>(&mut self, col: usize, dir: SortDir, read: &R)
        requires
            old(self).wf(),
            forall|s: &str| #[trigger] call_requires(*read, (s,)),
        ensures
            final(self).wf(),
            final(self)@ == (GridView {
                table: final(self)@.table,
                selection: old(self)@.selection.collapsed(),
                ..old(self)@.refetching()
            }),
            sorts(old(self)@.table, final(self)@.table, col, dir, *read),
    {
        self.model.sort_by(col, dir, read);
        self.selection.collapse_transient();
        self.reset_window_for_refetch();
    }

    /// Put the rows back into the order of insertion.
    pub fn clear_sort(&mut self)
        requires
            old(self).wf(),
        ensures
            final(self).wf(),
            final(self)@ == old(self)@.after_clear_sort(),
    {
        self.model.clear_sort();
        self.selection.collapse_transient();
        self.reset_window_for_refetch();
    }

    /// The direction in which a header toggle sorts by `col`.
    pub fn toggled_dir(&self, col: usize) -> (r: SortDir)
        ensures
            r == self@.toggled_dir(col),
    {
        match self.model.sort_state() {
            Some((c, dir)) => if c == col {
                dir.flipped()
            } else {
                SortDir::Ascending
            },
            None => SortDir::Ascending,
        }
    }

    /// The direction in which a header click sorts by `col`; `None` turns the
    /// sort off.
    pub fn cycled_dir(&self, col: usize) -> (r: Option<SortDir>)
        ensures
            r == self@.cycled_dir(col),
    {
        match self.model.sort_state() {
            Some((c, dir)) => if c != col {
                Some(SortDir::Ascending)
            } else {
                match dir {
                    SortDir::Ascending => Some(SortDir::Descending),
                    SortDir::Descending => None,
                }
            },
            None => Some(SortDir::Ascending),
        }
    }

    /// Move the column `from` to `to`; `false`, and nothing done, if an index is
    /// past the last column or the two are equal.
    pub fn move_column(&mut self, from: usize, to: usize) -> (r: bool)
        requires
            old(self).wf(),
        ensures
            final(self).wf(),
            r == (from < old(self)@.table.columns.len() && to < old(self)@.table.columns.len()
                && from != to),
            final(self)@ == old(self)@.after_move(from, to),
    {
        let cols: usize = self.model.columns().len();
        if from >= cols || to >= cols || from == to {
            return false;
        }
        self.model.move_column(from, to);
        self.buffer.move_column(from, to);
        let col: usize = VirtualTable::remapped_index(from, to, self.cursor.col);
        self.cursor = self.cursor.at(self.cursor.row, col, self.total_rows(), cols);
        self.selection.clear();
        true
    }

    /// Hide or show the column `col`; `false`, and nothing done, if that would
    /// hide the last visible column.
    pub fn set_column_hidden(&mut self, col: usize, hidden: bool) -> (r: bool)
        requires
            old(self).wf(),
        ensures
            final(self).wf(),
            r == !(hidden && old(self)@.last_visible(col)),
            final(self)@ == old(self)@.after_hide(col, hidden),
    {
        if hidden && self.is_last_visible(col) {
            return false;
        }
        self.model.set_column_hidden(col, hidden);
        true
    }

    /// Set or clear the width of the column `col`.
    pub fn set_column_width(&mut self, col: usize, width: Option<u16>)
        requires
            old(self).wf(),
        ensures
            final(self).wf(),
            final(self)@ == old(self)@.after_width(col, width),
    {
        self.model.set_column_width(col, width);
    }

    /// The first column with the header `text`.
    pub fn column_named(&self, text: &String) -> (r: Option<usize>)
        ensures
            (match r {
                Some(at) => first_header(self@.table.columns, text@, at as int),
                None => forall|at: int| !first_header(self@.table.columns, text@, at),
            }),
    {
        let columns = self.model.columns();
        let mut i: usize = 0;
        while i < columns.len()
            invariant
                i <= columns@.len(),
                columns@ == self@.table.columns,
                forall|k: int| 0 <= k < i ==> (#[trigger] columns@[k]).header@ != text@,
            decreases columns@.len() - i,
        {
            if columns[i].header == *text {
                return Some(i);
            }
            i = i + 1;
        }
        None
    }
}

/// The identity of the row at `index` of a model or a buffer.
pub open spec fn key_in(
    model: TableView,
    buffer: BufferView,
    windowed: bool,
    index: usize,
) -> Option<Seq<char>> {
    if windowed {
        buffer.key_at(index as int)
    } else if index < model.rows.len() {
        Some(model.rows[index as int].key)
    } else {
        None
    }
}

/// The identity of the row at `index` of a model or a buffer.
fn find_key(
    model: &VirtualTable,
    buffer: &WindowBuffer,
    windowed: bool,
    index: usize,
) -> (r: Option<RowKey>)
    ensures
        (match r {
            Some(key) => key_in(model@, buffer@, windowed, index) == Some(key@),
            None => key_in(model@, buffer@, windowed, index) is None,
        }),
{
    if windowed {
        match buffer.key_at(index) {
            Some(key) => Some(key.clone()),
            None => None,
        }
    } else {
        let rows = model.rows();
        assert(row_views(rows@).len() == rows@.len());
        if index < rows.len() {
            assert(row_views(rows@)[index as int] == rows@[index as int]@);
            Some(rows[index].key.clone())
        } else {
            None
        }
    }
}

/// Does a list of keys hold `key`?
fn has_key(keys: &Vec<RowKey>, key: &RowKey) -> (r: bool)
    ensures
        r == key_texts(keys@).contains(key@),
{
    let mut i: usize = 0;
    while i < keys.len()
        invariant
            i <= keys@.len(),
            forall|j: int| 0 <= j < i ==> (#[trigger] keys@[j])@ != key@,
        decreases keys@.len() - i,
    {
        if keys[i] == *key {
            assert(key_texts(keys@)[i as int] == key@);
            return true;
        }
        i = i + 1;
    }
    assert forall|j: int| 0 <= j < key_texts(keys@).len() implies key_texts(keys@)[j] != key@ by {
        assert(keys@[j]@ != key@);
    }
    false
}

} // verus!
