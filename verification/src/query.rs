//! Asking a view about its state, and setting what is drawn later.

use vstd::prelude::*;

use crate::data::RowKey;
use crate::grid::{key_texts, state_view, GridView};
use crate::grid_cursor::GridCursor;
use crate::model::{SortDir, VirtualTable};
use crate::selection::{GridSelection, SelectionMode, SelectionView};
use crate::state::TableState;
use crate::view::{same_nodes, VirtualTableView};

verus! {

impl VirtualTableView {
    /// The cursor: the active cell and the scroll offset.
    pub fn cursor(&self) -> (r: GridCursor)
        ensures
            r == self.grid@.cursor,
    {
        self.grid.cursor
    }

    /// The row that the first row on show stands for.
    pub fn window_start(&self) -> (r: usize)
        ensures
            r == self.grid@.window_start,
    {
        self.grid.window_start
    }

    /// Number of rows on show.
    pub fn mounted_row_count(&self) -> (r: usize)
        ensures
            r == self.window.rows@.len(),
    {
        self.window.rows.len()
    }

    /// Current sort `(column, direction)`, or `None` if unsorted.
    pub fn sort_state(&self) -> (r: Option<(usize, SortDir)>)
        ensures
            r == self.grid@.table.sort,
    {
        self.grid.model.sort_state()
    }

    /// The current selection mode.
    pub fn selection_mode(&self) -> (r: SelectionMode)
        ensures
            r == self.grid@.selection.mode,
    {
        self.grid.selection.mode()
    }

    /// A copy of the current selection.
    pub fn selection(&self) -> (r: GridSelection)
        requires
            self.wf(),
        ensures
            r.wf(),
            r@ == self.grid@.selection,
    {
        self.grid.selection.clone()
    }

    /// The identity of the row at view index `row`, or `None` if it is not
    /// known.
    pub fn row_key_at(&self, row: usize) -> (r: Option<RowKey>)
        ensures
            (match r {
                Some(key) => self.grid@.key_at(row) == Some(key@),
                None => self.grid@.key_at(row) is None,
            }),
    {
        self.grid.key_at(row)
    }

    /// Is the cell at view index `(row, col)` selected?
    pub fn is_cell_selected(&self, row: usize, col: usize) -> (r: bool)
        ensures
            r == self.grid@.cell_selected(row, col),
    {
        self.grid.is_cell_selected(row, col)
    }

    /// The keys of the rows with an explicitly selected cell, each once.
    pub fn selected_row_keys(&self) -> (r: Vec<RowKey>)
        requires
            self.wf(),
        ensures
            key_texts(r@).no_duplicates(),
            forall|k: Seq<char>| #[trigger]
                key_texts(r@).contains(k) == exists|c: usize|
                    self.grid@.selection.explicit.contains((k, c)),
    {
        self.grid.selected_row_keys()
    }

    /// The column layout and the active sort.
    pub fn table_state(&self) -> (r: TableState)
        ensures
            state_view(r) == self.grid@.layout(),
    {
        self.grid.table_state()
    }

    /// Set the number of visible data rows. It is the step of the page keys, and
    /// it shows the cursor.
    pub fn set_viewport_rows(&mut self, rows: u16)
        requires
            old(self).wf(),
        ensures
            final(self).wf(),
            same_nodes(*old(self), *final(self)),
            final(self).grid@ == (GridView {
                viewport_rows: rows,
                nav_active: true,
                ..old(self).grid@
            }),
    {
        self.grid.set_viewport_rows(rows);
    }

    /// Set the selection mode, which clears the selection and, unless it is
    /// `Off`, shows the cursor.
    pub fn set_selection_mode(&mut self, mode: SelectionMode)
        requires
            old(self).wf(),
        ensures
            final(self).wf(),
            same_nodes(*old(self), *final(self)),
            final(self).grid@ == (GridView {
                selection: SelectionView { mode, ..old(self).grid@.selection.cleared() },
                nav_active: old(self).grid@.nav_active || mode != SelectionMode::Off,
                ..old(self).grid@
            }),
    {
        self.grid.set_selection_mode(mode);
    }

    /// Set what the header of the sorted column ends in, ascending or
    /// descending. It shows when the headers are drawn next.
    pub fn set_sort_glyphs<A: Into<String>, D: Into<String>>(
        &mut self,
        ascending: A,
        descending: D,
    )
        requires
            old(self).wf(),
        ensures
            final(self).wf(),
            same_nodes(*old(self), *final(self)),
            call_ensures(A::into, (ascending,), final(self).grid.sort_glyphs.0),
            call_ensures(D::into, (descending,), final(self).grid.sort_glyphs.1),
            final(self).grid@ == (GridView {
                glyphs: (
                    final(self).grid.sort_glyphs.0@,
                    final(self).grid.sort_glyphs.1@,
                ),
                ..old(self).grid@
            }),
    {
        self.grid.sort_glyphs = (ascending.into(), descending.into());
    }

    /// Hand the model to `f` to be read or changed. What is on show changes with
    /// the next window.
    pub fn with<R, F: FnOnce(&mut VirtualTable) -> R>(&mut self, f: F) -> (r: R)
        requires
            old(self).wf(),
            forall|m: &mut VirtualTable|
                *m == old(self).grid.model ==> #[trigger] call_requires(f, (m,)),
            forall|m: &mut VirtualTable, r: R|
                *m == old(self).grid.model && #[trigger] call_ensures(f, (m,), r)
                    ==> (*final(m))@.wf(),
        ensures
            final(self).wf(),
            same_nodes(*old(self), *final(self)),
            exists|m: &mut VirtualTable| #[trigger]
                call_ensures(f, (m,), r) && *m == old(self).grid.model && *final(m) == final(self).grid.model,
            final(self).grid@ == (GridView {
                table: final(self).grid.model@,
                ..old(self).grid@
            }),
    {
        let m = &mut self.grid.model;
        f(m)
    }
}

} // verus!
