//! A virtualized table in a document tree: a `<table>` of which only a window of
//! rows is ever drawn.

use rdom_tui::{NodeId, TuiDom};
use vstd::prelude::*;

use crate::clear::{
    cleared, lemma_cleared_again, lemma_shape_below, lemma_shape_cleared, lemma_shape_kept,
    lemma_shape_marked, lemma_shape_shape, same_shape,
};

use crate::dom::{
    column_sizes, dom_nodes, dom_quiet, has_room, is_below, leads_down, no_style, scroll_top,
    scroll_top_of, size_columns, widths_kept, with_columns_sized, Nodes,
};
use crate::draw::{
    all_dropped, built_beside, draw_window, drop_all, lemma_all_drop_keeps, span, stands_clear,
    window_drawn, window_nodes, Window,
};
use crate::grid::{lesser, Grid, GridView};
use crate::grid_cursor::Nav;
use crate::grow::{grown_by, lemma_drawn_extends, lemma_extends_below};
use crate::header::{build_frame, frame_built, Frame};
use crate::marks::{all_marked, all_marks, apply_highlight};
use crate::menu::Menu;
use crate::model::VirtualTable;
use crate::selection::SelectionMode;

verus! {

/// A virtualized table: the state of the table and the nodes that show it.
pub struct VirtualTableView {
    pub grid: Grid,
    /// The table element and its header, once mounted.
    pub frame: Option<Frame>,
    /// The rows on show.
    pub window: Window,
    /// A press on a cell is held.
    pub mouse_drag: bool,
    /// The chip of the column chooser, once it is enabled.
    pub chip: Option<NodeId>,
    /// The panel of the column chooser, while it is open.
    pub menu: Option<Menu>,
}

/// The header cells of a table, none before it is mounted.
pub open spec fn header_cells(frame: Option<Frame>) -> Seq<NodeId> {
    match frame {
        Some(f) => f.header_cells@,
        None => Seq::empty(),
    }
}

/// The tree with the marks of the cursor and the selection.
pub open spec fn highlighted(
    nodes: Nodes,
    g: GridView,
    frame: Option<Frame>,
    w: Window,
) -> Nodes {
    all_marked(nodes, all_marks(g, header_cells(frame), w))
}

/// Is `after` the tree `before` with the window `old` replaced by the window `w`
/// of `count` rows from `start`, the columns sized and, where the cursor is
/// shown, the marks made?
pub open spec fn window_shown(
    before: Nodes,
    after: Nodes,
    frame: Option<Frame>,
    old: Window,
    w: Window,
    g: GridView,
    start: int,
    count: int,
) -> bool {
    match frame {
        Some(f) => exists|drawn: Nodes|
            {
                let sized = with_columns_sized(drawn, column_sizes(drawn, f.table));
                &&& #[trigger] window_drawn(
                    cleared(before, old),
                    drawn,
                    f.tbody,
                    w,
                    g,
                    start,
                    count,
                )
                &&& widths_kept(sized, f.table)
                &&& after == if g.nav_active {
                    highlighted(sized, g, frame, w)
                } else {
                    sized
                }
            },
        None => after == before && w == old,
    }
}

/// At most how many nodes drawing `count` rows takes.
pub open spec fn window_cost(g: GridView, count: int) -> nat {
    (2 + lesser(count, g.total_rows()) * (1 + 2 * g.table.columns.len())) as nat
}

/// Is `g2` the state `g1`, and `after` the tree `before`, with `count` rows shown
/// anew from where the window starts?
pub open spec fn refreshed(
    before: Nodes,
    after: Nodes,
    frame: Option<Frame>,
    w1: Window,
    w2: Window,
    g1: GridView,
    g2: GridView,
    count: usize,
) -> bool {
    &&& g2 == if frame is Some {
        g1.shown(g1.window_start, count)
    } else {
        g1
    }
    &&& window_shown(
        before,
        after,
        frame,
        w1,
        w2,
        g2,
        g1.window_start as int,
        count as int,
    )
}

/// How far the body is scrolled down.
pub open spec fn body_top(nodes: Nodes, tbody: NodeId) -> int {
    match scroll_top_of(nodes, tbody) {
        Some(top) => if top > 0 {
            top as int
        } else {
            0
        },
        None => 0,
    }
}

/// The first row and the number of rows of a window that starts at `top`.
pub open spec fn window_at(g: GridView, top: int) -> (int, int) {
    let start = lesser(top, g.total_rows());
    (start, lesser(g.viewport_rows as int, g.total_rows() - start))
}

/// Is the cursor of `g1` brought into view? Where the body scrolls by itself, by
/// asking for another scroll position; else by showing another window. If it is
/// in view the marks are made anew.
pub open spec fn followed(
    before: Nodes,
    after: Nodes,
    frame: Option<Frame>,
    w1: Window,
    w2: Window,
    g1: GridView,
    g2: GridView,
    scroll_to: Option<usize>,
) -> bool {
    if g1.scroll_mode && frame is Some {
        let top = body_top(before, frame.unwrap().tbody);
        let want = g1.top_for_cursor(top);
        &&& g2 == g1
        &&& w2 == w1
        &&& scroll_to == if want != top {
            Some(want as usize)
        } else {
            None
        }
        &&& after == if want != top {
            before
        } else {
            highlighted(before, g1, frame, w1)
        }
    } else {
        let want = g1.top_for_cursor(g1.window_start as int);
        &&& scroll_to is None
        &&& if !g1.scroll_mode && g1.viewport_rows > 0 && want != g1.window_start {
            let at = window_at(g1, want);
            &&& g2 == if frame is Some {
                g1.shown(at.0 as usize, at.1 as usize)
            } else {
                g1
            }
            &&& window_shown(before, after, frame, w1, w2, g2, at.0, at.1)
        } else {
            &&& g2 == g1
            &&& w2 == w1
            &&& after == highlighted(before, g1, frame, w1)
        }
    }
}

/// What became of a cursor move.
pub struct Moved {
    /// The cursor moved, or the selection changed.
    pub changed: bool,
    /// The body must be scrolled to this row.
    pub scroll_to: Option<usize>,
}

impl VirtualTableView {
    /// The state is well-formed, and the rows on show have cells and numbers.
    pub open spec fn wf(&self) -> bool {
        &&& self.grid.wf()
        &&& self.window.rows@.len() == self.window.cells@.len()
        &&& self.grid@.window_start + self.window.rows@.len() <= usize::MAX
        &&& self.chip is Some ==> self.frame is Some
        &&& self.menu is Some ==> self.chip is Some
        &&& self.menu matches Some(m) ==> m.boxes@.len() == m.items@.len() && m.texts@.len()
            == m.items@.len()
    }

    /// The table's body, if it is mounted, is in the tree and under none of what
    /// the table drops of itself: the rows and spacers of the window, and the
    /// panel of the chooser.
    pub open spec fn attached(&self, nodes: Nodes) -> bool {
        match self.frame {
            Some(f) => {
                &&& stands_clear(nodes, self.window.rows@ + self.window.spacers@, f.tbody)
                &&& self.menu matches Some(m) ==> !is_below(nodes, m.node, f.tbody)
            },
            None => true,
        }
    }

    /// The tree can take `count` rows of the table in place of those on show.
    pub open spec fn ready(&self, dom: TuiDom, count: int) -> bool {
        self.ready_for(dom, self.grid@, count)
    }

    /// The tree can take `count` rows of a table in the state `g` in place of
    /// those on show.
    pub open spec fn ready_for(&self, dom: TuiDom, g: GridView, count: int) -> bool {
        &&& dom_quiet(dom)
        &&& self.attached(dom_nodes(dom))
        &&& self.frame is Some ==> has_room(
            cleared(dom_nodes(dom), self.window),
            window_cost(g, count),
        )
    }

    pub fn new(table: VirtualTable) -> (r: Self)
        requires
            table@.wf(),
        ensures
            r.wf(),
            r.frame is None,
            r.window.rows@.len() == 0,
            r.window.spacers@.len() == 0,
            !r.mouse_drag,
            r.chip is None,
            r.menu is None,
            call_ensures(Grid::new, (table,), r.grid),
    {
        VirtualTableView {
            grid: Grid::new(table),
            frame: None,
            window: Window { rows: Vec::new(), cells: Vec::new(), spacers: Vec::new() },
            mouse_drag: false,
            chip: None,
            menu: None,
        }
    }

    /// Draw the table element with its header and an empty body, and return it.
    pub fn mount(&mut self, dom: &mut TuiDom) -> (table: NodeId)
        requires
            old(self).wf(),
            dom_quiet(*old(dom)),
            has_room(dom_nodes(*old(dom)), 4 + 2 * old(self).grid@.table.columns.len()),
        ensures
            final(self).wf(),
            final(self).grid == old(self).grid,
            final(self).window == old(self).window,
            final(self).mouse_drag == old(self).mouse_drag,
            final(self).chip == old(self).chip,
            final(self).menu == old(self).menu,
            final(self).frame matches Some(f) && f.table == table && frame_built(
                dom_nodes(*final(dom)),
                f,
                old(self).grid@.table.columns,
            ) && !dom_nodes(*old(dom)).contains_key(f.table) && !dom_nodes(*old(dom)).contains_key(
                f.tbody,
            ),
            dom_quiet(*final(dom)),
            built_beside(dom_nodes(*old(dom)), dom_nodes(*final(dom))),
            dom_nodes(*final(dom)).dom().finite(),
            dom_nodes(*final(dom)).dom().len() == dom_nodes(*old(dom)).dom().len() + 4 + 2 * old(self).grid@.table.columns.len(),
            (forall|i: int|
                0 <= i < old(self).window.rows@.len() ==> dom_nodes(*old(dom)).contains_key(
                    #[trigger] old(self).window.rows@[i],
                )) && (forall|i: int|
                0 <= i < old(self).window.spacers@.len() ==> dom_nodes(*old(dom)).contains_key(
                    #[trigger] old(self).window.spacers@[i],
                )) && (old(self).menu matches Some(m) ==> dom_nodes(*old(dom)).contains_key(m.node))
                ==> final(self).attached(dom_nodes(*final(dom))),
    {
        let frame = build_frame(dom, self.grid.model.columns());
        let table = frame.table;
        proof {
            let before = dom_nodes(*old(dom));
            let after = dom_nodes(*dom);
            let tops = self.window.rows@ + self.window.spacers@;
            if (forall|i: int|
                0 <= i < self.window.rows@.len() ==> before.contains_key(
                    #[trigger] self.window.rows@[i],
                )) && (forall|i: int|
                0 <= i < self.window.spacers@.len() ==> before.contains_key(
                    #[trigger] self.window.spacers@[i],
                )) && (self.menu is Some ==> before.contains_key(self.menu.unwrap().node)) {
                assert forall|i: int| 0 <= i < tops.len() implies !is_below(
                    after,
                    #[trigger] tops[i],
                    frame.tbody,
                ) by {
                    if i < self.window.rows@.len() {
                        assert(tops[i] == self.window.rows@[i]);
                    } else {
                        assert(tops[i] == self.window.spacers@[i - self.window.rows@.len()]);
                    }
                    if is_below(after, tops[i], frame.tbody) {
                        lemma_not_below_new(before, after, tops[i], frame.tbody);
                    }
                }
                if self.menu is Some && is_below(after, self.menu.unwrap().node, frame.tbody) {
                    lemma_not_below_new(before, after, self.menu.unwrap().node, frame.tbody);
                }
            }
        }
        self.frame = Some(frame);
        table
    }

    /// Show the window of `count` rows from `start` in place of the rows on
    /// show: the rows are taken from the buffer, which is filled from the model
    /// or asked from the windowed source, and a row that is not at hand is shown
    /// as a placeholder. Nothing happens before the table is mounted.
    pub fn show_window(&mut self, dom: &mut TuiDom, start: usize, count: usize)
        requires
            old(self).wf(),
            old(self).ready(*old(dom), count as int),
            old(self).grid@.buffer.epoch < u64::MAX,
        ensures
            final(self).wf(),
            stays_ready(*old(self), *old(dom), *final(self), *final(dom)),
            final(self).grid@ == (if old(self).frame is Some {
                old(self).grid@.shown(start, count)
            } else {
                old(self).grid@
            }),
            window_shown(
                dom_nodes(*old(dom)),
                dom_nodes(*final(dom)),
                old(self).frame,
                old(self).window,
                final(self).window,
                final(self).grid@,
                start as int,
                count as int,
            ),
            old(self).frame is Some ==> final(self).window.rows@.len() <= count
                && dom_nodes(*final(dom)).dom().finite() && dom_nodes(*final(dom)).dom().len()
                <= cleared(dom_nodes(*old(dom)), old(self).window).dom().len() + window_cost(
                old(self).grid@,
                count as int,
            ),
    {
        let tbody = match &self.frame {
            Some(f) => f.tbody,
            None => {
                return;
            },
        };
        let ghost before = dom_nodes(*dom);
        let ghost g0 = self.grid@;
        let ghost w0 = self.window;
        self.grid.prepare_window(start, count);
        proof {
            let tops = w0.rows@ + w0.spacers@;
            assert(stands_clear(before, tops, tbody));
            assert(stands_clear(before, w0.rows@, tbody)) by {
                assert forall|i: int| 0 <= i < w0.rows@.len() implies !is_below(
                    before,
                    #[trigger] w0.rows@[i],
                    tbody,
                ) by {
                    assert(tops[i] == w0.rows@[i]);
                }
            }
            assert(stands_clear(before, w0.spacers@, tbody)) by {
                assert forall|i: int| 0 <= i < w0.spacers@.len() implies !is_below(
                    before,
                    #[trigger] w0.spacers@[i],
                    tbody,
                ) by {
                    assert(tops[w0.rows@.len() + i] == w0.spacers@[i]);
                }
            }
            lemma_all_drop_keeps(before, w0.rows@, w0.spacers@, tbody);
            let mid = all_dropped(before, w0.rows@);
            lemma_all_drop_keeps(mid, w0.spacers@, w0.spacers@, tbody);
            lemma_cost(g0, self.grid@, start as int, count as int);
            if self.menu is Some {
                let panel = seq![self.menu.unwrap().node];
                assert(stands_clear(before, panel, tbody));
                lemma_all_drop_keeps(before, w0.rows@, panel, tbody);
                lemma_all_drop_keeps(mid, w0.spacers@, panel, tbody);
                assert(!is_below(cleared(before, w0), panel[0], tbody));
            }
        }
        drop_all(dom, &self.window.rows);
        drop_all(dom, &self.window.spacers);
        let ghost base = dom_nodes(*dom);
        let w = draw_window(dom, tbody, &self.grid, start, count);
        let ghost drawn = dom_nodes(*dom);
        self.grid.window_start = start;
        self.window = w;
        let table = match &self.frame {
            Some(f) => f.table,
            None => tbody,
        };
        size_columns(dom, table);
        proof {
            let sizes = column_sizes(drawn, table);
            lemma_shape_kept(drawn, tbody, ""@, None, ""@, no_style(), sizes);
            assert(window_drawn(
                base,
                drawn,
                tbody,
                self.window,
                self.grid@,
                start as int,
                count as int,
            ));
        }
        let ghost sized = dom_nodes(*dom);
        if self.grid.nav_active {
            self.highlight(dom);
            proof {
                let marks = all_marks(self.grid@, header_cells(self.frame), self.window);
                lemma_shape_marked(sized, marks);
                lemma_shape_shape(drawn, sized, dom_nodes(*dom));
            }
        }
        proof {
            lemma_cleared_again(
                base,
                drawn,
                dom_nodes(*dom),
                tbody,
                self.window,
                self.grid@,
                start as int,
                count as int,
            );
            if self.menu is Some {
                let panel = self.menu.unwrap().node;
                lemma_drawn_extends(
                    base,
                    drawn,
                    tbody,
                    self.window,
                    self.grid@,
                    start as int,
                    count as int,
                );
                lemma_extends_below(base, drawn, panel, tbody);
                lemma_shape_below(drawn, dom_nodes(*dom), panel, tbody);
            }
        }
    }

    /// Mark the cursor and the selection on the header and on the rows on show.
    pub(crate) fn highlight(&self, dom: &mut TuiDom)
        requires
            self.wf(),
            dom_quiet(*old(dom)),
        ensures
            dom_quiet(*final(dom)),
            dom_nodes(*final(dom)) == highlighted(
                dom_nodes(*old(dom)),
                self.grid@,
                self.frame,
                self.window,
            ),
    {
        match &self.frame {
            Some(f) => {
                apply_highlight(dom, &self.grid, &f.header_cells, &self.window);
            },
            None => {
                let none: Vec<NodeId> = Vec::new();
                assert(none@ =~= Seq::empty());
                apply_highlight(dom, &self.grid, &none, &self.window);
            },
        }
    }

    /// Bring the cursor into view, or mark it where it is in view.
    fn refresh_after_cursor(&mut self, dom: &mut TuiDom) -> (scroll_to: Option<usize>)
        requires
            old(self).wf(),
            old(self).ready(*old(dom), old(self).grid@.viewport_rows as int),
            old(self).grid@.buffer.epoch < u64::MAX,
        ensures
            final(self).wf(),
            stays_ready(*old(self), *old(dom), *final(self), *final(dom)),
            followed(
                dom_nodes(*old(dom)),
                dom_nodes(*final(dom)),
                old(self).frame,
                old(self).window,
                final(self).window,
                old(self).grid@,
                final(self).grid@,
                scroll_to,
            ),
    {
        let ghost before = dom_nodes(*dom);
        if self.grid.scroll_mode {
            let body = match &self.frame {
                Some(f) => Some(f.tbody),
                None => None,
            };
            match body {
                Some(tbody) => {
                    let top: usize = match scroll_top(dom, tbody) {
                        Some(t) => if t > 0 {
                            t as usize
                        } else {
                            0
                        },
                        None => 0,
                    };
                    let want: usize = self.grid.top_for_cursor(top);
                    if want != top {
                        return Some(want);
                    }
                },
                None => {},
            }
        } else {
            let top: usize = self.grid.window_start;
            let want: usize = self.grid.top_for_cursor(top);
            if self.grid.viewport_rows > 0 && want != top {
                let rows: usize = self.grid.total_rows();
                let (start, count) = VirtualTable::window_for(
                    self.grid.viewport_rows,
                    want,
                    rows,
                );
                proof {
                    lemma_cost_grows(
                        self.grid@,
                        count as int,
                        self.grid@.viewport_rows as int,
                    );
                }
                self.show_window(dom, start, count);
                return None;
            }
        }
        self.highlight(dom);
        proof {
            lemma_highlight_keeps(before, *self);
        }
        None
    }

    /// Apply a navigation move to the cursor and bring it into view. A plain
    /// move collapses the range and a select-all.
    pub fn navigate(&mut self, dom: &mut TuiDom, nav: Nav) -> (r: Moved)
        requires
            old(self).wf(),
            old(self).ready(*old(dom), old(self).grid@.viewport_rows as int),
            old(self).grid@.buffer.epoch < u64::MAX,
        ensures
            final(self).wf(),
            stays_ready(*old(self), *old(dom), *final(self), *final(dom)),
            stepped(
                dom_nodes(*old(dom)),
                dom_nodes(*final(dom)),
                *old(self),
                *final(self),
                old(self).grid@.after_nav(nav),
                r.scroll_to,
            ),
            r.changed == (old(self).grid@.has_cells() && old(self).grid@.after_nav(nav).cursor
                != old(self).grid@.cursor),
    {
        match self.grid.navigate(nav) {
            Some(changed) => Moved { changed, scroll_to: self.refresh_after_cursor(dom) },
            None => Moved { changed: false, scroll_to: None },
        }
    }

    /// Extend the range by moving the cursor, and bring it into view. Nothing
    /// happens where nothing can be selected.
    pub fn extend_selection(&mut self, dom: &mut TuiDom, nav: Nav) -> (r: Moved)
        requires
            old(self).wf(),
            old(self).ready(*old(dom), old(self).grid@.viewport_rows as int),
            old(self).grid@.buffer.epoch < u64::MAX,
        ensures
            final(self).wf(),
            stays_ready(*old(self), *old(dom), *final(self), *final(dom)),
            (if old(self).grid@.selection.mode == SelectionMode::Off {
                final(self).grid@ == old(self).grid@ && same_nodes(*old(self), *final(self))
                    && *final(dom) == *old(dom) && r.scroll_to is None
            } else {
                stepped(
                    dom_nodes(*old(dom)),
                    dom_nodes(*final(dom)),
                    *old(self),
                    *final(self),
                    old(self).grid@.after_extend(nav),
                    r.scroll_to,
                )
            }),
            r.changed == (old(self).grid@.has_cells() && old(self).grid@.after_extend(nav).cursor
                != old(self).grid@.cursor),
    {
        match self.grid.extend_selection(nav) {
            Some(changed) => Moved { changed, scroll_to: self.refresh_after_cursor(dom) },
            None => Moved { changed: false, scroll_to: None },
        }
    }

    /// Put the cursor at `(row, col)`, limited to the grid, and bring it into
    /// view; the range and a select-all collapse.
    pub fn set_cursor_at(&mut self, dom: &mut TuiDom, row: usize, col: usize) -> (r: Moved)
        requires
            old(self).wf(),
            old(self).ready(*old(dom), old(self).grid@.viewport_rows as int),
            old(self).grid@.buffer.epoch < u64::MAX,
        ensures
            final(self).wf(),
            stays_ready(*old(self), *old(dom), *final(self), *final(dom)),
            stepped(
                dom_nodes(*old(dom)),
                dom_nodes(*final(dom)),
                *old(self),
                *final(self),
                old(self).grid@.after_place(row, col),
                r.scroll_to,
            ),
            r.changed == (old(self).grid@.has_cells() && old(self).grid@.after_place(
                row,
                col,
            ).cursor != old(self).grid@.cursor),
    {
        match self.grid.set_cursor_at(row, col) {
            Some(changed) => Moved { changed, scroll_to: self.refresh_after_cursor(dom) },
            None => Moved { changed: false, scroll_to: None },
        }
    }

    /// Extend the range to `(row, col)`, put the cursor there and bring it into
    /// view. Where nothing is selected this is a plain cursor move.
    pub fn extend_selection_to(&mut self, dom: &mut TuiDom, row: usize, col: usize) -> (r: Moved)
        requires
            old(self).wf(),
            old(self).ready(*old(dom), old(self).grid@.viewport_rows as int),
            old(self).grid@.buffer.epoch < u64::MAX,
        ensures
            final(self).wf(),
            stays_ready(*old(self), *old(dom), *final(self), *final(dom)),
            stepped(
                dom_nodes(*old(dom)),
                dom_nodes(*final(dom)),
                *old(self),
                *final(self),
                old(self).grid@.after_extend_to(row, col),
                r.scroll_to,
            ),
            r.changed == (old(self).grid@.has_cells() && (old(self).grid@.selection.mode
                != SelectionMode::Off || old(self).grid@.after_extend_to(row, col).cursor != old(self).grid@.cursor)),
    {
        match self.grid.extend_selection_to(row, col) {
            Some(changed) => Moved { changed, scroll_to: self.refresh_after_cursor(dom) },
            None => Moved { changed: false, scroll_to: None },
        }
    }

    /// Toggle `(row, col)`, put the cursor there and bring it into view. Where
    /// nothing is selected this is a plain cursor move.
    pub fn toggle_at(&mut self, dom: &mut TuiDom, row: usize, col: usize) -> (r: Moved)
        requires
            old(self).wf(),
            old(self).ready(*old(dom), old(self).grid@.viewport_rows as int),
            old(self).grid@.buffer.epoch < u64::MAX,
        ensures
            final(self).wf(),
            stays_ready(*old(self), *old(dom), *final(self), *final(dom)),
            stepped(
                dom_nodes(*old(dom)),
                dom_nodes(*final(dom)),
                *old(self),
                *final(self),
                old(self).grid@.after_toggle_at(row, col),
                r.scroll_to,
            ),
            r.changed == (old(self).grid@.has_cells() && (old(self).grid@.selection.mode
                != SelectionMode::Off || old(self).grid@.after_toggle_at(row, col).cursor != old(self).grid@.cursor)),
    {
        match self.grid.toggle_at(row, col) {
            Some(changed) => Moved { changed, scroll_to: self.refresh_after_cursor(dom) },
            None => Moved { changed: false, scroll_to: None },
        }
    }

    /// Toggle the selection at the cursor: the range as a unit where one is
    /// active, else the cursor's cell.
    pub fn toggle_selection(&mut self, dom: &mut TuiDom)
        requires
            old(self).wf(),
            dom_quiet(*old(dom)),
        ensures
            final(self).wf(),
            dom_quiet(*final(dom)),
            final(self).grid@ == old(self).grid@.after_toggle(),
            rehighlighted(
                dom_nodes(*old(dom)),
                dom_nodes(*final(dom)),
                *old(self),
                *final(self),
            ),
    {
        self.grid.toggle_selection();
        self.highlight(dom);
        proof {
            lemma_highlight_keeps(dom_nodes(*old(dom)), *self);
        }
    }

    /// Select the whole grid.
    pub fn select_all(&mut self, dom: &mut TuiDom)
        requires
            old(self).wf(),
            dom_quiet(*old(dom)),
        ensures
            final(self).wf(),
            dom_quiet(*final(dom)),
            final(self).grid@ == (GridView {
                selection: old(self).grid@.selection.everything(),
                ..old(self).grid@
            }),
            rehighlighted(
                dom_nodes(*old(dom)),
                dom_nodes(*final(dom)),
                *old(self),
                *final(self),
            ),
    {
        self.grid.selection.select_all();
        self.highlight(dom);
        proof {
            lemma_highlight_keeps(dom_nodes(*old(dom)), *self);
        }
    }

    /// Clear the selection.
    pub fn clear_selection(&mut self, dom: &mut TuiDom)
        requires
            old(self).wf(),
            dom_quiet(*old(dom)),
        ensures
            final(self).wf(),
            dom_quiet(*final(dom)),
            final(self).grid@ == (GridView {
                selection: old(self).grid@.selection.cleared(),
                ..old(self).grid@
            }),
            rehighlighted(
                dom_nodes(*old(dom)),
                dom_nodes(*final(dom)),
                *old(self),
                *final(self),
            ),
    {
        self.grid.selection.clear();
        self.highlight(dom);
        proof {
            lemma_highlight_keeps(dom_nodes(*old(dom)), *self);
        }
    }
}

/// Did the view come from the state `g1` of a table with cells by bringing the
/// cursor into view? In a table without cells nothing is drawn.
pub open spec fn stepped(
    before: Nodes,
    after: Nodes,
    v0: VirtualTableView,
    v1: VirtualTableView,
    g1: GridView,
    scroll_to: Option<usize>,
) -> bool {
    if v0.grid@.has_cells() {
        followed(before, after, v0.frame, v0.window, v1.window, g1, v1.grid@, scroll_to)
    } else {
        v1.grid@ == g1 && v1.window == v0.window && after == before && scroll_to is None
    }
}

/// Do two views speak of the same nodes?
pub open spec fn same_nodes(v0: VirtualTableView, v1: VirtualTableView) -> bool {
    &&& v1.frame == v0.frame
    &&& v1.window == v0.window
    &&& v1.mouse_drag == v0.mouse_drag
    &&& v1.chip == v0.chip
    &&& v1.menu == v0.menu
}

/// Is the tree still quiet and the table still attached to it, and does the tree
/// apart from the rows on show have the nodes that it had?
pub open spec fn stays_ready(
    v0: VirtualTableView,
    dom0: TuiDom,
    v1: VirtualTableView,
    dom1: TuiDom,
) -> bool {
    &&& dom_quiet(dom1)
    &&& v1.attached(dom_nodes(dom1))
    &&& v1.frame == v0.frame
    &&& v1.mouse_drag == v0.mouse_drag
    &&& v1.chip == v0.chip
    &&& v1.menu == v0.menu
    &&& v0.frame is Some ==> cleared(dom_nodes(dom1), v1.window).dom() == cleared(
        dom_nodes(dom0),
        v0.window,
    ).dom()
}

/// Is the table attached if it was, whatever became of the chooser? Apart from the
/// rows on show the tree has the nodes that it had, if the chooser was opened also
/// those of its panel, and if it was closed no others.
pub open spec fn stays_attached(
    v0: VirtualTableView,
    n0: Nodes,
    v1: VirtualTableView,
    n1: Nodes,
) -> bool {
    let before = cleared(n0, v0.window).dom();
    let after = cleared(n1, v1.window).dom();
    &&& v0.attached(n0) ==> v1.attached(n1)
    &&& v0.frame is Some ==> match (v0.menu, v1.menu) {
        (None, Some(_)) => grown_by(before, after, 1 + 3 * v0.grid@.table.columns.len()),
        (Some(_), None) => after.subset_of(before),
        _ => after == before,
    }
}

/// Were the marks made anew, and nothing else drawn?
pub open spec fn rehighlighted(
    before: Nodes,
    after: Nodes,
    v0: VirtualTableView,
    v1: VirtualTableView,
) -> bool {
    &&& same_nodes(v0, v1)
    &&& after == highlighted(before, v1.grid@, v0.frame, v0.window)
    &&& v0.attached(before) ==> v1.attached(after)
    &&& v0.frame is Some ==> cleared(after, v1.window).dom() == cleared(before, v0.window).dom()
}

/// What changes no shape leaves a table attached and the tree its room.
pub(crate) proof fn lemma_shape_ready(
    n0: Nodes,
    n1: Nodes,
    v0: VirtualTableView,
    v1: VirtualTableView,
)
    requires
        same_shape(n0, n1),
        v1.frame == v0.frame,
        v1.window == v0.window,
        v1.menu matches Some(m1) ==> v0.menu matches Some(m0) && m0.node == m1.node,
    ensures
        v0.attached(n0) ==> v1.attached(n1),
        v0.frame is Some ==> cleared(n1, v1.window).dom() == cleared(n0, v0.window).dom(),
{
    match v0.frame {
        Some(f) => {
            lemma_shape_cleared(n0, n1, v0.window, f.tbody);
            if v1.menu is Some {
                lemma_shape_below(n0, n1, v1.menu.unwrap().node, f.tbody);
            }
        },
        None => {},
    }
}

/// Making marks leaves a table attached.
pub(crate) proof fn lemma_highlight_keeps(before: Nodes, v: VirtualTableView)
    ensures
        v.attached(before) ==> v.attached(highlighted(before, v.grid@, v.frame, v.window)),
        v.frame is Some ==> cleared(
            highlighted(before, v.grid@, v.frame, v.window),
            v.window,
        ).dom() == cleared(before, v.window).dom(),
{
    let marks = all_marks(v.grid@, header_cells(v.frame), v.window);
    lemma_shape_marked(before, marks);
    lemma_shape_ready(before, all_marked(before, marks), v, v);
}

/// More rows cost more nodes.
pub(crate) proof fn lemma_cost_grows(g: GridView, a: int, b: int)
    requires
        0 <= a <= b,
        0 <= g.total_rows(),
    ensures
        window_cost(g, a) <= window_cost(g, b),
{
    let x = lesser(a, g.total_rows());
    let y = lesser(b, g.total_rows());
    let step = (1 + 2 * g.table.columns.len()) as int;
    assert(x * step <= y * step) by (nonlinear_arith)
        requires
            0 <= x <= y,
            step >= 1,
    ;
}

/// What was built beside a tree is under none of its nodes.
proof fn lemma_not_below_new(before: Nodes, after: Nodes, top: NodeId, id: NodeId)
    requires
        built_beside(before, after),
        before.contains_key(top),
        after.contains_key(id),
        !before.contains_key(id),
    ensures
        !is_below(after, top, id),
{
    if is_below(after, top, id) {
        let path = choose|path: Seq<NodeId>| #[trigger]
            leads_down(after, path) && path.len() > 0 && path.first() == top && path.last() == id;
        lemma_path_stays(before, after, path, path.len() - 1);
    }
}

proof fn lemma_path_stays(before: Nodes, after: Nodes, path: Seq<NodeId>, at: int)
    requires
        built_beside(before, after),
        leads_down(after, path),
        0 <= at < path.len(),
        before.contains_key(path[0]),
    ensures
        before.contains_key(path[at]) || !after.contains_key(path[at]),
    decreases at,
{
    if at > 0 {
        lemma_path_stays(before, after, path, at - 1);
        let up = path[at - 1];
        assert(after.contains_key(path[at - 1]) && after[up].children.contains(path[at - 1 + 1]));
        if after.contains_key(path[at]) && !before.contains_key(path[at]) {
            assert(!before[up].children.contains(path[at]));
        }
    }
}

/// Drawing a window takes no more nodes than its cost.
proof fn lemma_cost(g0: GridView, g: GridView, start: int, count: int)
    requires
        0 <= start,
        0 <= count,
        start <= usize::MAX,
        count <= usize::MAX,
        g0.table.rows.len() <= usize::MAX,
        g == g0.prepared(start as usize, count as usize),
    ensures
        window_nodes(g, start, count) <= window_cost(g0, count),
{
    let a = span(g, start, count) as int;
    let b = lesser(count, g0.total_rows());
    let step = (1 + 2 * g0.table.columns.len()) as int;
    assert(g.buffer.total == g0.total_rows());
    assert(a <= b);
    assert(a * step <= b * step) by (nonlinear_arith)
        requires
            0 <= a <= b,
            step >= 1,
    ;
}

} // verus!
