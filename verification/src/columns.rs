//! Column operations of a view: sorting, reordering, hiding, resizing, and the
//! column chooser.

use rdom_tui::{NodeId, TuiDom};
use vstd::prelude::*;

use crate::clear::{
    cleared, lemma_shape_kept, lemma_shape_labelled, lemma_shape_marked, lemma_shape_shape,
    lemma_shape_widths, same_shape,
};
use crate::dom::{dom_nodes, dom_quiet, no_style, used_width, used_width_of, with_data, Nodes};
use crate::draw::lemma_attribute_names;
use crate::grid::GridView;
use crate::header::{
    all_labelled, all_widths_set, apply_sort_indicator, sync_header_widths,
};
use crate::marks::{all_marked, marked, set_flag, Mark};
use crate::menu::{items_synced, sync_menu_items, Menu};
use crate::model::{sorts, SortDir};
use crate::view::{
    header_cells, lemma_shape_ready, refreshed, same_nodes, stays_ready, VirtualTableView,
};

verus! {

/// The marks of the header cells: which columns are hidden.
pub open spec fn hidden_marks(g: GridView, ths: Seq<NodeId>) -> Seq<Mark> {
    Seq::new(
        ths.len(),
        |c: int|
            Mark {
                id: ths[c],
                attr: "data-vt-hidden"@,
                on: g.table.hidden.contains(c as usize),
            },
    )
}

/// The tree with the items of an open chooser up to date.
pub open spec fn menu_synced(nodes: Nodes, menu: Option<Menu>, g: GridView) -> Nodes {
    match menu {
        Some(m) => items_synced(nodes, m.boxes@, m.texts@, g, m.boxes@.len()),
        None => nodes,
    }
}

/// Did the view come from the state `g1` and the tree `n` by showing its rows
/// anew and noting the change of layout?
pub open spec fn relaid(
    v0: VirtualTableView,
    n: Nodes,
    v1: VirtualTableView,
    n1: Nodes,
    g1: GridView,
) -> bool {
    exists|g2: GridView| #[trigger]
        refreshed(
            n,
            n1,
            v0.frame,
            v0.window,
            v1.window,
            g1,
            g2,
            v0.window.rows@.len() as usize,
        ) && v1.grid@ == g2.noted()
}

/// Is `g1` the state `g0` sorted by `col` in direction `dir`? The range and a
/// select-all collapse; the explicitly selected cells stay.
pub open spec fn sorted_grid<R: Fn(&str) -> Option<u64>>(
    g0: GridView,
    g1: GridView,
    col: usize,
    dir: SortDir,
    read: R,
) -> bool {
    &&& g1 == (GridView {
        table: g1.table,
        selection: g0.selection.collapsed(),
        ..g0.refetching()
    })
    &&& sorts(g0.table, g1.table, col, dir, read)
}

/// What sorting does to a view and its tree.
pub open spec fn sort_step<R: Fn(&str) -> Option<u64>>(
    v0: VirtualTableView,
    n0: Nodes,
    v1: VirtualTableView,
    n1: Nodes,
    col: usize,
    dir: SortDir,
    read: R,
) -> bool {
    exists|g1: GridView| #[trigger]
        sorted_grid(v0.grid@, g1, col, dir, read) && relaid(
            v0,
            all_labelled(n0, header_cells(v0.frame), g1),
            v1,
            n1,
            g1,
        )
}

/// What going back to the order of insertion does to a view and its tree.
pub open spec fn clear_sort_step(
    v0: VirtualTableView,
    n0: Nodes,
    v1: VirtualTableView,
    n1: Nodes,
) -> bool {
    let g1 = v0.grid@.after_clear_sort();
    relaid(v0, all_labelled(n0, header_cells(v0.frame), g1), v1, n1, g1)
}

/// The tree of a view in which columns moved: its headers and the items of an
/// open chooser up to date.
pub open spec fn headers_synced(v: VirtualTableView, n: Nodes, g: GridView) -> Nodes {
    let ths = header_cells(v.frame);
    let labelled = all_labelled(n, ths, g);
    let sized = all_widths_set(labelled, ths, g);
    menu_synced(all_marked(sized, hidden_marks(g, ths)), v.menu, g)
}

/// What moving a column does to a view and its tree.
pub open spec fn move_step(
    v0: VirtualTableView,
    n0: Nodes,
    v1: VirtualTableView,
    n1: Nodes,
    from: usize,
    to: usize,
) -> bool {
    let n = v0.grid@.table.columns.len();
    let g1 = v0.grid@.after_move(from, to);
    if from < n && to < n && from != to {
        relaid(v0, headers_synced(v0, n0, g1), v1, n1, g1)
    } else {
        same_nodes(v0, v1) && v1.grid@ == v0.grid@ && n1 == n0
    }
}

/// What hiding or showing a column does to a view and its tree. Hiding the last
/// visible column is refused.
pub open spec fn hide_step(
    v0: VirtualTableView,
    n0: Nodes,
    v1: VirtualTableView,
    n1: Nodes,
    col: usize,
    hidden: bool,
) -> bool {
    let ths = header_cells(v0.frame);
    let g1 = v0.grid@.after_hide(col, hidden);
    let flagged = if col < ths.len() {
        marked(n0, Mark { id: ths[col as int], attr: "data-vt-hidden"@, on: hidden })
    } else {
        n0
    };
    if hidden && v0.grid@.last_visible(col) {
        same_nodes(v0, v1) && v1.grid@ == v0.grid@ && n1 == n0
    } else {
        relaid(v0, menu_synced(flagged, v0.menu, g1), v1, n1, g1)
    }
}

/// What resizing a column does to a view and its tree.
pub open spec fn width_step(
    v0: VirtualTableView,
    n0: Nodes,
    v1: VirtualTableView,
    n1: Nodes,
    col: usize,
    width: Option<u16>,
) -> bool {
    let g1 = v0.grid@.after_width(col, width);
    relaid(v0, all_widths_set(n0, header_cells(v0.frame), g1), v1, n1, g1)
}

/// The items of a chooser are no part of the shape.
pub(crate) proof fn lemma_shape_menu(nodes: Nodes, menu: Option<Menu>, g: GridView)
    ensures
        same_shape(nodes, menu_synced(nodes, menu, g)),
{
    match menu {
        Some(m) => {
            lemma_shape_items(nodes, m.boxes@, m.texts@, g, m.boxes@.len());
        },
        None => {},
    }
}

proof fn lemma_shape_items(
    nodes: Nodes,
    boxes: Seq<NodeId>,
    texts: Seq<NodeId>,
    g: GridView,
    n: nat,
)
    ensures
        same_shape(nodes, items_synced(nodes, boxes, texts, g, n)),
    decreases n,
{
    if n > 0 {
        let rest = items_synced(nodes, boxes, texts, g, (n - 1) as nat);
        lemma_shape_items(nodes, boxes, texts, g, (n - 1) as nat);
        let mark = Mark {
            id: boxes[n - 1],
            attr: "checked"@,
            on: !g.table.hidden.contains((n - 1) as usize),
        };
        lemma_shape_marked(rest, seq![mark]);
        assert(seq![mark].drop_last() =~= Seq::empty());
        reveal_with_fuel(all_marked, 2);
        let checked = marked(rest, mark);
        lemma_shape_shape(nodes, rest, checked);
        if n - 1 < g.table.columns.len() {
            let label = g.table.columns[n - 1].header@;
            lemma_shape_kept(checked, texts[n - 1], ""@, None, label, no_style(), Map::empty());
            lemma_shape_shape(nodes, checked, with_data(checked, texts[n - 1], label));
        }
    }
}

impl VirtualTableView {
    /// Show the sort in the headers.
    fn relabel(&self, dom: &mut TuiDom)
        requires
            dom_quiet(*old(dom)),
        ensures
            dom_quiet(*final(dom)),
            dom_nodes(*final(dom)) == all_labelled(
                dom_nodes(*old(dom)),
                header_cells(self.frame),
                self.grid@,
            ),
            same_shape(dom_nodes(*old(dom)), dom_nodes(*final(dom))),
    {
        proof {
            lemma_shape_labelled(dom_nodes(*dom), header_cells(self.frame), self.grid@);
        }
        match &self.frame {
            Some(f) => {
                apply_sort_indicator(dom, &self.grid, &f.header_cells);
            },
            None => {},
        }
    }

    /// Give each header its column's width.
    fn sync_widths(&self, dom: &mut TuiDom)
        requires
            dom_quiet(*old(dom)),
        ensures
            dom_quiet(*final(dom)),
            dom_nodes(*final(dom)) == all_widths_set(
                dom_nodes(*old(dom)),
                header_cells(self.frame),
                self.grid@,
            ),
            same_shape(dom_nodes(*old(dom)), dom_nodes(*final(dom))),
    {
        proof {
            lemma_shape_widths(dom_nodes(*dom), header_cells(self.frame), self.grid@);
        }
        match &self.frame {
            Some(f) => {
                sync_header_widths(dom, &self.grid, &f.header_cells);
            },
            None => {},
        }
    }

    /// Mark the headers of hidden columns.
    fn sync_hidden(&self, dom: &mut TuiDom)
        requires
            dom_quiet(*old(dom)),
        ensures
            dom_quiet(*final(dom)),
            dom_nodes(*final(dom)) == all_marked(
                dom_nodes(*old(dom)),
                hidden_marks(self.grid@, header_cells(self.frame)),
            ),
            same_shape(dom_nodes(*old(dom)), dom_nodes(*final(dom))),
    {
        let ghost before = dom_nodes(*dom);
        let ghost marks = hidden_marks(self.grid@, header_cells(self.frame));
        proof {
            lemma_shape_marked(before, marks);
            lemma_attribute_names();
            assert(marks.take(0) =~= Seq::empty());
        }
        match &self.frame {
            Some(f) => {
                let mut c: usize = 0;
                while c < f.header_cells.len()
                    invariant
                        c <= f.header_cells@.len(),
                        marks == hidden_marks(self.grid@, f.header_cells@),
                        "data-vt-hidden"@ != "style"@,
                        dom_quiet(*dom),
                        dom_nodes(*dom) == all_marked(before, marks.take(c as int)),
                    decreases f.header_cells@.len() - c,
                {
                    set_flag(
                        dom,
                        f.header_cells[c],
                        "data-vt-hidden",
                        self.grid.model.is_column_hidden(c),
                    );
                    assert(marks.take(c + 1).drop_last() =~= marks.take(c as int));
                    c = c + 1;
                }
            },
            None => {},
        }
        assert(marks.take(marks.len() as int) =~= marks);
    }

    /// Bring the items of an open chooser up to date.
    pub(crate) fn sync_menu(&self, dom: &mut TuiDom)
        requires
            self.wf(),
            dom_quiet(*old(dom)),
        ensures
            dom_quiet(*final(dom)),
            dom_nodes(*final(dom)) == menu_synced(dom_nodes(*old(dom)), self.menu, self.grid@),
            same_shape(dom_nodes(*old(dom)), dom_nodes(*final(dom))),
    {
        proof {
            lemma_shape_menu(dom_nodes(*dom), self.menu, self.grid@);
        }
        match &self.menu {
            Some(m) => {
                sync_menu_items(dom, &self.grid, m);
            },
            None => {},
        }
    }

    /// Show the rows anew and note the change of layout.
    fn relay(&mut self, dom: &mut TuiDom)
        requires
            old(self).wf(),
            old(self).ready(*old(dom), old(self).window.rows@.len() as int),
            old(self).grid@.buffer.epoch < u64::MAX,
        ensures
            final(self).wf(),
            stays_ready(*old(self), *old(dom), *final(self), *final(dom)),
            relaid(
                *old(self),
                dom_nodes(*old(dom)),
                *final(self),
                dom_nodes(*final(dom)),
                old(self).grid@,
            ),
    {
        self.refresh(dom);
        let ghost g2 = self.grid@;
        self.grid.notify_state_change();
        assert(refreshed(
            dom_nodes(*old(dom)),
            dom_nodes(*dom),
            old(self).frame,
            old(self).window,
            self.window,
            old(self).grid@,
            g2,
            old(self).window.rows@.len() as usize,
        ));
    }

    /// Sort by `col` in direction `dir` and show the rows in their new order.
    /// `read` tells which number a text spells, by its bit pattern. The cursor
    /// keeps its place. A selected row stays selected; the range and a
    /// select-all collapse.
    pub fn sort<R: Fn(&str) -> Option<u64>>(
        &mut self,
        dom: &mut TuiDom,
        col: usize,
        dir: SortDir,
        read: &R,
    )
        requires
            old(self).wf(),
            old(self).ready(*old(dom), old(self).window.rows@.len() as int),
            old(self).grid@.buffer.epoch < u64::MAX,
            forall|s: &str| #[trigger] call_requires(*read, (s,)),
        ensures
            final(self).wf(),
            stays_ready(*old(self), *old(dom), *final(self), *final(dom)),
            sort_step(
                *old(self),
                dom_nodes(*old(dom)),
                *final(self),
                dom_nodes(*final(dom)),
                col,
                dir,
                *read,
            ),
    {
        self.grid.sort(col, dir, read);
        let ghost g1 = self.grid@;
        self.relabel(dom);
        proof {
            assert(sorted_grid(old(self).grid@, g1, col, dir, *read));
            lemma_shape_ready(dom_nodes(*old(dom)), dom_nodes(*dom), *old(self), *self);
            assert(g1.table.rows.len() == old(self).grid@.table.rows.len());
        }
        self.relay(dom);
    }

    /// Toggle the sort on `col`: ascending first, then the other way each time.
    pub fn toggle_sort<R: Fn(&str) -> Option<u64>>(
        &mut self,
        dom: &mut TuiDom,
        col: usize,
        read: &R,
    )
        requires
            old(self).wf(),
            old(self).ready(*old(dom), old(self).window.rows@.len() as int),
            old(self).grid@.buffer.epoch < u64::MAX,
            forall|s: &str| #[trigger] call_requires(*read, (s,)),
        ensures
            final(self).wf(),
            stays_ready(*old(self), *old(dom), *final(self), *final(dom)),
            sort_step(
                *old(self),
                dom_nodes(*old(dom)),
                *final(self),
                dom_nodes(*final(dom)),
                col,
                old(self).grid@.toggled_dir(col),
                *read,
            ),
    {
        let dir = self.grid.toggled_dir(col);
        self.sort(dom, col, dir, read);
    }

    /// Put the rows back into the order of insertion and show them.
    pub fn clear_sort(&mut self, dom: &mut TuiDom)
        requires
            old(self).wf(),
            old(self).ready(*old(dom), old(self).window.rows@.len() as int),
            old(self).grid@.buffer.epoch < u64::MAX,
        ensures
            final(self).wf(),
            stays_ready(*old(self), *old(dom), *final(self), *final(dom)),
            clear_sort_step(
                *old(self),
                dom_nodes(*old(dom)),
                *final(self),
                dom_nodes(*final(dom)),
            ),
    {
        self.grid.clear_sort();
        self.relabel(dom);
        proof {
            lemma_shape_ready(dom_nodes(*old(dom)), dom_nodes(*dom), *old(self), *self);
        }
        self.relay(dom);
    }

    /// Step the sort on `col`: ascending, then descending, then off. Another
    /// column than the sorted one starts ascending.
    pub fn cycle_sort<R: Fn(&str) -> Option<u64>>(
        &mut self,
        dom: &mut TuiDom,
        col: usize,
        read: &R,
    )
        requires
            old(self).wf(),
            old(self).ready(*old(dom), old(self).window.rows@.len() as int),
            old(self).grid@.buffer.epoch < u64::MAX,
            forall|s: &str| #[trigger] call_requires(*read, (s,)),
        ensures
            final(self).wf(),
            stays_ready(*old(self), *old(dom), *final(self), *final(dom)),
            (match old(self).grid@.cycled_dir(col) {
                Some(dir) => sort_step(
                    *old(self),
                    dom_nodes(*old(dom)),
                    *final(self),
                    dom_nodes(*final(dom)),
                    col,
                    dir,
                    *read,
                ),
                None => clear_sort_step(
                    *old(self),
                    dom_nodes(*old(dom)),
                    *final(self),
                    dom_nodes(*final(dom)),
                ),
            }),
    {
        match self.grid.cycled_dir(col) {
            Some(dir) => {
                self.sort(dom, col, dir, read);
            },
            None => {
                self.clear_sort(dom);
            },
        }
    }

    /// Move the column `from` to `to` and show the rows in the new order of
    /// columns. The cursor follows its column and the selection is cleared.
    /// Nothing happens for an index past the last column or for equal indices.
    pub fn move_column(&mut self, dom: &mut TuiDom, from: usize, to: usize)
        requires
            old(self).wf(),
            old(self).ready(*old(dom), old(self).window.rows@.len() as int),
            old(self).grid@.buffer.epoch < u64::MAX,
        ensures
            final(self).wf(),
            stays_ready(*old(self), *old(dom), *final(self), *final(dom)),
            move_step(
                *old(self),
                dom_nodes(*old(dom)),
                *final(self),
                dom_nodes(*final(dom)),
                from,
                to,
            ),
    {
        if !self.grid.move_column(from, to) {
            return;
        }
        let ghost n0 = dom_nodes(*dom);
        self.relabel(dom);
        let ghost n1 = dom_nodes(*dom);
        self.sync_widths(dom);
        let ghost n2 = dom_nodes(*dom);
        self.sync_hidden(dom);
        let ghost n3 = dom_nodes(*dom);
        self.sync_menu(dom);
        proof {
            lemma_shape_shape(n0, n1, n2);
            lemma_shape_shape(n0, n2, n3);
            lemma_shape_shape(n0, n3, dom_nodes(*dom));
            lemma_shape_ready(n0, dom_nodes(*dom), *old(self), *self);
        }
        self.relay(dom);
    }

    /// Hide or show the column `col`: its header and cells are marked, and the
    /// cursor passes over it. Hiding the last visible column is refused: nothing
    /// happens.
    pub fn set_column_hidden(&mut self, dom: &mut TuiDom, col: usize, hidden: bool)
        requires
            old(self).wf(),
            old(self).ready(*old(dom), old(self).window.rows@.len() as int),
            old(self).grid@.buffer.epoch < u64::MAX,
        ensures
            final(self).wf(),
            stays_ready(*old(self), *old(dom), *final(self), *final(dom)),
            hide_step(
                *old(self),
                dom_nodes(*old(dom)),
                *final(self),
                dom_nodes(*final(dom)),
                col,
                hidden,
            ),
    {
        if !self.grid.set_column_hidden(col, hidden) {
            return;
        }
        let ghost n0 = dom_nodes(*dom);
        proof {
            lemma_attribute_names();
        }
        match &self.frame {
            Some(f) => {
                if col < f.header_cells.len() {
                    set_flag(dom, f.header_cells[col], "data-vt-hidden", hidden);
                }
            },
            None => {},
        }
        let ghost n1 = dom_nodes(*dom);
        self.sync_menu(dom);
        proof {
            let ths = header_cells(self.frame);
            if col < ths.len() {
                let mark = Mark { id: ths[col as int], attr: "data-vt-hidden"@, on: hidden };
                lemma_shape_marked(n0, seq![mark]);
                assert(seq![mark].drop_last() =~= Seq::empty());
                reveal_with_fuel(all_marked, 2);
            }
            lemma_shape_shape(n0, n1, dom_nodes(*dom));
            lemma_shape_ready(n0, dom_nodes(*dom), *old(self), *self);
        }
        self.relay(dom);
    }

    /// Set the width of the column `col`, or let it go by its content again.
    pub fn set_column_width(&mut self, dom: &mut TuiDom, col: usize, width: Option<u16>)
        requires
            old(self).wf(),
            old(self).ready(*old(dom), old(self).window.rows@.len() as int),
            old(self).grid@.buffer.epoch < u64::MAX,
        ensures
            final(self).wf(),
            stays_ready(*old(self), *old(dom), *final(self), *final(dom)),
            width_step(
                *old(self),
                dom_nodes(*old(dom)),
                *final(self),
                dom_nodes(*final(dom)),
                col,
                width,
            ),
    {
        self.grid.set_column_width(col, width);
        self.sync_widths(dom);
        proof {
            lemma_shape_ready(dom_nodes(*old(dom)), dom_nodes(*dom), *old(self), *self);
        }
        self.relay(dom);
    }

    /// The width that the last column sizing gave to the column `col`, or `None`
    /// before the first one or past the last column.
    pub fn column_width(&self, dom: &TuiDom, col: usize) -> (r: Option<u16>)
        ensures
            r == (if col < header_cells(self.frame).len() {
                used_width_of(dom_nodes(*dom), header_cells(self.frame)[col as int])
            } else {
                None
            }),
    {
        match &self.frame {
            Some(f) => if col < f.header_cells.len() {
                used_width(dom, f.header_cells[col])
            } else {
                None
            },
            None => None,
        }
    }
}

} // verus!
