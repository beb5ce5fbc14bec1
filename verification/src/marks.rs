//! The marks of the cursor and the selection: presence attributes on the header
//! cells, rows and data cells of a window.

use rdom_tui::{NodeId, TuiDom};
use vstd::prelude::*;

use crate::dom::{dom_nodes, dom_quiet, remove_attribute, set_attribute, with_attr, Nodes};
use crate::draw::{cell_ids, lemma_attribute_names, Window};
use crate::grid::{Grid, GridView};

verus! {

/// A presence attribute that an element is to have, or not.
pub struct Mark {
    pub id: NodeId,
    pub attr: Seq<char>,
    pub on: bool,
}

/// The tree with one mark made.
pub open spec fn marked(nodes: Nodes, mark: Mark) -> Nodes {
    with_attr(nodes, mark.id, mark.attr, if mark.on {
        Some(""@)
    } else {
        None
    })
}

/// The tree with some marks made, one after the other.
pub open spec fn all_marked(nodes: Nodes, marks: Seq<Mark>) -> Nodes
    decreases marks.len(),
{
    if marks.len() == 0 {
        nodes
    } else {
        marked(all_marked(nodes, marks.drop_last()), marks.last())
    }
}

/// The marks of the header cells: the cursor's column.
pub open spec fn header_marks(g: GridView, ths: Seq<NodeId>) -> Seq<Mark> {
    Seq::new(
        ths.len(),
        |c: int| Mark { id: ths[c], attr: "data-active-col"@, on: c == g.cursor.col },
    )
}

/// The marks of the data cell `td` in row `row` and column `c`.
pub open spec fn cell_marks(g: GridView, td: NodeId, row: usize, c: int) -> Seq<Mark> {
    seq![
        Mark { id: td, attr: "data-active-col"@, on: c == g.cursor.col },
        Mark { id: td, attr: "data-active-cell"@, on: row == g.cursor.row && c == g.cursor.col },
        Mark { id: td, attr: "data-selected"@, on: g.cell_selected(row, c as usize) },
    ]
}

/// The marks of the first data cells of row `row`.
pub open spec fn cells_marks(g: GridView, tds: Seq<NodeId>, row: usize) -> Seq<Mark>
    decreases tds.len(),
{
    if tds.len() == 0 {
        Seq::empty()
    } else {
        cells_marks(g, tds.drop_last(), row) + cell_marks(g, tds.last(), row, tds.len() - 1)
    }
}

/// Is one of the first `n` cells of row `row` selected?
pub open spec fn any_selected(g: GridView, row: usize, n: nat) -> bool {
    exists|c: usize| c < n && #[trigger] g.cell_selected(row, c)
}

/// The marks of the row `tr`, which shows row `row`, and of its cells.
pub open spec fn row_marks(g: GridView, tr: NodeId, tds: Seq<NodeId>, row: usize) -> Seq<Mark> {
    seq![Mark { id: tr, attr: "data-active-row"@, on: row == g.cursor.row }] + cells_marks(
        g,
        tds,
        row,
    ) + seq![Mark { id: tr, attr: "data-selected"@, on: any_selected(g, row, tds.len()) }]
}

/// The marks of the rows of a window.
pub open spec fn rows_marks(g: GridView, trs: Seq<NodeId>, tds: Seq<Seq<NodeId>>) -> Seq<Mark>
    decreases trs.len(),
{
    if trs.len() == 0 {
        Seq::empty()
    } else {
        rows_marks(g, trs.drop_last(), tds) + row_marks(
            g,
            trs.last(),
            tds[trs.len() - 1],
            (g.window_start + trs.len() - 1) as usize,
        )
    }
}

/// The marks of the header and of a window.
pub open spec fn all_marks(g: GridView, ths: Seq<NodeId>, w: Window) -> Seq<Mark> {
    header_marks(g, ths) + rows_marks(g, w.rows@, cell_ids(w.cells@))
}

/// Marks made one list after the other.
pub(crate) proof fn lemma_marks_add(nodes: Nodes, a: Seq<Mark>, b: Seq<Mark>)
    ensures
        all_marked(nodes, a + b) == all_marked(all_marked(nodes, a), b),
    decreases b.len(),
{
    if b.len() == 0 {
        assert(a + b =~= a);
    } else {
        assert((a + b).drop_last() =~= a + b.drop_last());
        lemma_marks_add(nodes, a, b.drop_last());
    }
}

/// One mark made after others.
proof fn lemma_mark_push(nodes: Nodes, marks: Seq<Mark>, mark: Mark)
    ensures
        all_marked(nodes, marks.push(mark)) == marked(all_marked(nodes, marks), mark),
{
    assert(marks.push(mark).drop_last() =~= marks);
}

/// Set or remove a presence attribute.
pub fn set_flag(dom: &mut TuiDom, id: NodeId, attr: &str, on: bool)
    requires
        dom_quiet(*old(dom)),
        attr@ != "style"@,
    ensures
        dom_quiet(*final(dom)),
        dom_nodes(*final(dom)) == marked(dom_nodes(*old(dom)), (Mark { id, attr: attr@, on })),
{
    if on {
        set_attribute(dom, id, attr, "");
    } else {
        remove_attribute(dom, id, attr);
    }
}

/// Mark the data cells of one row; whether one of them is selected.
fn mark_cells(dom: &mut TuiDom, grid: &Grid, tds: &Vec<NodeId>, row: usize) -> (selected: bool)
    requires
        dom_quiet(*old(dom)),
    ensures
        dom_quiet(*final(dom)),
        dom_nodes(*final(dom)) == all_marked(
            dom_nodes(*old(dom)),
            cells_marks(grid@, tds@, row),
        ),
        selected == any_selected(grid@, row, tds@.len()),
{
    let ghost before = dom_nodes(*dom);
    let cursor = grid.cursor;
    let key = grid.key_at(row);
    let mut selected = false;
    let mut c: usize = 0;
    proof {
        lemma_attribute_names();
        assert(tds@.take(0) =~= Seq::empty());
    }
    while c < tds.len()
        invariant
            c <= tds@.len(),
            cursor == grid@.cursor,
            match key {
                Some(k) => grid@.key_at(row) == Some(k@),
                None => grid@.key_at(row) is None,
            },
            "data-active-col"@ != "style"@,
            "data-active-cell"@ != "style"@,
            "data-selected"@ != "style"@,
            dom_quiet(*dom),
            dom_nodes(*dom) == all_marked(before, cells_marks(grid@, tds@.take(c as int), row)),
            selected == any_selected(grid@, row, c as nat),
        decreases tds@.len() - c,
    {
        let td = tds[c];
        let col_active = c == cursor.col;
        let cell_active = row == cursor.row && col_active;
        let is_selected = match &key {
            Some(k) => grid.selection.is_selected(row, c, k),
            None => false,
        };
        assert(is_selected == grid@.cell_selected(row, c));
        let ghost now = dom_nodes(*dom);
        set_flag(dom, td, "data-active-col", col_active);
        set_flag(dom, td, "data-active-cell", cell_active);
        set_flag(dom, td, "data-selected", is_selected);
        proof {
            let m = cell_marks(grid@, td, row, c as int);
            let m1 = Seq::<Mark>::empty().push(m[0]);
            let m2 = m1.push(m[1]);
            assert(m2.push(m[2]) =~= m);
            lemma_mark_push(now, Seq::empty(), m[0]);
            lemma_mark_push(now, m1, m[1]);
            lemma_mark_push(now, m2, m[2]);
            let next = tds@.take(c + 1);
            assert(next.drop_last() =~= tds@.take(c as int));
            lemma_marks_add(before, cells_marks(grid@, tds@.take(c as int), row), m);
            assert(any_selected(grid@, row, (c + 1) as nat) == (selected || is_selected)) by {
                if selected {
                    let d = choose|d: usize| d < c && #[trigger] grid@.cell_selected(row, d);
                    assert(d < c + 1 && grid@.cell_selected(row, d));
                }
            }
        }
        if is_selected {
            selected = true;
        }
        c = c + 1;
    }
    assert(tds@.take(tds@.len() as int) =~= tds@);
    selected
}

/// Mark the cursor and the selection on the header cells `ths` and on the
/// window `w`: what no longer applies is unmarked.
pub fn apply_highlight(dom: &mut TuiDom, grid: &Grid, ths: &Vec<NodeId>, w: &Window)
    requires
        dom_quiet(*old(dom)),
        w.rows@.len() == w.cells@.len(),
        grid@.window_start + w.rows@.len() <= usize::MAX,
    ensures
        dom_quiet(*final(dom)),
        dom_nodes(*final(dom)) == all_marked(dom_nodes(*old(dom)), all_marks(grid@, ths@, *w)),
{
    let ghost before = dom_nodes(*dom);
    let cursor = grid.cursor;
    let start: usize = grid.window_start;
    proof {
        lemma_attribute_names();
        assert(header_marks(grid@, ths@).take(0) =~= Seq::empty());
    }
    let mut c: usize = 0;
    while c < ths.len()
        invariant
            c <= ths@.len(),
            cursor == grid@.cursor,
            "data-active-col"@ != "style"@,
            dom_quiet(*dom),
            dom_nodes(*dom) == all_marked(before, header_marks(grid@, ths@).take(c as int)),
        decreases ths@.len() - c,
    {
        set_flag(dom, ths[c], "data-active-col", c == cursor.col);
        proof {
            let marks = header_marks(grid@, ths@);
            lemma_mark_push(before, marks.take(c as int), marks[c as int]);
            assert(marks.take(c + 1) =~= marks.take(c as int).push(marks[c as int]));
        }
        c = c + 1;
    }
    let ghost heads = header_marks(grid@, ths@);
    let ghost tds = cell_ids(w.cells@);
    proof {
        assert(heads.take(ths@.len() as int) =~= heads);
        assert(w.rows@.take(0) =~= Seq::empty());
        assert(heads + rows_marks(grid@, w.rows@.take(0), tds) =~= heads);
    }
    let mut i: usize = 0;
    while i < w.rows.len()
        invariant
            i <= w.rows@.len(),
            w.rows@.len() == w.cells@.len(),
            tds == cell_ids(w.cells@),
            heads == header_marks(grid@, ths@),
            start == grid@.window_start,
            cursor == grid@.cursor,
            start + w.rows@.len() <= usize::MAX,
            "data-active-row"@ != "style"@,
            "data-selected"@ != "style"@,
            dom_quiet(*dom),
            dom_nodes(*dom) == all_marked(
                before,
                heads + rows_marks(grid@, w.rows@.take(i as int), tds),
            ),
        decreases w.rows@.len() - i,
    {
        let tr = w.rows[i];
        let row: usize = start + i;
        let ghost now = dom_nodes(*dom);
        let ghost done = heads + rows_marks(grid@, w.rows@.take(i as int), tds);
        set_flag(dom, tr, "data-active-row", row == cursor.row);
        let selected = mark_cells(dom, grid, &w.cells[i], row);
        set_flag(dom, tr, "data-selected", selected);
        proof {
            let own = row_marks(grid@, tr, tds[i as int], row);
            let first = Seq::<Mark>::empty().push(
                Mark { id: tr, attr: "data-active-row"@, on: row == cursor.row },
            );
            let inner = cells_marks(grid@, tds[i as int], row);
            let last = Mark {
                id: tr,
                attr: "data-selected"@,
                on: any_selected(grid@, row, tds[i as int].len()),
            };
            lemma_mark_push(now, Seq::empty(), first[0]);
            lemma_marks_add(now, first, inner);
            lemma_mark_push(now, first + inner, last);
            assert((first + inner).push(last) =~= own);
            let next = w.rows@.take(i + 1);
            assert(next.drop_last() =~= w.rows@.take(i as int));
            lemma_marks_add(before, done, own);
            assert(done + own =~= heads + rows_marks(grid@, next, tds));
        }
        i = i + 1;
    }
    assert(w.rows@.take(w.rows@.len() as int) =~= w.rows@);
}

} // verus!
