//! What holds of the tree that shows a window.

use rdom_tui::NodeId;
use vstd::prelude::*;

use crate::clear::cleared;
use crate::data::{cell_status, cell_text, CellValue};
use crate::dom::{column_sizes, has_attr, has_tag, is_element, with_columns_sized, Nodes};
use crate::draw::{
    cell_built, cell_ids, has_bottom, has_top, hidden_flags, lemma_attribute_names, no_cells,
    piece_built, row_built, slot_cell, spacer_height, span, window_drawn, window_pieces, Piece,
    Window,
};
use crate::grid::GridView;
use crate::grid_cursor::reveal_shows_the_row;
use crate::header::Frame;
use crate::marks::{
    all_marked, all_marks, any_selected, cell_marks, cells_marks, header_marks, lemma_marks_add,
    marked, row_marks, rows_marks, Mark,
};
use crate::view::{body_top, followed, highlighted, window_shown};

verus! {

/// Is there no mark of the attribute `attr` of `id` among `marks`?
pub open spec fn unmarked(marks: Seq<Mark>, id: NodeId, attr: Seq<char>) -> bool {
    forall|i: int| 0 <= i < marks.len() ==> (#[trigger] marks[i]).id != id || marks[i].attr != attr
}

/// An attribute that no mark is of stays as it is, and every node keeps its kind,
/// its text and its place.
pub(crate) proof fn lemma_unmarked(nodes: Nodes, marks: Seq<Mark>, id: NodeId, attr: Seq<char>)
    requires
        unmarked(marks, id, attr),
    ensures
        has_attr(all_marked(nodes, marks), id, attr) == has_attr(nodes, id, attr),
        has_attr(nodes, id, attr) ==> all_marked(nodes, marks)[id].attrs[attr]
            == nodes[id].attrs[attr],
        is_element(all_marked(nodes, marks), id) == is_element(nodes, id),
    decreases marks.len(),
{
    if marks.len() > 0 {
        lemma_unmarked(nodes, marks.drop_last(), id, attr);
        let last = marks.last();
        assert(last == marks[marks.len() - 1]);
    }
}

/// Marks leave the kind, the text, the place and the width of every node.
pub(crate) proof fn lemma_marks_keep(nodes: Nodes, marks: Seq<Mark>, id: NodeId)
    ensures
        all_marked(nodes, marks).contains_key(id) == nodes.contains_key(id),
        nodes.contains_key(id) ==> all_marked(nodes, marks)[id].kind == nodes[id].kind
            && all_marked(nodes, marks)[id].data == nodes[id].data && all_marked(
            nodes,
            marks,
        )[id].children == nodes[id].children && all_marked(nodes, marks)[id].parent
            == nodes[id].parent && all_marked(nodes, marks)[id].used_width == nodes[id].used_width,
    decreases marks.len(),
{
    if marks.len() > 0 {
        lemma_marks_keep(nodes, marks.drop_last(), id);
    }
}

/// The marks of a row's cells are of those cells.
proof fn lemma_cells_marked(g: GridView, tds: Seq<NodeId>, row: usize)
    ensures
        forall|i: int|
            0 <= i < cells_marks(g, tds, row).len() ==> tds.contains(
                (#[trigger] cells_marks(g, tds, row)[i]).id,
            ),
    decreases tds.len(),
{
    if tds.len() > 0 {
        let rest = tds.drop_last();
        lemma_cells_marked(g, rest, row);
        let first = cells_marks(g, rest, row);
        let marks = cells_marks(g, tds, row);
        assert forall|i: int| 0 <= i < marks.len() implies tds.contains(
            (#[trigger] marks[i]).id,
        ) by {
            if i < first.len() {
                assert(marks[i] == first[i]);
                let j = choose|j: int| 0 <= j < rest.len() && rest[j] == first[i].id;
                assert(tds[j] == first[i].id);
            } else {
                assert(marks[i] == cell_marks(g, tds.last(), row, tds.len() - 1)[i
                    - first.len()]);
                assert(tds[tds.len() - 1] == tds.last());
            }
        }
    }
}

/// The marks of a row are of it and its cells.
proof fn lemma_row_marked(g: GridView, tr: NodeId, tds: Seq<NodeId>, row: usize)
    ensures
        forall|i: int|
            0 <= i < row_marks(g, tr, tds, row).len() ==> {
                let mark = #[trigger] row_marks(g, tr, tds, row)[i];
                tds.contains(mark.id) || mark.id == tr
            },
{
    lemma_cells_marked(g, tds, row);
    let marks = row_marks(g, tr, tds, row);
    let cells = cells_marks(g, tds, row);
    assert forall|i: int| 0 <= i < marks.len() implies tds.contains((#[trigger] marks[i]).id)
        || marks[i].id == tr by {
        if 1 <= i < 1 + cells.len() {
            assert(marks[i] == cells[i - 1]);
        }
    }
}

/// Does the data cell `td` in row `row` and column `c` carry the marks that it
/// should?
pub open spec fn cell_marked_right(
    nodes: Nodes,
    g: GridView,
    td: NodeId,
    row: usize,
    c: usize,
) -> bool {
    &&& has_attr(nodes, td, "data-active-col"@) == (c == g.cursor.col)
    &&& has_attr(nodes, td, "data-active-cell"@) == (row == g.cursor.row && c == g.cursor.col)
    &&& has_attr(nodes, td, "data-selected"@) == g.cell_selected(row, c)
}

/// Does the row `tr` of the cells `tds`, which shows row `row`, carry the marks
/// that it should, and its cells too?
pub open spec fn row_marked_right(
    nodes: Nodes,
    g: GridView,
    tr: NodeId,
    tds: Seq<NodeId>,
    row: usize,
) -> bool {
    &&& has_attr(nodes, tr, "data-active-row"@) == (row == g.cursor.row)
    &&& has_attr(nodes, tr, "data-selected"@) == any_selected(g, row, tds.len())
    &&& forall|c: usize|
        c < tds.len() ==> cell_marked_right(nodes, g, #[trigger] tds[c as int], row, c)
}

proof fn lemma_cells_right(nodes: Nodes, g: GridView, tds: Seq<NodeId>, row: usize)
    requires
        tds.no_duplicates(),
        tds.len() <= usize::MAX,
        forall|c: int| 0 <= c < tds.len() ==> is_element(nodes, #[trigger] tds[c]),
    ensures
        forall|c: usize|
            c < tds.len() ==> cell_marked_right(
                all_marked(nodes, cells_marks(g, tds, row)),
                g,
                #[trigger] tds[c as int],
                row,
                c,
            ),
    decreases tds.len(),
{
    if tds.len() > 0 {
        lemma_attribute_names();
        let rest = tds.drop_last();
        lemma_cells_right(nodes, g, rest, row);
        let first = cells_marks(g, rest, row);
        let marks = cell_marks(g, tds.last(), row, tds.len() - 1);
        let mid = all_marked(nodes, first);
        lemma_marks_add(nodes, first, marks);
        let end = all_marked(mid, marks);
        assert forall|c: usize| c < tds.len() implies cell_marked_right(
            end,
            g,
            #[trigger] tds[c as int],
            row,
            c,
        ) by {
            let td = tds[c as int];
            lemma_marks_keep(nodes, first, td);
            if c < rest.len() {
                assert(td == rest[c as int]);
                assert(td != tds.last());
                lemma_unmarked(mid, marks, td, "data-active-col"@);
                lemma_unmarked(mid, marks, td, "data-active-cell"@);
                lemma_unmarked(mid, marks, td, "data-selected"@);
            } else {
                let a = marked(mid, marks[0]);
                let b = marked(a, marks[1]);
                let m1 = seq![marks[0]];
                let m2 = seq![marks[0], marks[1]];
                assert(marks.drop_last() =~= m2);
                assert(m2.drop_last() =~= m1);
                assert(m1.drop_last() =~= Seq::<Mark>::empty());
                assert(all_marked(mid, Seq::empty()) == mid);
                assert(all_marked(mid, m1) == a);
                assert(all_marked(mid, m2) == b);
                assert(end == marked(b, marks[2]));
            }
        }
    }
}

proof fn lemma_row_right(nodes: Nodes, g: GridView, tr: NodeId, tds: Seq<NodeId>, row: usize)
    requires
        tds.no_duplicates(),
        tds.len() <= usize::MAX,
        !tds.contains(tr),
        is_element(nodes, tr),
        forall|c: int| 0 <= c < tds.len() ==> is_element(nodes, #[trigger] tds[c]),
    ensures
        row_marked_right(all_marked(nodes, row_marks(g, tr, tds, row)), g, tr, tds, row),
{
    lemma_attribute_names();
    let m0 = Mark { id: tr, attr: "data-active-row"@, on: row == g.cursor.row };
    let mz = Mark { id: tr, attr: "data-selected"@, on: any_selected(g, row, tds.len()) };
    let cells = cells_marks(g, tds, row);
    let n0 = marked(nodes, m0);
    let n1 = all_marked(n0, cells);
    let n2 = marked(n1, mz);
    assert(all_marked(nodes, seq![m0]) == n0) by {
        assert(seq![m0].drop_last() =~= Seq::<Mark>::empty());
        assert(all_marked(nodes, Seq::empty()) == nodes);
    }
    lemma_marks_add(nodes, seq![m0], cells);
    lemma_marks_add(nodes, seq![m0] + cells, seq![mz]);
    assert(all_marked(n1, seq![mz]) == n2) by {
        assert(seq![mz].drop_last() =~= Seq::<Mark>::empty());
        assert(all_marked(n1, Seq::empty()) == n1);
    }
    assert(n2 == all_marked(nodes, row_marks(g, tr, tds, row)));
    lemma_cells_marked(g, tds, row);
    assert(unmarked(cells, tr, "data-active-row"@));
    lemma_unmarked(n0, cells, tr, "data-active-row"@);
    assert forall|c: int| 0 <= c < tds.len() implies is_element(n0, #[trigger] tds[c]) by {
        assert(is_element(nodes, tds[c]));
    }
    lemma_cells_right(n0, g, tds, row);
    assert forall|c: usize| c < tds.len() implies cell_marked_right(
        n2,
        g,
        #[trigger] tds[c as int],
        row,
        c,
    ) by {
        assert(tds[c as int] != tr);
        assert(cell_marked_right(n1, g, tds[c as int], row, c));
    }
}

/// Do the header cells and the nodes of a window stand in the tree as what they
/// are, each once?
pub open spec fn stands(
    nodes: Nodes,
    ths: Seq<NodeId>,
    trs: Seq<NodeId>,
    tds: Seq<Seq<NodeId>>,
) -> bool {
    &&& ths.no_duplicates()
    &&& trs.no_duplicates()
    &&& trs.len() == tds.len()
    &&& forall|c: int| 0 <= c < ths.len() ==> has_tag(nodes, #[trigger] ths[c], "th"@)
    &&& forall|i: int| 0 <= i < trs.len() ==> has_tag(nodes, #[trigger] trs[i], "tr"@)
    &&& forall|i: int|
        0 <= i < tds.len() ==> (#[trigger] tds[i]).no_duplicates() && tds[i].len() <= usize::MAX
    &&& forall|i: int, c: int|
        0 <= i < tds.len() && 0 <= c < tds[i].len() ==> has_tag(
            nodes,
            #[trigger] tds[i][c],
            "td"@,
        ) && nodes[tds[i][c]].parent == Some(trs[i])
}

proof fn lemma_tags()
    ensures
        "th"@ != "tr"@,
        "th"@ != "td"@,
        "tr"@ != "td"@,
{
    reveal_strlit("th");
    reveal_strlit("tr");
    reveal_strlit("td");
    assert("th"@[1] == 'h');
    assert("tr"@[1] == 'r');
    assert("td"@[1] == 'd');
}

/// Is `id` one of some rows or one of their cells?
spec fn in_rows(trs: Seq<NodeId>, tds: Seq<Seq<NodeId>>, id: NodeId) -> bool {
    exists|i: int| 0 <= i < trs.len() && (id == #[trigger] trs[i] || tds[i].contains(id))
}

/// What is in all rows but the last is in the rows.
proof fn lemma_in_more_rows(trs: Seq<NodeId>, tds: Seq<Seq<NodeId>>, id: NodeId)
    requires
        trs.len() > 0,
        in_rows(trs.drop_last(), tds, id),
    ensures
        in_rows(trs, tds, id),
{
    let rest = trs.drop_last();
    let i = choose|i: int|
        0 <= i < rest.len() && (id == #[trigger] rest[i] || tds[i].contains(id));
    assert(trs[i] == rest[i]);
}

/// The last row and its cells are in the rows.
proof fn lemma_in_last_row(trs: Seq<NodeId>, tds: Seq<Seq<NodeId>>, id: NodeId)
    requires
        trs.len() > 0,
        id == trs.last() || tds[trs.len() - 1].contains(id),
    ensures
        in_rows(trs, tds, id),
{
    assert(trs[trs.len() - 1] == trs.last());
}

/// The marks of some rows are of those rows and their cells.
proof fn lemma_rows_marked(g: GridView, trs: Seq<NodeId>, tds: Seq<Seq<NodeId>>)
    requires
        trs.len() <= tds.len(),
    ensures
        forall|k: int|
            0 <= k < rows_marks(g, trs, tds).len() ==> in_rows(
                trs,
                tds,
                (#[trigger] rows_marks(g, trs, tds)[k]).id,
            ),
    decreases trs.len(),
{
    if trs.len() > 0 {
        let rest = trs.drop_last();
        lemma_rows_marked(g, rest, tds);
        let n = trs.len() - 1;
        let row = (g.window_start + n) as usize;
        lemma_row_marked(g, trs.last(), tds[n], row);
        let first = rows_marks(g, rest, tds);
        let own = row_marks(g, trs.last(), tds[n], row);
        let marks = rows_marks(g, trs, tds);
        assert(marks =~= first + own);
        assert forall|k: int| 0 <= k < marks.len() implies in_rows(
            trs,
            tds,
            (#[trigger] marks[k]).id,
        ) by {
            if k < first.len() {
                assert(marks[k] == first[k]);
                assert(in_rows(rest, tds, first[k].id));
                lemma_in_more_rows(trs, tds, marks[k].id);
            } else {
                assert(marks[k] == own[k - first.len()]);
                lemma_in_last_row(trs, tds, marks[k].id);
            }
        }
    }
}

/// The row of a cell is the row it is in.
proof fn lemma_own_row(
    nodes: Nodes,
    ths: Seq<NodeId>,
    trs: Seq<NodeId>,
    tds: Seq<Seq<NodeId>>,
    i: int,
    j: int,
    id: NodeId,
)
    requires
        stands(nodes, ths, trs, tds),
        0 <= i < trs.len(),
        0 <= j < trs.len(),
        i != j,
        id == trs[i] || tds[i].contains(id),
    ensures
        id != trs[j],
        !tds[j].contains(id),
{
    lemma_tags();
    if tds[i].contains(id) {
        let c = choose|c: int| 0 <= c < tds[i].len() && tds[i][c] == id;
        assert(has_tag(nodes, tds[i][c], "td"@));
    }
    if tds[j].contains(id) {
        let d = choose|d: int| 0 <= d < tds[j].len() && tds[j][d] == id;
        assert(has_tag(nodes, tds[j][d], "td"@));
    }
}

proof fn lemma_rows_right(
    nodes: Nodes,
    g: GridView,
    ths: Seq<NodeId>,
    trs: Seq<NodeId>,
    tds: Seq<Seq<NodeId>>,
    n: int,
)
    requires
        stands(nodes, ths, trs, tds),
        0 <= n <= trs.len(),
        g.window_start + trs.len() <= usize::MAX,
    ensures
        forall|i: int|
            0 <= i < n ==> row_marked_right(
                all_marked(nodes, rows_marks(g, trs.take(n), tds)),
                g,
                #[trigger] trs[i],
                tds[i],
                (g.window_start + i) as usize,
            ),
    decreases n,
{
    if n > 0 {
        let some = trs.take(n);
        let rest = trs.take(n - 1);
        assert(some.drop_last() =~= rest);
        lemma_rows_right(nodes, g, ths, trs, tds, n - 1);
        let row = (g.window_start + n - 1) as usize;
        let tr = trs[n - 1];
        let first = rows_marks(g, rest, tds);
        let own = row_marks(g, tr, tds[n - 1], row);
        let mid = all_marked(nodes, first);
        let end = all_marked(mid, own);
        lemma_marks_add(nodes, first, own);
        assert(end == all_marked(nodes, rows_marks(g, some, tds)));
        lemma_marks_keep(nodes, first, tr);
        lemma_tags();
        assert(has_tag(nodes, tr, "tr"@));
        let cells = tds[n - 1];
        if cells.contains(tr) {
            let c = choose|c: int| 0 <= c < cells.len() && cells[c] == tr;
            assert(has_tag(nodes, tds[n - 1][c], "td"@));
        }
        assert forall|c: int| 0 <= c < tds[n - 1].len() implies is_element(
            mid,
            #[trigger] tds[n - 1][c],
        ) by {
            assert(has_tag(nodes, tds[n - 1][c], "td"@));
            lemma_marks_keep(nodes, first, tds[n - 1][c]);
        }
        lemma_row_right(mid, g, tr, tds[n - 1], row);
        lemma_row_marked(g, tr, tds[n - 1], row);
        assert forall|i: int| 0 <= i < n implies row_marked_right(
            end,
            g,
            #[trigger] trs[i],
            tds[i],
            (g.window_start + i) as usize,
        ) by {
            if i < n - 1 {
                let at = (g.window_start + i) as usize;
                assert(row_marked_right(mid, g, trs[i], tds[i], at));
                assert forall|id: NodeId, attr: Seq<char>|
                    id == trs[i] || tds[i].contains(id) implies #[trigger] unmarked(
                    own,
                    id,
                    attr,
                ) by {
                    lemma_own_row(nodes, ths, trs, tds, i, n - 1, id);
                }
                lemma_unmarked(mid, own, trs[i], "data-active-row"@);
                lemma_unmarked(mid, own, trs[i], "data-selected"@);
                assert forall|c: usize| c < tds[i].len() implies cell_marked_right(
                    end,
                    g,
                    #[trigger] tds[i][c as int],
                    at,
                    c,
                ) by {
                    let td = tds[i][c as int];
                    assert(tds[i].contains(td));
                    assert(cell_marked_right(mid, g, td, at, c));
                    lemma_unmarked(mid, own, td, "data-active-col"@);
                    lemma_unmarked(mid, own, td, "data-active-cell"@);
                    lemma_unmarked(mid, own, td, "data-selected"@);
                }
            }
        }
    }
}

/// The marks show the cursor and the selection, and nothing else: a row carries
/// `data-active-row` if it is the cursor's, a header or a cell `data-active-col`
/// if it is in the cursor's column, a cell `data-active-cell` if it is the
/// cursor's, a cell `data-selected` if it is selected and a row if one of its
/// cells is.
pub proof fn marks_show_cursor_and_selection(
    nodes: Nodes,
    g: GridView,
    frame: Frame,
    w: Window,
)
    requires
        stands(nodes, frame.header_cells@, w.rows@, cell_ids(w.cells@)),
        g.window_start + w.rows@.len() <= usize::MAX,
        frame.header_cells@.len() <= usize::MAX,
    ensures
        forall|c: usize|
            c < frame.header_cells@.len() ==> has_attr(
                highlighted(nodes, g, Some(frame), w),
                #[trigger] frame.header_cells@[c as int],
                "data-active-col"@,
            ) == (c == g.cursor.col),
        forall|i: int|
            0 <= i < w.rows@.len() ==> row_marked_right(
                highlighted(nodes, g, Some(frame), w),
                g,
                #[trigger] w.rows@[i],
                w.cells@[i]@,
                (g.window_start + i) as usize,
            ),
{
    let ths = frame.header_cells@;
    let trs = w.rows@;
    let tds = cell_ids(w.cells@);
    let heads = header_marks(g, ths);
    let rows = rows_marks(g, trs, tds);
    let mid = all_marked(nodes, heads);
    let end = all_marked(mid, rows);
    lemma_marks_add(nodes, heads, rows);
    assert(end == highlighted(nodes, g, Some(frame), w));
    assert(stands(mid, ths, trs, tds)) by {
        assert forall|c: int| 0 <= c < ths.len() implies has_tag(
            mid,
            #[trigger] ths[c],
            "th"@,
        ) by {
            lemma_marks_keep(nodes, heads, ths[c]);
        }
        assert forall|i: int| 0 <= i < trs.len() implies has_tag(
            mid,
            #[trigger] trs[i],
            "tr"@,
        ) by {
            lemma_marks_keep(nodes, heads, trs[i]);
        }
        assert forall|i: int, c: int|
            0 <= i < tds.len() && 0 <= c < tds[i].len() implies has_tag(
            mid,
            #[trigger] tds[i][c],
            "td"@,
        ) && mid[tds[i][c]].parent == Some(trs[i]) by {
            lemma_marks_keep(nodes, heads, tds[i][c]);
        }
    }
    assert(trs.take(trs.len() as int) =~= trs);
    lemma_rows_right(mid, g, ths, trs, tds, trs.len() as int);
    assert forall|i: int| 0 <= i < trs.len() implies row_marked_right(
        end,
        g,
        #[trigger] w.rows@[i],
        w.cells@[i]@,
        (g.window_start + i) as usize,
    ) by {
        assert(tds[i] == w.cells@[i]@);
    }
    assert forall|c: usize| c < ths.len() implies has_attr(
        end,
        #[trigger] ths[c as int],
        "data-active-col"@,
    ) == (c == g.cursor.col) by {
        lemma_header_right(nodes, g, ths, c as int);
        lemma_rows_marked(g, trs, tds);
        lemma_tags();
        let th = ths[c as int];
        assert forall|k: int| 0 <= k < rows.len() implies (#[trigger] rows[k]).id != th by {
            assert(in_rows(trs, tds, rows[k].id));
            let i = choose|i: int|
                0 <= i < trs.len() && (rows[k].id == #[trigger] trs[i] || tds[i].contains(
                    rows[k].id,
                ));
            assert(has_tag(nodes, trs[i], "tr"@));
            if tds[i].contains(rows[k].id) {
                let d = choose|d: int| 0 <= d < tds[i].len() && tds[i][d] == rows[k].id;
                assert(has_tag(nodes, tds[i][d], "td"@));
            }
        }
        lemma_unmarked(mid, rows, th, "data-active-col"@);
    }
}

proof fn lemma_header_right(nodes: Nodes, g: GridView, ths: Seq<NodeId>, c: int)
    requires
        ths.no_duplicates(),
        0 <= c < ths.len(),
        forall|i: int| 0 <= i < ths.len() ==> has_tag(nodes, #[trigger] ths[i], "th"@),
    ensures
        has_attr(all_marked(nodes, header_marks(g, ths)), ths[c], "data-active-col"@) == (c
            == g.cursor.col),
    decreases ths.len(),
{
    let rest = ths.drop_last();
    let marks = header_marks(g, ths);
    assert(marks.drop_last() =~= header_marks(g, rest));
    lemma_marks_keep(nodes, marks.drop_last(), ths[c]);
    assert(has_tag(nodes, ths[c], "th"@));
    if c < rest.len() {
        lemma_header_right(nodes, g, rest, c);
        assert(rest[c] == ths[c]);
        assert(ths.last() != ths[c]);
    }
}

/// Does the data cell `td` show `cell`? A loaded one has its value's text as its
/// only child and its status as an attribute; a placeholder is empty and marked
/// as loading. A cell of a hidden column is marked as such.
pub open spec fn cell_shown(
    nodes: Nodes,
    td: NodeId,
    cell: Option<CellValue>,
    hidden: bool,
) -> bool {
    &&& has_attr(nodes, td, "data-vt-hidden"@) == hidden
    &&& has_attr(nodes, td, "data-vt-loading"@) == (cell is None)
    &&& match cell {
        Some(value) => {
            let text = nodes[td].children[0];
            &&& nodes[td].children.len() == 1
            &&& nodes.contains_key(text)
            &&& nodes[text].kind is Text
            &&& nodes[text].data == cell_text(value)
            &&& match cell_status(value) {
                Some(level) => has_attr(nodes, td, "data-vt-status"@)
                    && nodes[td].attrs["data-vt-status"@] == level.attr(),
                None => !has_attr(nodes, td, "data-vt-status"@),
            }
        },
        None => nodes[td].children.len() == 0 && !has_attr(nodes, td, "data-vt-status"@),
    }
}

/// Is `attr` the name of a mark of the cursor or the selection?
spec fn is_mark_name(attr: Seq<char>) -> bool {
    attr == "data-active-row"@ || attr == "data-active-col"@ || attr == "data-active-cell"@ || attr
        == "data-selected"@
}

proof fn lemma_cells_mark_names(g: GridView, tds: Seq<NodeId>, row: usize)
    ensures
        forall|k: int|
            0 <= k < cells_marks(g, tds, row).len() ==> is_mark_name(
                (#[trigger] cells_marks(g, tds, row)[k]).attr,
            ),
    decreases tds.len(),
{
    if tds.len() > 0 {
        let rest = cells_marks(g, tds.drop_last(), row);
        let own = cell_marks(g, tds.last(), row, tds.len() - 1);
        lemma_cells_mark_names(g, tds.drop_last(), row);
        assert forall|k: int| 0 <= k < (rest + own).len() implies is_mark_name(
            (#[trigger] (rest + own)[k]).attr,
        ) by {
            if k >= rest.len() {
                assert((rest + own)[k] == own[k - rest.len()]);
            }
        }
    }
}

proof fn lemma_rows_mark_names(g: GridView, trs: Seq<NodeId>, tds: Seq<Seq<NodeId>>)
    ensures
        forall|k: int|
            0 <= k < rows_marks(g, trs, tds).len() ==> is_mark_name(
                (#[trigger] rows_marks(g, trs, tds)[k]).attr,
            ),
    decreases trs.len(),
{
    if trs.len() > 0 {
        let rest = rows_marks(g, trs.drop_last(), tds);
        let row = (g.window_start + trs.len() - 1) as usize;
        let own = row_marks(g, trs.last(), tds[trs.len() - 1], row);
        let cells = cells_marks(g, tds[trs.len() - 1], row);
        lemma_rows_mark_names(g, trs.drop_last(), tds);
        lemma_cells_mark_names(g, tds[trs.len() - 1], row);
        assert forall|k: int| 0 <= k < (rest + own).len() implies is_mark_name(
            (#[trigger] (rest + own)[k]).attr,
        ) by {
            let j = k - rest.len();
            if j >= 0 {
                assert((rest + own)[k] == own[j]);
                if 1 <= j < 1 + cells.len() {
                    assert(own[j] == cells[j - 1]);
                }
            }
        }
    }
}

/// Every mark of a window and its header has one of the four names.
pub(crate) proof fn lemma_all_mark_names(g: GridView, ths: Seq<NodeId>, w: Window)
    ensures
        forall|k: int|
            0 <= k < all_marks(g, ths, w).len() ==> {
                let attr = (#[trigger] all_marks(g, ths, w)[k]).attr;
                attr == "data-active-row"@ || attr == "data-active-col"@ || attr
                    == "data-active-cell"@ || attr == "data-selected"@
            },
{
    lemma_rows_mark_names(g, w.rows@, cell_ids(w.cells@));
    let heads = header_marks(g, ths);
    let rows = rows_marks(g, w.rows@, cell_ids(w.cells@));
    let marks = all_marks(g, ths, w);
    assert forall|k: int| 0 <= k < marks.len() implies is_mark_name((#[trigger] marks[k]).attr) by {
        if k < heads.len() {
            assert(marks[k] == heads[k]);
        } else {
            assert(marks[k] == rows[k - heads.len()]);
        }
    }
}

/// Marks leave the style of every node.
pub(crate) proof fn lemma_marks_keep_style(nodes: Nodes, marks: Seq<Mark>, id: NodeId)
    requires
        nodes.contains_key(id),
    ensures
        all_marked(nodes, marks).contains_key(id),
        all_marked(nodes, marks)[id].style == nodes[id].style,
    decreases marks.len(),
{
    if marks.len() > 0 {
        lemma_marks_keep_style(nodes, marks.drop_last(), id);
    }
}

proof fn lemma_own_names()
    ensures
        !is_mark_name("data-vt-status"@),
        !is_mark_name("data-vt-loading"@),
        !is_mark_name("data-vt-hidden"@),
        "data-vt-status"@ != "data-vt-loading"@,
        "data-vt-status"@ != "data-vt-hidden"@,
        "data-vt-loading"@ != "data-vt-hidden"@,
{
    reveal_strlit("data-vt-status");
    reveal_strlit("data-vt-loading");
    reveal_strlit("data-vt-hidden");
    reveal_strlit("data-active-row");
    reveal_strlit("data-active-col");
    reveal_strlit("data-active-cell");
    reveal_strlit("data-selected");
    assert("data-vt-status"@[5] == 'v');
    assert("data-vt-loading"@[5] == 'v');
    assert("data-vt-hidden"@[5] == 'v');
    assert("data-vt-status"@[8] == 's');
    assert("data-vt-hidden"@[8] == 'h');
    assert("data-vt-loading"@[8] == 'l');
    assert("data-active-row"@[5] == 'a');
    assert("data-active-col"@[5] == 'a');
    assert("data-active-cell"@[5] == 'a');
    assert("data-selected"@[5] == 's');
}

/// A row of a drawn window.
proof fn lemma_drawn_row(
    before: Nodes,
    drawn: Nodes,
    tbody: NodeId,
    w: Window,
    g: GridView,
    start: int,
    count: int,
    i: int,
)
    requires
        window_drawn(before, drawn, tbody, w, g, start, count),
        0 <= i < w.rows@.len(),
    ensures
        w.cells@[i]@.len() == g.table.columns.len(),
        row_built(
            drawn,
            w.rows@[i],
            Some(tbody),
            w.cells@[i]@,
            g.buffer.row_at(start + i),
            hidden_flags(g.table),
        ),
{
    let top: nat = if has_top(g, start) {
        1
    } else {
        0
    };
    let bottom: nat = if has_bottom(g, start, count) {
        1
    } else {
        0
    };
    let ids = w.spacers@.take(top as int) + w.rows@ + w.spacers@.skip(top as int);
    let tds = no_cells(top) + cell_ids(w.cells@) + no_cells(bottom);
    let pieces = window_pieces(g, start, count);
    assert(ids[top + i] == w.rows@[i]);
    assert(tds[top + i] == w.cells@[i]@);
    assert(pieces[top + i] == (Piece::Data { slot: g.buffer.row_at(start + i) }));
    assert(piece_built(
        drawn,
        ids[top + i],
        Some(tbody),
        tds[top + i],
        pieces[top + i],
        hidden_flags(g.table),
    ));
}

/// The rows of a drawn window differ.
proof fn lemma_drawn_rows(
    before: Nodes,
    drawn: Nodes,
    tbody: NodeId,
    w: Window,
    g: GridView,
    start: int,
    count: int,
)
    requires
        window_drawn(before, drawn, tbody, w, g, start, count),
    ensures
        w.rows@.no_duplicates(),
{
    let top: nat = if has_top(g, start) {
        1
    } else {
        0
    };
    let ids = w.spacers@.take(top as int) + w.rows@ + w.spacers@.skip(top as int);
    assert forall|i: int, j: int|
        0 <= i < w.rows@.len() && 0 <= j < w.rows@.len() && i != j implies w.rows@[i]
        != w.rows@[j] by {
        assert(ids[top + i] == w.rows@[i]);
        assert(ids[top + j] == w.rows@[j]);
    }
}

/// A drawn cell shows its value, marked or not.
proof fn lemma_cell_shown(
    drawn: Nodes,
    sizes: Map<NodeId, u16>,
    marks: Seq<Mark>,
    td: NodeId,
    tr: NodeId,
    cell: Option<CellValue>,
    hidden: bool,
)
    requires
        cell_built(drawn, td, Some(tr), cell, hidden),
        forall|k: int| 0 <= k < marks.len() ==> is_mark_name((#[trigger] marks[k]).attr),
    ensures
        cell_shown(all_marked(with_columns_sized(drawn, sizes), marks), td, cell, hidden),
        has_tag(all_marked(with_columns_sized(drawn, sizes), marks), td, "td"@),
        all_marked(with_columns_sized(drawn, sizes), marks)[td].parent == Some(tr),
{
    lemma_own_names();
    let sized = with_columns_sized(drawn, sizes);
    lemma_unmarked(sized, marks, td, "data-vt-status"@);
    lemma_unmarked(sized, marks, td, "data-vt-loading"@);
    lemma_unmarked(sized, marks, td, "data-vt-hidden"@);
    lemma_marks_keep(sized, marks, td);
    if cell is Some {
        lemma_marks_keep(sized, marks, drawn[td].children[0]);
    }
}

/// The marks made when a window is shown, none while the cursor is not shown.
spec fn marks_made(g: GridView, frame: Frame, w: Window) -> Seq<Mark> {
    if g.nav_active {
        all_marks(g, frame.header_cells@, w)
    } else {
        Seq::empty()
    }
}

/// A window on show has one row element, a child of the body, for each of its
/// rows, and in it one data cell for each column, which shows the row's value in
/// that column or, while the row is not at hand, that it is loading.
pub proof fn shown_cells_read_their_values(
    before: Nodes,
    after: Nodes,
    frame: Frame,
    old: Window,
    w: Window,
    g: GridView,
    start: int,
    count: int,
    i: int,
    c: int,
)
    requires
        window_shown(before, after, Some(frame), old, w, g, start, count),
        0 <= i < w.rows@.len(),
        0 <= c < g.table.columns.len(),
    ensures
        w.rows@.len() == span(g, start, count),
        w.rows@.len() == w.cells@.len(),
        has_tag(after, w.rows@[i], "tr"@),
        after[w.rows@[i]].parent == Some(frame.tbody),
        after[w.rows@[i]].children == w.cells@[i]@,
        w.cells@[i]@.len() == g.table.columns.len(),
        has_tag(after, w.cells@[i]@[c], "td"@),
        after[w.cells@[i]@[c]].parent == Some(w.rows@[i]),
        cell_shown(
            after,
            w.cells@[i]@[c],
            slot_cell(g.buffer.row_at(start + i), c),
            g.table.hidden.contains(c as usize),
        ),
{
    let drawn = choose|drawn: Nodes|
        {
            let sized = with_columns_sized(drawn, column_sizes(drawn, frame.table));
            &&& #[trigger] window_drawn(
                cleared(before, old),
                drawn,
                frame.tbody,
                w,
                g,
                start,
                count,
            )
            &&& after == if g.nav_active {
                highlighted(sized, g, Some(frame), w)
            } else {
                sized
            }
        };
    let sizes = column_sizes(drawn, frame.table);
    let sized = with_columns_sized(drawn, sizes);
    let marks = marks_made(g, frame, w);
    assert(after == all_marked(sized, marks));
    lemma_rows_mark_names(g, w.rows@, cell_ids(w.cells@));
    assert forall|k: int| 0 <= k < marks.len() implies is_mark_name((#[trigger] marks[k]).attr) by {
        let heads = header_marks(g, frame.header_cells@);
        if k < heads.len() {
            assert(marks[k] == heads[k]);
        } else {
            assert(marks[k] == rows_marks(g, w.rows@, cell_ids(w.cells@))[k - heads.len()]);
        }
    }
    lemma_drawn_row(cleared(before, old), drawn, frame.tbody, w, g, start, count, i);
    lemma_marks_keep(sized, marks, w.rows@[i]);
    let td = w.cells@[i]@[c];
    assert(cell_built(
        drawn,
        td,
        Some(w.rows@[i]),
        slot_cell(g.buffer.row_at(start + i), c),
        hidden_flags(g.table)[c],
    ));
    lemma_cell_shown(
        drawn,
        sizes,
        marks,
        td,
        w.rows@[i],
        slot_cell(g.buffer.row_at(start + i), c),
        hidden_flags(g.table)[c],
    );
}

/// Where the cursor is shown, a window that is shown is marked with the cursor
/// and the selection, and so is the header.
pub proof fn shown_windows_are_marked(
    before: Nodes,
    after: Nodes,
    frame: Frame,
    old: Window,
    w: Window,
    g: GridView,
    start: int,
    count: int,
)
    requires
        window_shown(before, after, Some(frame), old, w, g, start, count),
        g.nav_active,
        g.window_start + w.rows@.len() <= usize::MAX,
        g.table.columns.len() <= usize::MAX,
        frame.header_cells@.len() <= usize::MAX,
        frame.header_cells@.no_duplicates(),
        forall|c: int|
            0 <= c < frame.header_cells@.len() ==> has_tag(
                cleared(before, old),
                #[trigger] frame.header_cells@[c],
                "th"@,
            ),
    ensures
        forall|c: usize|
            c < frame.header_cells@.len() ==> has_attr(
                after,
                #[trigger] frame.header_cells@[c as int],
                "data-active-col"@,
            ) == (c == g.cursor.col),
        forall|i: int|
            0 <= i < w.rows@.len() ==> row_marked_right(
                after,
                g,
                #[trigger] w.rows@[i],
                w.cells@[i]@,
                (g.window_start + i) as usize,
            ),
{
    let base = cleared(before, old);
    let drawn = choose|drawn: Nodes|
        {
            let sized = with_columns_sized(drawn, column_sizes(drawn, frame.table));
            &&& #[trigger] window_drawn(base, drawn, frame.tbody, w, g, start, count)
            &&& after == if g.nav_active {
                highlighted(sized, g, Some(frame), w)
            } else {
                sized
            }
        };
    let sizes = column_sizes(drawn, frame.table);
    let sized = with_columns_sized(drawn, sizes);
    let ths = frame.header_cells@;
    let tds = cell_ids(w.cells@);
    lemma_drawn_rows(base, drawn, frame.tbody, w, g, start, count);
    assert forall|c: int| 0 <= c < ths.len() implies has_tag(sized, #[trigger] ths[c], "th"@) by {
        assert(has_tag(base, ths[c], "th"@));
        assert(drawn.contains_key(ths[c]));
    }
    assert forall|i: int| 0 <= i < w.rows@.len() implies has_tag(
        sized,
        #[trigger] w.rows@[i],
        "tr"@,
    ) by {
        lemma_drawn_row(base, drawn, frame.tbody, w, g, start, count, i);
    }
    assert forall|i: int| 0 <= i < tds.len() implies (#[trigger] tds[i]).no_duplicates()
        && tds[i].len() <= usize::MAX by {
        lemma_drawn_row(base, drawn, frame.tbody, w, g, start, count, i);
    }
    assert forall|i: int, c: int| 0 <= i < tds.len() && 0 <= c < tds[i].len() implies has_tag(
        sized,
        #[trigger] tds[i][c],
        "td"@,
    ) && sized[tds[i][c]].parent == Some(w.rows@[i]) by {
        lemma_drawn_row(base, drawn, frame.tbody, w, g, start, count, i);
        assert(cell_built(
            drawn,
            tds[i][c],
            Some(w.rows@[i]),
            slot_cell(g.buffer.row_at(start + i), c),
            hidden_flags(g.table)[c],
        ));
    }
    assert(stands(sized, ths, w.rows@, tds));
    marks_show_cursor_and_selection(sized, g, frame, w);
}

/// The height of some pieces, each row being one cell high.
pub open spec fn pieces_height(pieces: Seq<Piece>) -> int
    decreases pieces.len(),
{
    if pieces.len() == 0 {
        0
    } else {
        pieces_height(pieces.drop_last()) + match pieces.last() {
            Piece::Spacer { height } => height as int,
            Piece::Data { slot } => 1,
        }
    }
}

proof fn lemma_heights_add(a: Seq<Piece>, b: Seq<Piece>)
    ensures
        pieces_height(a + b) == pieces_height(a) + pieces_height(b),
    decreases b.len(),
{
    if b.len() == 0 {
        assert(a + b =~= a);
    } else {
        assert((a + b).drop_last() =~= a + b.drop_last());
        lemma_heights_add(a, b.drop_last());
    }
}

proof fn lemma_rows_height(pieces: Seq<Piece>)
    requires
        forall|i: int| 0 <= i < pieces.len() ==> (#[trigger] pieces[i]) is Data,
    ensures
        pieces_height(pieces) == pieces.len(),
    decreases pieces.len(),
{
    if pieces.len() > 0 {
        lemma_rows_height(pieces.drop_last());
    }
}

/// Where the body scrolls, the window and its spacers are together as high as all
/// the rows there are, as long as no spacer is at its limit of 65535 rows; at
/// most `count` of them are drawn.
pub proof fn spacers_stand_for_the_other_rows(g: GridView, start: int, count: int)
    requires
        g.scroll_mode,
        0 <= start <= g.buffer.total,
        0 <= count,
        start <= 0xffff,
        g.buffer.total - g.window_end(start, count) <= 0xffff,
    ensures
        pieces_height(window_pieces(g, start, count)) == g.buffer.total,
        span(g, start, count) <= count,
        window_pieces(g, start, count).len() <= span(g, start, count) + 2,
{
    let rows = Seq::new(
        span(g, start, count),
        |i: int| Piece::Data { slot: g.buffer.row_at(start + i) },
    );
    lemma_rows_height(rows);
    let top = if has_top(g, start) {
        seq![Piece::Spacer { height: spacer_height(start) }]
    } else {
        Seq::empty()
    };
    let bottom = if has_bottom(g, start, count) {
        seq![
            Piece::Spacer {
                height: spacer_height(g.buffer.total - g.window_end(start, count)),
            },
        ]
    } else {
        Seq::empty()
    };
    assert(window_pieces(g, start, count) == top + rows + bottom);
    lemma_heights_add(top + rows, bottom);
    lemma_heights_add(top, rows);
    reveal_with_fuel(pieces_height, 2);
}

/// After a cursor move the cursor's row is in view: where the body scrolls by
/// itself, at the position it is scrolled to or is asked to be scrolled to; else
/// in the window that is shown.
pub proof fn the_cursor_is_brought_into_view(
    before: Nodes,
    after: Nodes,
    frame: Frame,
    w1: Window,
    w2: Window,
    g1: GridView,
    g2: GridView,
    scroll_to: Option<usize>,
)
    requires
        followed(before, after, Some(frame), w1, w2, g1, g2, scroll_to),
        g1.viewport_rows > 0,
        0 <= g1.cursor.row < g1.total_rows() <= usize::MAX,
    ensures
        g2.cursor == g1.cursor,
        ({
            let top = if !g1.scroll_mode {
                g2.window_start as int
            } else if scroll_to is Some {
                scroll_to.unwrap() as int
            } else {
                body_top(before, frame.tbody)
            };
            top <= g1.cursor.row < top + g1.viewport_rows
        }),
{
    let row = g1.cursor.row as int;
    let rows = g1.total_rows();
    let viewport = g1.viewport_rows as int;
    reveal_shows_the_row(row, body_top(before, frame.tbody), viewport, rows);
    reveal_shows_the_row(row, g1.window_start as int, viewport, rows);
}

} // verus!
