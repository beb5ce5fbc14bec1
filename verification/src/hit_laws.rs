//! Which cell a node or a point of the screen belongs to.

use rdom_tui::NodeId;
use vstd::prelude::*;

use crate::dom::BoxRect;
use crate::hit::{
    cell_hit, first_visible, head, is_drag_cell, is_place, is_visible, last_begun, limited_x,
    limited_y, locate_cell, reach, rect_rows, row_hit,
};

verus! {

/// Does a node stand at most once in some rows of nodes?
pub open spec fn stands_once(cells: Seq<Seq<NodeId>>) -> bool {
    forall|i: int, c: int, j: int, d: int|
        #![trigger cells[i][c], cells[j][d]]
        0 <= i < cells.len() && 0 <= c < cells[i].len() && 0 <= j < cells.len() && 0 <= d
            < cells[j].len() && cells[i][c] == cells[j][d] ==> i == j && c == d
}

/// The node of a cell on show is found in its row of the dataset and its column,
/// and what is found is a cell with that node.
pub proof fn cells_are_found_by_their_nodes(
    cells: Seq<Seq<NodeId>>,
    start: int,
    id: NodeId,
    found: Option<(usize, usize)>,
    i: int,
    c: int,
)
    requires
        is_place(cells, start, id, found),
        stands_once(cells),
        0 <= i < cells.len(),
        0 <= c < cells[i].len(),
    ensures
        cells[i][c] == id <==> found is Some && found.unwrap().0 == start + i && found.unwrap().1
            == c,
        found is Some ==> 0 <= found.unwrap().0 - start < cells.len() && found.unwrap().1
            < cells[found.unwrap().0 - start].len(),
{
    if cells[i][c] == id {
        assert(cells[i].contains(id));
    }
}

/// Are the first cells of the rows laid out one below the other?
pub open spec fn rows_stack(rows: Seq<Seq<Option<BoxRect>>>) -> bool {
    &&& forall|i: int|
        0 <= i < rows.len() ==> (#[trigger] rows[i]).len() > 0 && rows[i][0] is Some
            && rows[i][0].unwrap().height > 0
    &&& forall|i: int, j: int|
        0 <= i < j < rows.len() ==> (#[trigger] rows[i])[0].unwrap().y
            + rows[i][0].unwrap().height <= (#[trigger] rows[j])[0].unwrap().y
}

/// Are the cells of a row that take up room laid out one beside the other?
pub open spec fn cells_queue(row: Seq<Option<BoxRect>>) -> bool {
    forall|i: int, j: int|
        0 <= i < j < row.len() && (#[trigger] row[i]) is Some && row[i].unwrap().width > 0 && (
        #[trigger] row[j]) is Some && row[j].unwrap().width > 0 ==> row[i].unwrap().x
            + row[i].unwrap().width <= row[j].unwrap().x
}

/// Does a cell of a row take up room?
pub open spec fn takes_room(row: Seq<Option<BoxRect>>) -> bool {
    exists|c: int|
        0 <= c < row.len() && (#[trigger] row[c]) is Some && row[c].unwrap().width > 0
}

/// A point is in the row whose first cell is beside it; above all rows it counts
/// as in the first, below them as in the last.
pub proof fn points_are_in_the_row_beside_them(
    rows: Seq<Seq<Option<BoxRect>>>,
    x: int,
    y: int,
    r: int,
    c: int,
    i: int,
)
    requires
        cell_hit(rows, x, y, r, c),
        rows_stack(rows),
        0 <= i < rows.len(),
    ensures
        0 <= r < rows.len(),
        rows[i][0].unwrap().y <= y < rows[i][0].unwrap().y + rows[i][0].unwrap().height ==> r == i,
        y < rows[0][0].unwrap().y ==> r == 0,
        y >= rows.last()[0].unwrap().y + rows.last()[0].unwrap().height ==> r == rows.len() - 1,
{
    let last = rows.len() - 1;
    assert(rows[0].len() > 0 && rows[last].len() > 0 && rows[i].len() > 0 && rows[r].len() > 0);
    assert(rows[r][0] is Some);
    if r < i {
        assert(rows[r][0].unwrap().y + rows[r][0].unwrap().height <= rows[i][0].unwrap().y);
    }
    if r < last {
        assert(rows[r][0].unwrap().y + rows[r][0].unwrap().height <= rows[last][0].unwrap().y);
    }
    if 0 < i {
        assert(rows[0][0].unwrap().y + rows[0][0].unwrap().height <= rows[i][0].unwrap().y);
    }
    if i < last {
        assert(rows[i][0].unwrap().y + rows[i][0].unwrap().height <= rows[last][0].unwrap().y);
    }
    if 0 < last {
        assert(rows[0][0].unwrap().y + rows[0][0].unwrap().height <= rows[last][0].unwrap().y);
    }
}

/// A point is in the cell of its row that it is in, and that cell takes up room;
/// left of all cells it counts as in the first that does, right of them as in the
/// last.
pub proof fn points_are_in_the_cell_they_are_in(
    rows: Seq<Seq<Option<BoxRect>>>,
    x: int,
    y: int,
    r: int,
    c: int,
    d: int,
)
    requires
        cell_hit(rows, x, y, r, c),
        cells_queue(rows[r]),
        0 <= d < rows[r].len(),
        rows[r][d] is Some,
        rows[r][d].unwrap().width > 0,
    ensures
        0 <= c < rows[r].len(),
        rows[r][c] is Some,
        rows[r][c].unwrap().width > 0,
        rows[r][d].unwrap().x <= x < rows[r][d].unwrap().x + rows[r][d].unwrap().width ==> c == d,
        x < rows[r][d].unwrap().x ==> c <= d,
        x >= rows[r][d].unwrap().x + rows[r][d].unwrap().width ==> c >= d,
{
    let row = rows[r];
    let (first, n) = choose|first: int, n: int|
        #![trigger first_visible(row, first), reach(row, limited_x(row, first, x), n)]
        first_visible(row, first) && reach(row, limited_x(row, first, x), n) && last_begun(
            row,
            limited_x(row, first, x),
            n,
            c,
        );
    let at = limited_x(row, first, x);
    assert(first_visible(row, first) && reach(row, at, n) && last_begun(row, at, n, c));
    assert(row[first].unwrap().x <= at);
    if n <= first {
        assert(row[n - 1] is Some);
    }
    assert(first < n);
    assert(is_visible(row[d]));
    assert(is_visible(row[first]));
    assert(first <= d);
    if c < d {
        assert(row[c].unwrap().x + row[c].unwrap().width <= row[d].unwrap().x);
    }
    if d < c {
        assert(row[d].unwrap().x + row[d].unwrap().width <= row[c].unwrap().x);
    }
    if first < d {
        assert(row[first].unwrap().x + row[first].unwrap().width <= row[d].unwrap().x);
    }
    if n - 1 < d && n < row.len() {
        assert(row[n - 1].unwrap().x + row[n - 1].unwrap().width <= row[d].unwrap().x);
    }
}

/// The cell that is located for a point in a cell is that cell.
pub proof fn a_point_in_a_cell_locates_it(
    rows: Vec<Vec<Option<BoxRect>>>,
    x: i32,
    y: i32,
    found: Option<(usize, usize)>,
    i: int,
    d: int,
)
    requires
        call_ensures(locate_cell, (&rows, x, y), found),
        found is Some,
        rows_stack(rect_rows(rows@)),
        0 <= i < rows@.len(),
        cells_queue(rows@[i]@),
        0 <= d < rows@[i]@.len(),
        rows@[i]@[d] is Some,
        rows@[i]@[d].unwrap().width > 0,
        rows@[i]@[0].unwrap().y <= y < rows@[i]@[0].unwrap().y + rows@[i]@[0].unwrap().height,
        rows@[i]@[d].unwrap().x <= x < rows@[i]@[d].unwrap().x + rows@[i]@[d].unwrap().width,
    ensures
        found.unwrap().0 == i,
        found.unwrap().1 == d,
{
    let rects = rect_rows(rows@);
    let (r, c) = found.unwrap();
    assert(rects[i] == rows@[i]@);
    points_are_in_the_row_beside_them(rects, x as int, y as int, r as int, c as int, i);
    points_are_in_the_cell_they_are_in(rects, x as int, y as int, r as int, c as int, d);
}

/// Every point hits a cell of rows that are laid out and have a cell that takes up
/// room each; without a row none does.
pub proof fn points_hit_some_cell(
    rows: Seq<Seq<Option<BoxRect>>>,
    start: int,
    x: int,
    y: int,
    found: Option<(usize, usize)>,
)
    requires
        is_drag_cell(rows, start, x, y, found),
        rows_stack(rows),
        forall|i: int| 0 <= i < rows.len() ==> takes_room(#[trigger] rows[i]),
    ensures
        found is None <==> rows.len() == 0,
{
    if found is None && rows.len() > 0 {
        let last = rows.len() - 1;
        assert(rows[0].len() > 0 && rows[last].len() > 0);
        let r = choose|r: int| #[trigger]
            row_hit(
                rows,
                limited_y(
                    y,
                    head(rows[0]).unwrap(),
                    head(rows.last()).unwrap(),
                ),
                r,
            ) && forall|c: int| !first_visible(rows[r], c);
        let c = choose|c: int|
            0 <= c < rows[r].len() && (#[trigger] rows[r][c]) is Some
                && rows[r][c].unwrap().width > 0;
        lemma_first_visible(rows[r], c);
    }
}

proof fn lemma_first_visible(row: Seq<Option<BoxRect>>, c: int) -> (d: int)
    requires
        0 <= c < row.len(),
        is_visible(row[c]),
    ensures
        first_visible(row, d),
    decreases c,
{
    if forall|i: int| 0 <= i < c ==> !is_visible(#[trigger] row[i]) {
        c
    } else {
        let i = choose|i: int| 0 <= i < c && is_visible(#[trigger] row[i]);
        lemma_first_visible(row, i)
    }
}

} // verus!
