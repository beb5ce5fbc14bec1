//! Finding the cell under a node or under a point of the screen.

use rdom_tui::{NodeId, TuiDom};
use vstd::prelude::*;

use crate::dom::{closest, dom_nodes, is_closest, layout_rect, rect_of, same_node, BoxRect, Nodes};
use crate::draw::cell_ids;
use crate::view::{header_cells, VirtualTableView};

verus! {

/// Is `(r, c)` the first place, row by row, at which `id` stands in `cells`?
pub open spec fn first_place(cells: Seq<Seq<NodeId>>, id: NodeId, r: int, c: int) -> bool {
    &&& 0 <= r < cells.len()
    &&& 0 <= c < cells[r].len()
    &&& cells[r][c] == id
    &&& !cells[r].take(c).contains(id)
    &&& forall|i: int| 0 <= i < r ==> !(#[trigger] cells[i]).contains(id)
}

/// Is `found` the place of `id` in `cells`, rows counting from `start`, or `None`
/// where it has none?
pub open spec fn is_place(
    cells: Seq<Seq<NodeId>>,
    start: int,
    id: NodeId,
    found: Option<(usize, usize)>,
) -> bool {
    match found {
        Some((r, c)) => first_place(cells, id, r - start, c as int),
        None => forall|i: int| 0 <= i < cells.len() ==> !(#[trigger] cells[i]).contains(id),
    }
}

/// The first place of `id` in a list.
fn position(ids: &Vec<NodeId>, id: NodeId) -> (r: Option<usize>)
    ensures
        (match r {
            Some(c) => c < ids@.len() && ids@[c as int] == id && !ids@.take(c as int).contains(id),
            None => !ids@.contains(id),
        }),
{
    let mut c: usize = 0;
    while c < ids.len()
        invariant
            c <= ids@.len(),
            forall|i: int| 0 <= i < c ==> ids@[i] != id,
        decreases ids@.len() - c,
    {
        if same_node(ids[c], id) {
            return Some(c);
        }
        c = c + 1;
    }
    None
}

/// The rectangle of the first cell of a row.
pub open spec fn head(row: Seq<Option<BoxRect>>) -> Option<BoxRect> {
    if row.len() > 0 {
        row[0]
    } else {
        None
    }
}

/// The bottom edge of a rectangle.
pub open spec fn bottom(r: BoxRect) -> int {
    r.y + r.height
}

/// The right edge of a rectangle.
pub open spec fn right(r: BoxRect) -> int {
    r.x + r.width
}

/// Does a cell take up room?
pub open spec fn is_visible(cell: Option<BoxRect>) -> bool {
    cell matches Some(r) && r.width > 0
}

/// `y` limited to the rows from the top of `first` to the bottom of `last`.
pub open spec fn limited_y(y: int, first: BoxRect, last: BoxRect) -> int {
    if y < first.y {
        first.y as int
    } else if y >= bottom(last) {
        if bottom(last) - 1 > first.y {
            bottom(last) - 1
        } else {
            first.y as int
        }
    } else {
        y
    }
}

/// Is `r` the first row whose head ends below `y`, or the last row if none does?
pub open spec fn row_hit(rows: Seq<Seq<Option<BoxRect>>>, y: int, r: int) -> bool {
    &&& 0 <= r < rows.len()
    &&& forall|i: int|
        0 <= i < r ==> match head(#[trigger] rows[i]) {
            Some(rect) => y >= bottom(rect),
            None => true,
        }
    &&& r == rows.len() - 1 || match head(rows[r]) {
        Some(rect) => y < bottom(rect),
        None => false,
    }
}

/// Is `c` the first visible cell of a row?
pub open spec fn first_visible(row: Seq<Option<BoxRect>>, c: int) -> bool {
    &&& 0 <= c < row.len()
    &&& is_visible(row[c])
    &&& forall|i: int| 0 <= i < c ==> !is_visible(#[trigger] row[i])
}

/// The cells of a row up to the first visible one that ends right of `x`.
pub open spec fn reach(row: Seq<Option<BoxRect>>, x: int, n: int) -> bool {
    &&& 0 <= n <= row.len()
    &&& forall|i: int|
        0 <= i < n - 1 ==> (is_visible(#[trigger] row[i]) ==> right(row[i].unwrap()) <= x)
    &&& n == row.len() || (n > 0 && is_visible(row[n - 1]) && x < right(row[n - 1].unwrap()))
}

/// Is `c` the last visible cell among the first `n` that begins at or left of
/// `x`, or 0 if there is none?
pub open spec fn last_begun(row: Seq<Option<BoxRect>>, x: int, n: int, c: int) -> bool {
    if exists|i: int| 0 <= i < n && is_visible(#[trigger] row[i]) && row[i].unwrap().x <= x {
        &&& 0 <= c < n
        &&& is_visible(row[c])
        &&& row[c].unwrap().x <= x
        &&& forall|i: int|
            c < i < n && is_visible(#[trigger] row[i]) ==> row[i].unwrap().x > x
    } else {
        c == 0
    }
}

/// `x` limited to where the cell `first` of a row begins.
pub open spec fn limited_x(row: Seq<Option<BoxRect>>, first: int, x: int) -> int {
    if x > row[first].unwrap().x {
        x
    } else {
        row[first].unwrap().x as int
    }
}

/// Is `c` the cell at `x` in a row: of the cells up to the first that ends right
/// of it, the last that begins at or left of it? A point left of the first
/// visible cell counts as on it.
pub open spec fn column_hit(row: Seq<Option<BoxRect>>, x: int, c: int) -> bool {
    exists|first: int, n: int|
        #![trigger first_visible(row, first), reach(row, limited_x(row, first, x), n)]
        first_visible(row, first) && reach(row, limited_x(row, first, x), n) && last_begun(
            row,
            limited_x(row, first, x),
            n,
            c,
        )
}

/// Is `(r, c)` the cell at the point `(x, y)`, limited to the rows and to the
/// first visible cell of the row?
pub open spec fn cell_hit(
    rows: Seq<Seq<Option<BoxRect>>>,
    x: int,
    y: int,
    r: int,
    c: int,
) -> bool {
    &&& rows.len() > 0
    &&& head(rows[0]) is Some
    &&& head(rows.last()) is Some
    &&& row_hit(rows, limited_y(y, head(rows[0]).unwrap(), head(rows.last()).unwrap()), r)
    &&& column_hit(rows[r], x, c)
}

/// Is there no cell to be hit at `(x, y)`: no row, no rectangle of the first or
/// of the last row, or no visible cell in the row?
pub open spec fn no_hit(rows: Seq<Seq<Option<BoxRect>>>, y: int) -> bool {
    ||| rows.len() == 0
    ||| head(rows[0]) is None
    ||| head(rows.last()) is None
    ||| exists|r: int| #[trigger]
        row_hit(
            rows,
            limited_y(y, head(rows[0]).unwrap(), head(rows.last()).unwrap()),
            r,
        ) && forall|c: int| !first_visible(rows[r], c)
}

/// The rectangles of some rows.
pub open spec fn rect_rows(rows: Seq<Vec<Option<BoxRect>>>) -> Seq<Seq<Option<BoxRect>>> {
    Seq::new(rows.len(), |i: int| rows[i]@)
}

/// The rectangle of the first cell of a row.
fn head_of(row: &Vec<Option<BoxRect>>) -> (r: Option<BoxRect>)
    ensures
        r == head(row@),
{
    if row.len() > 0 {
        row[0]
    } else {
        None
    }
}

/// The column at `x` in a row of cells; `None` if no cell is visible.
fn locate_column(row: &Vec<Option<BoxRect>>, x: i32) -> (r: Option<usize>)
    ensures
        (match r {
            Some(c) => column_hit(row@, x as int, c as int),
            None => forall|c: int| !first_visible(row@, c),
        }),
{
    let mut first: usize = 0;
    let mut x1: i32 = x;
    let mut found = false;
    while first < row.len() && !found
        invariant
            first <= row@.len(),
            !found ==> forall|i: int| 0 <= i < first ==> !is_visible(#[trigger] row@[i]),
            found ==> first_visible(row@, first as int) && x1 == if x
                > row@[first as int].unwrap().x {
                x
            } else {
                row@[first as int].unwrap().x
            },
        decreases row@.len() - first + (if found {
            0int
        } else {
            1int
        }),
    {
        match row[first] {
            Some(rect) => {
                if rect.width > 0 {
                    x1 = if x > rect.x {
                        x
                    } else {
                        rect.x
                    };
                    found = true;
                } else {
                    first = first + 1;
                }
            },
            None => {
                first = first + 1;
            },
        }
    }
    if !found {
        return None;
    }
    let mut col: usize = 0;
    let mut c: usize = 0;
    let mut more = true;
    while c < row.len() && more
        invariant
            c <= row@.len(),
            last_begun(row@, x1 as int, c as int, col as int),
            forall|i: int|
                0 <= i < c - (if more {
                    0int
                } else {
                    1int
                }) ==> (is_visible(#[trigger] row@[i]) ==> right(row@[i].unwrap()) <= x1),
            !more ==> c > 0 && is_visible(row@[c - 1]) && x1 < right(row@[c - 1].unwrap()),
        decreases row@.len() - c,
    {
        let ghost col0 = col;
        match row[c] {
            Some(rect) => {
                if rect.width > 0 {
                    if x1 >= rect.x {
                        col = c;
                    }
                    if (x1 as i64) < rect.x as i64 + rect.width as i64 {
                        more = false;
                    }
                }
            },
            None => {},
        }
        proof {
            let seen = is_visible(row@[c as int]) && row@[c as int].unwrap().x <= x1;
            if seen {
                assert(col == c);
                assert(0 <= c < c + 1 && is_visible(row@[c as int]) && row@[c as int].unwrap().x
                    <= x1);
            } else if exists|i: int|
                0 <= i < c + 1 && is_visible(#[trigger] row@[i]) && row@[i].unwrap().x <= x1 {
                let i = choose|i: int|
                    0 <= i < c + 1 && is_visible(#[trigger] row@[i]) && row@[i].unwrap().x <= x1;
                assert(0 <= i < c && is_visible(row@[i]) && row@[i].unwrap().x <= x1);
            }
        }
        c = c + 1;
    }
    assert(x1 == limited_x(row@, first as int, x as int));
    assert(first_visible(row@, first as int) && reach(
        row@,
        limited_x(row@, first as int, x as int),
        c as int,
    ));
    Some(col)
}

/// The cell at the point `(x, y)` of the screen, given the rectangles of the
/// cells row by row. A point above or below the rows counts as on the nearest
/// one, a point left of a row's cells as on its first visible cell.
pub fn locate_cell(rows: &Vec<Vec<Option<BoxRect>>>, x: i32, y: i32) -> (r: Option<(usize, usize)>)
    ensures
        (match r {
            Some((row, col)) => cell_hit(
                rect_rows(rows@),
                x as int,
                y as int,
                row as int,
                col as int,
            ),
            None => no_hit(rect_rows(rows@), y as int),
        }),
{
    let ghost rects = rect_rows(rows@);
    let n: usize = rows.len();
    if n == 0 {
        return None;
    }
    let first = match head_of(&rows[0]) {
        Some(rect) => rect,
        None => {
            assert(rects[0] == rows@[0]@);
            return None;
        },
    };
    let last = match head_of(&rows[n - 1]) {
        Some(rect) => rect,
        None => {
            assert(rects.last() == rows@[n - 1]@);
            return None;
        },
    };
    assert(rects[0] == rows@[0]@ && rects.last() == rows@[n - 1]@);
    let top: i64 = first.y as i64;
    let end: i64 = last.y as i64 + last.height as i64;
    let at: i64 = if (y as i64) < top {
        top
    } else if y as i64 >= end {
        if end - 1 > top {
            end - 1
        } else {
            top
        }
    } else {
        y as i64
    };
    assert(at == limited_y(y as int, first, last));
    let mut row: usize = 0;
    let mut more = true;
    while row < n - 1 && more
        invariant
            n == rows@.len() == rects.len(),
            rects == rect_rows(rows@),
            row < n,
            forall|i: int|
                0 <= i < row ==> match head(#[trigger] rects[i]) {
                    Some(rect) => at >= bottom(rect),
                    None => true,
                },
            !more ==> match head(rects[row as int]) {
                Some(rect) => at < bottom(rect),
                None => false,
            },
        decreases n - row + (if more {
            1int
        } else {
            0int
        }),
    {
        assert(rects[row as int] == rows@[row as int]@);
        match head_of(&rows[row]) {
            Some(rect) => {
                if at < rect.y as i64 + rect.height as i64 {
                    more = false;
                } else {
                    row = row + 1;
                }
            },
            None => {
                row = row + 1;
            },
        }
    }
    assert(row_hit(rects, at as int, row as int));
    assert(rects[row as int] == rows@[row as int]@);
    match locate_column(&rows[row], x) {
        Some(col) => {
            assert(cell_hit(rects, x as int, y as int, row as int, col as int));
            Some((row, col))
        },
        None => None,
    }
}

/// The rectangles of some cells.
pub open spec fn rects_of(nodes: Nodes, cells: Seq<Seq<NodeId>>) -> Seq<Seq<Option<BoxRect>>> {
    Seq::new(
        cells.len(),
        |i: int| Seq::new(cells[i].len(), |c: int| rect_of(nodes, cells[i][c])),
    )
}

/// Is `found` the cell at `(x, y)`, rows counting from `start`, or `None` where
/// there is none to be hit?
pub open spec fn is_drag_cell(
    rows: Seq<Seq<Option<BoxRect>>>,
    start: int,
    x: int,
    y: int,
    found: Option<(usize, usize)>,
) -> bool {
    match found {
        Some((r, c)) => cell_hit(rows, x, y, r - start, c as int),
        None => no_hit(rows, y),
    }
}

impl VirtualTableView {
    /// The row and column of the data cell that holds the node `target`, or
    /// `None` if it is in no cell on show.
    pub fn data_cell_of(&self, dom: &TuiDom, target: NodeId) -> (r: Option<(usize, usize)>)
        requires
            self.wf(),
        ensures
            exists|td: Option<NodeId>| #[trigger]
                is_closest(dom_nodes(*dom), target, "td"@, td) && match td {
                    Some(td) => is_place(
                        cell_ids(self.window.cells@),
                        self.grid@.window_start as int,
                        td,
                        r,
                    ),
                    None => r is None,
                },
    {
        let found = closest(dom, target, "td");
        let td = match found {
            Some(td) => td,
            None => {
                assert(is_closest(dom_nodes(*dom), target, "td"@, None));
                return None;
            },
        };
        let ghost cells = cell_ids(self.window.cells@);
        let mut r: usize = 0;
        while r < self.window.cells.len()
            invariant
                r <= self.window.cells@.len(),
                self.wf(),
                cells == cell_ids(self.window.cells@),
                is_closest(dom_nodes(*dom), target, "td"@, Some(td)),
                forall|i: int| 0 <= i < r ==> !(#[trigger] cells[i]).contains(td),
            decreases self.window.cells@.len() - r,
        {
            assert(cells[r as int] == self.window.cells@[r as int]@);
            match position(&self.window.cells[r], td) {
                Some(c) => {
                    assert(first_place(cells, td, r as int, c as int));
                    return Some((self.grid.window_start + r, c));
                },
                None => {},
            }
            r = r + 1;
        }
        None
    }

    /// The column of the header cell that holds the node `target`, or `None` if
    /// it is in no column's header.
    pub fn header_col_of(&self, dom: &TuiDom, target: NodeId) -> (r: Option<usize>)
        ensures
            exists|th: Option<NodeId>| #[trigger]
                is_closest(dom_nodes(*dom), target, "th"@, th) && match (th, r) {
                    (Some(th), Some(c)) => c < header_cells(self.frame).len() && header_cells(
                        self.frame,
                    )[c as int] == th && !header_cells(self.frame).take(c as int).contains(th),
                    (Some(th), None) => !header_cells(self.frame).contains(th),
                    (None, r) => r is None,
                },
    {
        let found = closest(dom, target, "th");
        let th = match found {
            Some(th) => th,
            None => {
                assert(is_closest(dom_nodes(*dom), target, "th"@, None));
                return None;
            },
        };
        assert(is_closest(dom_nodes(*dom), target, "th"@, Some(th)));
        match &self.frame {
            Some(f) => position(&f.header_cells, th),
            None => None,
        }
    }

    /// The row and column of the cell at the point `(x, y)` of the screen,
    /// limited to the rows on show.
    pub fn drag_cell_at(&self, dom: &TuiDom, x: i32, y: i32) -> (r: Option<(usize, usize)>)
        requires
            self.wf(),
        ensures
            is_drag_cell(
                rects_of(dom_nodes(*dom), cell_ids(self.window.cells@)),
                self.grid@.window_start as int,
                x as int,
                y as int,
                r,
            ),
    {
        let ghost nodes = dom_nodes(*dom);
        let ghost cells = cell_ids(self.window.cells@);
        let mut rows: Vec<Vec<Option<BoxRect>>> = Vec::new();
        let mut i: usize = 0;
        while i < self.window.cells.len()
            invariant
                i <= self.window.cells@.len(),
                nodes == dom_nodes(*dom),
                cells == cell_ids(self.window.cells@),
                rows@.len() == i,
                forall|k: int|
                    0 <= k < i ==> (#[trigger] rows@[k])@ == rects_of(nodes, cells)[k],
            decreases self.window.cells@.len() - i,
        {
            let mut row: Vec<Option<BoxRect>> = Vec::new();
            let mut c: usize = 0;
            let ids = &self.window.cells[i];
            assert(cells[i as int] == ids@);
            while c < ids.len()
                invariant
                    c <= ids@.len(),
                    nodes == dom_nodes(*dom),
                    row@ == Seq::new(c as nat, |k: int| rect_of(nodes, ids@[k])),
                decreases ids@.len() - c,
            {
                row.push(layout_rect(dom, ids[c]));
                c = c + 1;
                assert(row@ =~= Seq::new(c as nat, |k: int| rect_of(nodes, ids@[k])));
            }
            rows.push(row);
            i = i + 1;
            assert(rows@[i - 1]@ =~= rects_of(nodes, cells)[i - 1]);
        }
        assert(rect_rows(rows@) =~= rects_of(nodes, cells));
        match locate_cell(&rows, x, y) {
            Some((row, col)) => Some((self.grid.window_start + row, col)),
            None => None,
        }
    }
}

} // verus!
