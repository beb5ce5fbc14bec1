//! The keyboard-navigation model of a grid.

use vstd::prelude::*;

use crate::text::same_text;

verus! {

/// A navigation intent: the move that a key press maps to.
#[derive(Clone, Copy, Debug, PartialEq, Eq, Structural)]
pub enum Nav {
    Up,
    Down,
    Left,
    Right,
    /// To the first row.
    Top,
    /// To the last row.
    Bottom,
    PageUp,
    PageDown,
}

/// The active `(row, col)` cell of a grid and the top visible row. Row and
/// column count over the whole dataset, not the rows on screen.
#[derive(Clone, Copy, Debug, PartialEq, Eq, Structural)]
pub struct GridCursor {
    pub row: usize,
    pub col: usize,
    pub scroll: usize,
}

/// `x` limited to `0..=hi`.
pub open spec fn limited(x: int, hi: int) -> int {
    if x < 0 {
        0
    } else if x > hi {
        hi
    } else {
        x
    }
}

/// The last index of a list of length `n`, 0 for an empty one.
pub open spec fn last_of(n: usize) -> int {
    if n == 0 {
        0
    } else {
        n - 1
    }
}

/// The row at which `nav` aims from `row`.
pub open spec fn aimed_row(nav: Nav, row: int, last: int, page: int) -> int {
    match nav {
        Nav::Up => row - 1,
        Nav::Down => row + 1,
        Nav::Top => 0,
        Nav::Bottom => last,
        Nav::PageUp => row - page,
        Nav::PageDown => row + page,
        _ => row,
    }
}

/// The column at which `nav` aims from `col`.
pub open spec fn aimed_col(nav: Nav, col: int) -> int {
    match nav {
        Nav::Left => col - 1,
        Nav::Right => col + 1,
        _ => col,
    }
}

/// The top row that brings `row` into a band of `viewport` rows that now starts
/// at `top`, moving the band no further than needed and never past the last
/// page of `rows`.
pub open spec fn revealed(row: int, top: int, viewport: int, rows: int) -> int {
    if viewport == 0 {
        top
    } else {
        let want = if row < top {
            row
        } else if row >= top + viewport {
            row + 1 - viewport
        } else {
            top
        };
        limited(want, if rows < viewport {
            0
        } else {
            rows - viewport
        })
    }
}

fn min(a: usize, b: usize) -> (r: usize)
    ensures
        r == (if a < b {
            a
        } else {
            b
        }),
{
    if a < b {
        a
    } else {
        b
    }
}

impl Default for GridCursor {
    fn default() -> (r: Self)
        ensures
            r == (GridCursor { row: 0, col: 0, scroll: 0 }),
    {
        GridCursor { row: 0, col: 0, scroll: 0 }
    }
}

impl GridCursor {
    /// Does the cursor stand inside a grid of `rows` by `cols`?
    pub open spec fn inside(self, rows: usize, cols: usize) -> bool {
        self.row < rows && self.col < cols
    }

    /// A cursor at the origin with no scroll.
    pub fn new() -> (r: Self)
        ensures
            r == (GridCursor { row: 0, col: 0, scroll: 0 }),
    {
        GridCursor { row: 0, col: 0, scroll: 0 }
    }

    /// The active row.
    pub fn row(&self) -> (r: usize)
        ensures
            r == self.row,
    {
        self.row
    }

    /// The active column.
    pub fn col(&self) -> (r: usize)
        ensures
            r == self.col,
    {
        self.col
    }

    /// The top visible row.
    pub fn scroll(&self) -> (r: usize)
        ensures
            r == self.scroll,
    {
        self.scroll
    }

    /// The cursor at `(row, col)`, limited to a grid of `rows` by `cols`.
    pub open spec fn placed(self, row: usize, col: usize, rows: usize, cols: usize) -> GridCursor {
        GridCursor {
            row: limited(row as int, last_of(rows)) as usize,
            col: limited(col as int, last_of(cols)) as usize,
            scroll: self.scroll,
        }
    }

    /// The cursor after the move `nav` in a grid of `rows` by `cols`.
    pub open spec fn navigated(
        self,
        nav: Nav,
        rows: usize,
        cols: usize,
        page: usize,
    ) -> GridCursor {
        GridCursor {
            row: limited(
                aimed_row(nav, self.row as int, last_of(rows), page as int),
                last_of(rows),
            ) as usize,
            col: limited(aimed_col(nav, self.col as int), last_of(cols)) as usize,
            scroll: self.scroll,
        }
    }

    /// Place the cursor at `(row, col)`, limited to a grid of `rows` by `cols`.
    #[must_use]
    pub fn at(self, row: usize, col: usize, rows: usize, cols: usize) -> (r: Self)
        ensures
            r == self.placed(row, col, rows, cols),
            rows > 0 && cols > 0 ==> r.inside(rows, cols),
    {
        GridCursor {
            row: min(row, rows.saturating_sub(1)),
            col: min(col, cols.saturating_sub(1)),
            scroll: self.scroll,
        }
    }

    /// Move the active cell by `nav`, limited to a grid of `rows` by `cols`.
    /// `page` is the step of `PageUp` and `PageDown`.
    #[must_use]
    pub fn navigate(self, nav: Nav, rows: usize, cols: usize, page: usize) -> (r: Self)
        ensures
            r == self.navigated(nav, rows, cols, page),
            rows > 0 && cols > 0 ==> r.inside(rows, cols),
    {
        let last_row: usize = rows.saturating_sub(1);
        let last_col: usize = cols.saturating_sub(1);
        let row: usize = match nav {
            Nav::Up => self.row.saturating_sub(1),
            Nav::Down => self.row.saturating_add(1),
            Nav::Top => 0,
            Nav::Bottom => last_row,
            Nav::PageUp => self.row.saturating_sub(page),
            Nav::PageDown => self.row.saturating_add(page),
            _ => self.row,
        };
        let col: usize = match nav {
            Nav::Left => self.col.saturating_sub(1),
            Nav::Right => self.col.saturating_add(1),
            _ => self.col,
        };
        GridCursor { row: min(row, last_row), col: min(col, last_col), scroll: self.scroll }
    }

    /// Adjust `scroll` so that the active row is one of the `viewport_rows`
    /// visible ones, without scrolling past the last page. A `viewport_rows` of
    /// 0 changes nothing.
    #[must_use]
    pub fn follow(self, viewport_rows: usize, rows: usize) -> (r: Self)
        ensures
            r == (GridCursor {
                scroll: revealed(
                    self.row as int,
                    self.scroll as int,
                    viewport_rows as int,
                    rows as int,
                ) as usize,
                ..self
            }),
    {
        GridCursor {
            row: self.row,
            col: self.col,
            scroll: reveal_scroll(self.row, self.scroll, viewport_rows, rows),
        }
    }
}

/// The top row that brings `row` into a band of `viewport` rows that now starts
/// at `top`.
pub fn reveal_scroll(row: usize, top: usize, viewport: usize, rows: usize) -> (r: usize)
    ensures
        r == revealed(row as int, top as int, viewport as int, rows as int),
{
    if viewport == 0 {
        return top;
    }
    let want: usize = if row < top {
        row
    } else if row - top >= viewport {
        row - viewport + 1
    } else {
        top
    };
    min(want, rows.saturating_sub(viewport))
}

/// The keys that navigate, and what they do.
pub open spec fn key_nav(key: Seq<char>) -> Option<Nav> {
    if key == "ArrowUp"@ || key == "k"@ {
        Some(Nav::Up)
    } else if key == "ArrowDown"@ || key == "j"@ {
        Some(Nav::Down)
    } else if key == "ArrowLeft"@ || key == "h"@ {
        Some(Nav::Left)
    } else if key == "ArrowRight"@ || key == "l"@ {
        Some(Nav::Right)
    } else if key == "Home"@ || key == "g"@ {
        Some(Nav::Top)
    } else if key == "End"@ || key == "G"@ {
        Some(Nav::Bottom)
    } else if key == "PageUp"@ {
        Some(Nav::PageUp)
    } else if key == "PageDown"@ {
        Some(Nav::PageDown)
    } else {
        None
    }
}

/// Map a key and the shift modifier to a move. With shift, and for keys that
/// the grid does not handle, `None`.
pub fn nav_for_key(key: &str, shift: bool) -> (r: Option<Nav>)
    ensures
        r == (if shift {
            None
        } else {
            key_nav(key@)
        }),
{
    if shift {
        None
    } else if same_text(key, "ArrowUp") || same_text(key, "k") {
        Some(Nav::Up)
    } else if same_text(key, "ArrowDown") || same_text(key, "j") {
        Some(Nav::Down)
    } else if same_text(key, "ArrowLeft") || same_text(key, "h") {
        Some(Nav::Left)
    } else if same_text(key, "ArrowRight") || same_text(key, "l") {
        Some(Nav::Right)
    } else if same_text(key, "Home") || same_text(key, "g") {
        Some(Nav::Top)
    } else if same_text(key, "End") || same_text(key, "G") {
        Some(Nav::Bottom)
    } else if same_text(key, "PageUp") {
        Some(Nav::PageUp)
    } else if same_text(key, "PageDown") {
        Some(Nav::PageDown)
    } else {
        None
    }
}

/// Moving and placing the cursor in a grid that has cells leaves it on one of
/// them.
pub proof fn cursor_stays_in_the_grid(
    c: GridCursor,
    nav: Nav,
    row: usize,
    col: usize,
    rows: usize,
    cols: usize,
    page: usize,
)
    requires
        rows > 0,
        cols > 0,
    ensures
        c.navigated(nav, rows, cols, page).inside(rows, cols),
        c.placed(row, col, rows, cols).inside(rows, cols),
{
}

/// Revealing a row puts it into the visible band, and the band stays within the
/// rows where they fill it.
pub proof fn reveal_shows_the_row(row: int, top: int, viewport: int, rows: int)
    requires
        0 <= row < rows,
        0 <= top,
        0 < viewport,
    ensures
        revealed(row, top, viewport, rows) <= row < revealed(row, top, viewport, rows) + viewport,
        viewport <= rows ==> revealed(row, top, viewport, rows) + viewport <= rows,
        rows <= viewport ==> revealed(row, top, viewport, rows) == 0,
{
}

/// Revealing a row that a band within the rows already shows moves nothing, so
/// revealing twice is revealing once.
pub proof fn reveal_is_idle_in_view(row: int, top: int, viewport: int, rows: int)
    requires
        0 <= row < rows,
        0 <= top,
        0 < viewport,
    ensures
        top <= row < top + viewport && top + viewport <= rows ==> revealed(
            row,
            top,
            viewport,
            rows,
        ) == top,
        revealed(row, revealed(row, top, viewport, rows), viewport, rows) == revealed(
            row,
            top,
            viewport,
            rows,
        ),
{
}

} // verus!
