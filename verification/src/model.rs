//! The table model: columns, row data, and the arithmetic of sorting,
//! reordering and windowing.

use std::cmp::Ordering;
use std::collections::HashSet;

use vstd::prelude::*;

use crate::data::{cell_order, reads_as, CellValue, Row, RowKey, RowView};
use crate::order::ordering;
use crate::sorting::{
    answers_as, lemma_sorted_again, orders, rearranged, rearranging_keeps_the_items, sort_stable,
    sorted_stably,
};
use crate::text::{decimal, decimal_names_its_number, decimal_text};

verus! {

broadcast use vstd::std_specs::hash::group_hash_axioms;

/// A table column: a header label and an optional fixed width. Without one the
/// column is sized to its widest cell.
#[derive(Debug)]
pub struct Column {
    pub header: String,
    pub width: Option<u16>,
}

impl Column {
    pub fn new<S: Into<String>>(header: S) -> (r: Self)
        ensures
            call_ensures(S::into, (header,), r.header),
            r.width == None::<u16>,
    {
        Column { header: header.into(), width: None }
    }

    pub fn with_width(self, width: u16) -> (r: Self)
        ensures
            r == (Column { header: self.header, width: Some(width) }),
    {
        Column { header: self.header, width: Some(width) }
    }
}

impl Clone for Column {
    fn clone(&self) -> (r: Self)
        ensures
            r == *self,
    {
        Column { header: self.header.clone(), width: self.width }
    }
}

/// Sort direction.
#[derive(Clone, Copy, Debug, PartialEq, Eq, Structural)]
pub enum SortDir {
    Ascending,
    Descending,
}

impl SortDir {
    /// The opposite direction.
    pub open spec fn opposite(self) -> SortDir {
        match self {
            SortDir::Ascending => SortDir::Descending,
            SortDir::Descending => SortDir::Ascending,
        }
    }

    /// The opposite direction, for toggling a header.
    pub fn flipped(self) -> (r: Self)
        ensures
            r == self.opposite(),
    {
        match self {
            SortDir::Ascending => SortDir::Descending,
            SortDir::Descending => SortDir::Ascending,
        }
    }
}

/// The model of a table: columns and row data.
#[derive(Debug)]
pub struct VirtualTable {
    columns: Vec<Column>,
    rows: Vec<Row>,
    /// `orig[i]` is the place at which `rows[i]` was inserted.
    orig: Vec<u32>,
    sort: Option<(usize, SortDir)>,
    hidden: HashSet<usize>,
}

/// A table as a mathematical value.
#[verifier::ext_equal]
pub struct TableView {
    pub columns: Seq<Column>,
    pub rows: Seq<RowView>,
    pub orig: Seq<u32>,
    pub sort: Option<(usize, SortDir)>,
    pub hidden: Set<usize>,
}

/// The mathematical values of a list of rows.
pub open spec fn row_views(rows: Seq<Row>) -> Seq<RowView> {
    Seq::new(rows.len(), |i: int| rows[i]@)
}

/// The numbers below `n` in order.
pub open spec fn places(n: nat) -> Seq<u32> {
    Seq::new(n, |i: int| i as u32)
}

/// `s` with the item at `from` taken out and put back so as to stand at `to`.
pub open spec fn moved<T>(s: Seq<T>, from: int, to: int) -> Seq<T> {
    s.remove(from).insert(to, s[from])
}

/// The cells of a row that is at least `n` cells long, `Empty` ones being added at
/// its end where it is shorter.
pub open spec fn padded(cells: Seq<CellValue>, n: int) -> Seq<CellValue> {
    if cells.len() < n {
        cells + Seq::new((n - cells.len()) as nat, |i: int| CellValue::Empty)
    } else {
        cells
    }
}

/// A row after its column `from` moved to `to`. A cell that a short row does not
/// have is `Empty`, and moves like any other.
pub open spec fn moved_in_row(row: RowView, from: int, to: int) -> RowView {
    let (first, last) = if from < to {
        (from, to)
    } else {
        (to, from)
    };
    if row.cells.len() <= first {
        row
    } else {
        RowView { key: row.key, cells: moved(padded(row.cells, last + 1), from, to) }
    }
}

/// Where index `i` lands after the item at `from` moved to `to`.
pub open spec fn remapped(from: int, to: int, i: int) -> int {
    if i == from {
        to
    } else if from < i <= to {
        i - 1
    } else if to <= i < from {
        i + 1
    } else {
        i
    }
}

/// The hidden columns below `n`, each with its header.
pub open spec fn hidden_below(t: TableView, n: nat) -> Seq<(usize, Seq<char>)>
    decreases n,
{
    if n == 0 {
        Seq::empty()
    } else {
        let rest = hidden_below(t, (n - 1) as nat);
        let c = (n - 1) as usize;
        if t.hidden.contains(c) {
            rest.push((c, t.columns[c as int].header@))
        } else {
            rest
        }
    }
}

/// The cells of column `col`.
pub open spec fn column_cells(rows: Seq<RowView>, col: usize) -> Seq<CellValue> {
    Seq::new(rows.len(), |i: int| rows[i].cell(col as int))
}

/// Does `cmp` compare as `g` does?
pub open spec fn compares_as<F: Fn(&CellValue, &CellValue) -> Ordering>(
    cmp: F,
    g: spec_fn(CellValue, CellValue) -> Ordering,
) -> bool {
    forall|a: &CellValue, b: &CellValue, o: Ordering| #[trigger]
        call_ensures(cmp, (a, b), o) ==> o == g(*a, *b)
}

/// Is `g` a total preorder of `cells`?
pub open spec fn total_on(
    cells: Seq<CellValue>,
    g: spec_fn(CellValue, CellValue) -> Ordering,
) -> bool {
    &&& forall|i: int, j: int|
        0 <= i < cells.len() && 0 <= j < cells.len() ==> (#[trigger] g(cells[i], cells[j])
            == Ordering::Greater <==> g(cells[j], cells[i]) == Ordering::Less)
    &&& forall|i: int, j: int, k: int|
        0 <= i < cells.len() && 0 <= j < cells.len() && 0 <= k < cells.len() && #[trigger] g(
            cells[i],
            cells[j],
        ) != Ordering::Greater && #[trigger] g(cells[j], cells[k]) != Ordering::Greater ==> g(
            cells[i],
            cells[k],
        ) != Ordering::Greater
}

/// Does a cell that compares as `o` to another belong behind it?
pub open spec fn goes_behind(o: Ordering, dir: SortDir) -> bool {
    match dir {
        SortDir::Ascending => o == Ordering::Greater,
        SortDir::Descending => o == Ordering::Less,
    }
}

/// The order of cells in direction `dir`.
pub open spec fn behind(
    g: spec_fn(CellValue, CellValue) -> Ordering,
    dir: SortDir,
) -> spec_fn(CellValue, CellValue) -> bool {
    |a: CellValue, b: CellValue| goes_behind(g(a, b), dir)
}

/// The order of cells that reads texts as `read` does.
pub open spec fn natural(
    read: spec_fn(Seq<char>) -> Option<u64>,
) -> spec_fn(CellValue, CellValue) -> Ordering {
    |a: CellValue, b: CellValue| ordering(cell_order(a, b, read))
}

impl TableView {
    /// `orig` numbers the rows in some order.
    pub open spec fn wf(self) -> bool {
        &&& self.rows.len() <= u32::MAX
        &&& self.orig.len() == self.rows.len()
        &&& self.orig.no_duplicates()
        &&& forall|i: int| 0 <= i < self.orig.len() ==> #[trigger] self.orig[i] < self.rows.len()
    }

    /// The rows in the order in which they were inserted.
    pub open spec fn as_inserted(self) -> Seq<RowView> {
        Seq::new(self.rows.len(), |k: int| self.rows[self.orig.index_of(k as u32)])
    }

    /// The table with the column `from` moved to `to`.
    pub open spec fn column_moved(self, from: int, to: int) -> TableView {
        TableView {
            columns: moved(self.columns, from, to),
            rows: Seq::new(self.rows.len(), |i: int| moved_in_row(self.rows[i], from, to)),
            orig: self.orig,
            sort: match self.sort {
                Some((c, dir)) => Some((remapped(from, to, c as int) as usize, dir)),
                None => None,
            },
            hidden: Set::new(|c: usize| exists|d: usize|
                #[trigger] self.hidden.contains(d) && c == remapped(from, to, d as int)),
        }
    }
}

impl View for VirtualTable {
    type V = TableView;

    closed spec fn view(&self) -> TableView {
        TableView {
            columns: self.columns@,
            rows: row_views(self.rows@),
            orig: self.orig@,
            sort: self.sort,
            hidden: self.hidden@,
        }
    }
}

/// Is `new` the table `old` with its rows sorted by `col` in direction `dir`, as
/// `cmp` compares cells?
pub open spec fn sorts_with<F: Fn(&CellValue, &CellValue) -> Ordering>(
    old: TableView,
    new: TableView,
    col: usize,
    dir: SortDir,
    cmp: F,
) -> bool {
    &&& new.columns == old.columns
    &&& new.hidden == old.hidden
    &&& new.sort == Some((col, dir))
    &&& new.as_inserted() == old.as_inserted()
    &&& exists|p: Seq<int>|
        {
            &&& #[trigger] rearranged(old.rows, new.rows, p)
            &&& rearranged(old.orig, new.orig, p)
            &&& forall|g: spec_fn(CellValue, CellValue) -> Ordering|
                compares_as(cmp, g) && #[trigger] total_on(column_cells(old.rows, col), g)
                    ==> sorted_stably(column_cells(new.rows, col), p, behind(g, dir))
        }
}

/// Is `new` the table `old` with its rows sorted by `col` in direction `dir`,
/// texts being read as `read` does?
pub open spec fn sorts<R: Fn(&str) -> Option<u64>>(
    old: TableView,
    new: TableView,
    col: usize,
    dir: SortDir,
    read: R,
) -> bool {
    &&& new.columns == old.columns
    &&& new.hidden == old.hidden
    &&& new.sort == Some((col, dir))
    &&& new.as_inserted() == old.as_inserted()
    &&& exists|p: Seq<int>| #[trigger] sorted_from(old, new, col, dir, read, p)
}

/// Are the rows of `new` those of `old`, taken from the places `p`, in order?
pub open spec fn sorted_from<R: Fn(&str) -> Option<u64>>(
    old: TableView,
    new: TableView,
    col: usize,
    dir: SortDir,
    read: R,
    p: Seq<int>,
) -> bool {
    &&& rearranged(old.rows, new.rows, p)
    &&& rearranged(old.orig, new.orig, p)
    &&& forall|m: spec_fn(Seq<char>) -> Option<u64>| #[trigger]
        reads_as(read, m) && total_on(column_cells(old.rows, col), natural(m)) ==> sorted_stably(
            column_cells(new.rows, col),
            p,
            behind(natural(m), dir),
        )
}

/// A list of different numbers, each below its length, holds every number below
/// its length.
proof fn lemma_covers(orig: Seq<u32>, k: u32)
    requires
        orig.no_duplicates(),
        forall|i: int| 0 <= i < orig.len() ==> #[trigger] orig[i] < orig.len(),
        k < orig.len(),
    ensures
        orig.contains(k),
        0 <= orig.index_of(k) < orig.len(),
        orig[orig.index_of(k)] == k,
{
    let ints = Seq::new(orig.len(), |i: int| orig[i] as int);
    assert(ints.no_duplicates());
    ints.unique_seq_to_set();
    let all = vstd::set_lib::set_int_range(0, orig.len() as int);
    vstd::set_lib::lemma_int_range(0, orig.len() as int);
    assert(ints.to_set().subset_of(all));
    vstd::set_lib::lemma_subset_equality(ints.to_set(), all);
    assert(all.contains(k as int));
    let i = choose|i: int| 0 <= i < ints.len() && ints[i] == k;
    assert(orig[i] == k);
}

/// The rows and their insertion places side by side.
fn paired(rows: Vec<Row>, orig: Vec<u32>) -> (out: Vec<(Row, u32)>)
    requires
        rows@.len() == orig@.len(),
    ensures
        out@.len() == rows@.len(),
        forall|i: int| 0 <= i < out@.len() ==> #[trigger] out@[i] == (rows@[i], orig@[i]),
{
    let mut out: Vec<(Row, u32)> = Vec::new();
    let n: usize = orig.len();
    let mut i: usize = 0;
    for row in it: rows
        invariant
            it.seq() == rows@,
            rows@.len() == orig@.len() == n,
            i == it.index(),
            out@.len() == i,
            forall|k: int| 0 <= k < out@.len() ==> #[trigger] out@[k] == (rows@[k], orig@[k]),
    {
        out.push((row, orig[i]));
        i = i + 1;
    }
    out
}

/// The rows and their insertion places apart again.
fn unpaired(pairs: Vec<(Row, u32)>) -> (r: (Vec<Row>, Vec<u32>))
    ensures
        r.0@ == Seq::new(pairs@.len(), |i: int| pairs@[i].0),
        r.1@ == Seq::new(pairs@.len(), |i: int| pairs@[i].1),
{
    let mut rows: Vec<Row> = Vec::new();
    let mut orig: Vec<u32> = Vec::new();
    for pair in it: pairs
        invariant
            it.seq() == pairs@,
            rows@.len() == it.index(),
            orig@.len() == it.index(),
            forall|k: int| 0 <= k < rows@.len() ==> #[trigger] rows@[k] == pairs@[k].0,
            forall|k: int| 0 <= k < orig@.len() ==> #[trigger] orig@[k] == pairs@[k].1,
    {
        rows.push(pair.0);
        orig.push(pair.1);
    }
    assert(rows@ =~= Seq::new(pairs@.len(), |i: int| pairs@[i].0));
    assert(orig@ =~= Seq::new(pairs@.len(), |i: int| pairs@[i].1));
    (rows, orig)
}

/// Rows and places rearranged alike keep the order of insertion.
proof fn lemma_rearranged_alike(old: TableView, new: TableView, p: Seq<int>)
    requires
        old.wf(),
        rearranged(old.rows, new.rows, p),
        rearranged(old.orig, new.orig, p),
    ensures
        new.wf(),
        new.as_inserted() == old.as_inserted(),
{
    assert forall|i: int, j: int| 0 <= i < new.orig.len() && 0 <= j < new.orig.len() && i
        != j implies new.orig[i] != new.orig[j] by {
        assert(p[i] != p[j]);
    }
    assert forall|i: int| 0 <= i < new.orig.len() implies #[trigger] new.orig[i]
        < new.rows.len() by {
        assert(new.orig[i] == old.orig[p[i]]);
    }
    assert forall|k: int| 0 <= k < old.rows.len() implies new.as_inserted()[k]
        == old.as_inserted()[k] by {
        lemma_covers(old.orig, k as u32);
        lemma_covers(new.orig, k as u32);
        let j = new.orig.index_of(k as u32);
        assert(old.orig[p[j]] == k as u32);
        assert(p[j] == old.orig.index_of(k as u32));
    }
    assert(new.as_inserted() =~= old.as_inserted());
}

/// A total preorder of the cells orders the paired rows.
proof fn lemma_orders(
    pairs: Seq<(Row, u32)>,
    rows: Seq<RowView>,
    col: usize,
    g: spec_fn(CellValue, CellValue) -> Ordering,
    dir: SortDir,
)
    requires
        pairs.len() == rows.len(),
        forall|i: int| 0 <= i < pairs.len() ==> (#[trigger] pairs[i]).0@ == rows[i],
        total_on(column_cells(rows, col), g),
    ensures
        orders(pairs, pair_behind(g, dir, col)),
{
    let cells = column_cells(rows, col);
    let f = pair_behind(g, dir, col);
    assert forall|i: int| 0 <= i < pairs.len() implies (#[trigger] pairs[i]).0@.cell_at(col)
        == cells[i] by {}
    assert forall|i: int, j: int|
        0 <= i < pairs.len() && 0 <= j < pairs.len() && #[trigger] f(
            pairs[i],
            pairs[j],
        ) implies !f(pairs[j], pairs[i]) by {
        assert(g(cells[i], cells[j]) == g(cells[i], cells[j]));
        assert(g(cells[j], cells[i]) == g(cells[j], cells[i]));
    }
    assert forall|i: int, j: int, k: int|
        0 <= i < pairs.len() && 0 <= j < pairs.len() && 0 <= k < pairs.len() && !#[trigger] f(
            pairs[i],
            pairs[j],
        ) && !#[trigger] f(pairs[j], pairs[k]) implies !f(pairs[i], pairs[k]) by {
        assert(g(cells[i], cells[j]) == g(cells[i], cells[j]));
        assert(g(cells[j], cells[k]) == g(cells[j], cells[k]));
        assert(g(cells[i], cells[k]) == g(cells[i], cells[k]));
        assert(g(cells[j], cells[i]) == g(cells[j], cells[i]));
        assert(g(cells[k], cells[j]) == g(cells[k], cells[j]));
        assert(g(cells[k], cells[i]) == g(cells[k], cells[i]));
    }
}

/// The order of paired rows by their cells in column `col`.
spec fn pair_behind(
    g: spec_fn(CellValue, CellValue) -> Ordering,
    dir: SortDir,
    col: usize,
) -> spec_fn((Row, u32), (Row, u32)) -> bool {
    |x: (Row, u32), y: (Row, u32)| goes_behind(g(x.0@.cell_at(col), y.0@.cell_at(col)), dir)
}

/// Carry a row's cell along as the column `from` moves to `to`.
pub(crate) fn move_cell(row: &mut Row, from: usize, to: usize)
    ensures
        final(row)@ == moved_in_row(old(row)@, from as int, to as int),
{
    let (first, last): (usize, usize) = if from < to {
        (from, to)
    } else {
        (to, from)
    };
    if row.cells.len() <= first {
        return;
    }
    let ghost before = row.cells@;
    while row.cells.len() <= last
        invariant
            row.key == old(row).key,
            before.len() <= row.cells@.len(),
            row.cells@.len() <= last + 1 || row.cells@ == before,
            row.cells@ == padded(before, row.cells@.len() as int),
        decreases last + 1 - row.cells@.len(),
    {
        row.cells.push(CellValue::Empty);
        assert(row.cells@ =~= padded(before, row.cells@.len() as int));
    }
    assert(row.cells@ == padded(before, last + 1));
    let cell = row.cells.remove(from);
    row.cells.insert(to, cell);
}

impl VirtualTable {
    pub fn new(columns: Vec<Column>) -> (r: Self)
        ensures
            r@.wf(),
            r@ == (TableView {
                columns: columns@,
                rows: Seq::empty(),
                orig: Seq::empty(),
                sort: None,
                hidden: Set::empty(),
            }),
    {
        let r = VirtualTable {
            columns,
            rows: Vec::new(),
            orig: Vec::new(),
            sort: None,
            hidden: HashSet::new(),
        };
        assert(r@.rows =~= Seq::empty());
        r
    }

    pub fn row_count(&self) -> (r: usize)
        ensures
            r == self@.rows.len(),
    {
        self.rows.len()
    }

    pub fn is_empty(&self) -> (r: bool)
        ensures
            r == (self@.rows.len() == 0),
    {
        self.rows.len() == 0
    }

    pub fn columns(&self) -> (r: &[Column])
        ensures
            r@ == self@.columns,
    {
        self.columns.as_slice()
    }

    /// The rows in current sort order.
    pub fn rows(&self) -> (r: &[Row])
        ensures
            row_views(r@) == self@.rows,
    {
        self.rows.as_slice()
    }

    /// Current sort `(column, direction)`, or `None` if unsorted.
    pub fn sort_state(&self) -> (r: Option<(usize, SortDir)>)
        ensures
            r == self@.sort,
    {
        self.sort
    }

    /// Replace all rows. Each gets its insertion place, in decimal, as its key.
    pub fn set_rows(&mut self, rows: Vec<Vec<CellValue>>)
        requires
            rows@.len() <= u32::MAX,
        ensures
            final(self)@.wf(),
            final(self)@ == (TableView {
                rows: Seq::new(
                    rows@.len(),
                    |i: int| RowView { key: decimal(i as nat), cells: rows@[i]@ },
                ),
                orig: places(rows@.len()),
                ..old(self)@
            }),
    {
        let mut new_rows: Vec<Row> = Vec::new();
        let mut orig: Vec<u32> = Vec::new();
        let mut id: u32 = 0;
        let n: usize = rows.len();
        for cells in it: rows
            invariant
                it.seq() == rows@,
                rows@.len() == n <= u32::MAX,
                id == it.index(),
                orig@ == places(it.index() as nat),
                new_rows@.len() == it.index(),
                forall|i: int|
                    0 <= i < new_rows@.len() ==> #[trigger] new_rows@[i]@ == (RowView {
                        key: decimal(i as nat),
                        cells: rows@[i]@,
                    }),
        {
            orig.push(id);
            new_rows.push(Row { key: RowKey::from(decimal_text(id as u64)), cells });
            assert(orig@ =~= places((it.index() + 1) as nat));
            id = id + 1;
        }
        self.orig = orig;
        self.rows = new_rows;
        assert(self@.rows =~= Seq::new(
            rows@.len(),
            |i: int| RowView { key: decimal(i as nat), cells: rows@[i]@ },
        ));
    }

    /// Replace all rows, each carrying its own key.
    pub fn set_rows_keyed(&mut self, rows: Vec<Row>)
        requires
            rows@.len() <= u32::MAX,
        ensures
            final(self)@.wf(),
            final(self)@ == (TableView {
                rows: row_views(rows@),
                orig: places(rows@.len()),
                ..old(self)@
            }),
    {
        let n: usize = rows.len();
        let mut orig: Vec<u32> = Vec::new();
        let mut id: u32 = 0;
        while (id as usize) < n
            invariant
                id <= n <= u32::MAX,
                orig@ == places(id as nat),
            decreases n - id,
        {
            orig.push(id);
            id = id + 1;
            assert(orig@ =~= places(id as nat));
        }
        self.orig = orig;
        self.rows = rows;
    }

    /// Append one row whose key is its insertion place, in decimal.
    pub fn push_row(&mut self, cells: Vec<CellValue>)
        requires
            old(self)@.wf(),
            old(self)@.rows.len() < u32::MAX,
        ensures
            final(self)@.wf(),
            final(self)@ == (TableView {
                rows: old(self)@.rows.push(
                    RowView { key: decimal(old(self)@.rows.len()), cells: cells@ },
                ),
                orig: old(self)@.orig.push(old(self)@.rows.len() as u32),
                ..old(self)@
            }),
    {
        let id: u32 = self.orig.len() as u32;
        self.orig.push(id);
        self.rows.push(Row { key: RowKey::from(decimal_text(id as u64)), cells });
        assert(self@.rows =~= old(self)@.rows.push(
            RowView { key: decimal(old(self)@.rows.len()), cells: cells@ },
        ));
    }

    /// Hide or show the column at `col`. An index past the last column is
    /// recorded all the same.
    pub fn set_column_hidden(&mut self, col: usize, hidden: bool)
        ensures
            final(self)@ == (TableView {
                hidden: if hidden {
                    old(self)@.hidden.insert(col)
                } else {
                    old(self)@.hidden.remove(col)
                },
                ..old(self)@
            }),
    {
        if hidden {
            self.hidden.insert(col);
        } else {
            self.hidden.remove(&col);
        }
    }

    /// Whether the column at `col` is hidden.
    pub fn is_column_hidden(&self, col: usize) -> (r: bool)
        ensures
            r == self@.hidden.contains(col),
    {
        self.hidden.contains(&col)
    }

    /// The hidden columns as `(index, header)` pairs, sorted by index. Indices
    /// past the last column are skipped.
    pub fn hidden_columns(&self) -> (r: Vec<(usize, &str)>)
        ensures
            r@.len() == hidden_below(self@, self@.columns.len()).len(),
            forall|i: int|
                0 <= i < r@.len() ==> (#[trigger] r@[i]).0 == hidden_below(
                    self@,
                    self@.columns.len(),
                )[i].0 && r@[i].1@ == hidden_below(self@, self@.columns.len())[i].1,
    {
        let mut out: Vec<(usize, &str)> = Vec::new();
        let n: usize = self.columns.len();
        let mut c: usize = 0;
        while c < n
            invariant
                c <= n,
                n == self.columns@.len(),
                out@.len() == hidden_below(self@, c as nat).len(),
                forall|i: int|
                    0 <= i < out@.len() ==> (#[trigger] out@[i]).0 == hidden_below(
                        self@,
                        c as nat,
                    )[i].0 && out@[i].1@ == hidden_below(self@, c as nat)[i].1,
            decreases n - c,
        {
            if self.hidden.contains(&c) {
                out.push((c, self.columns[c].header.as_str()));
            }
            c = c + 1;
        }
        out
    }

    /// Set, or clear with `None`, the explicit width of column `col`. Past the
    /// last column nothing happens.
    pub fn set_column_width(&mut self, col: usize, width: Option<u16>)
        ensures
            final(self)@ == (if col < old(self)@.columns.len() {
                TableView {
                    columns: old(self)@.columns.update(
                        col as int,
                        Column { header: old(self)@.columns[col as int].header, width },
                    ),
                    ..old(self)@
                }
            } else {
                old(self)@
            }),
    {
        if col < self.columns.len() {
            self.columns[col].width = width;
            assert(self@.columns =~= old(self)@.columns.update(
                col as int,
                Column { header: old(self)@.columns[col as int].header, width },
            ));
        }
    }

    /// Where index `i` lands after [`move_column(from, to)`](Self::move_column).
    pub fn remapped_index(from: usize, to: usize, i: usize) -> (r: usize)
        ensures
            r == remapped(from as int, to as int, i as int),
    {
        if i == from {
            to
        } else if from < to {
            if i > from && i <= to {
                i - 1
            } else {
                i
            }
        } else if i >= to && i < from {
            i + 1
        } else {
            i
        }
    }

    /// The rows to materialize, `(start, count)`, for a viewport of
    /// `viewport_rows` data rows scrolled down to row `scroll_y` of `total`.
    pub fn window_for(viewport_rows: u16, scroll_y: usize, total: usize) -> (r: (usize, usize))
        ensures
            r.0 == (if scroll_y < total {
                scroll_y
            } else {
                total
            }),
            r.1 == (if viewport_rows < total - r.0 {
                viewport_rows as int
            } else {
                total - r.0
            }),
    {
        let start: usize = if scroll_y < total {
            scroll_y
        } else {
            total
        };
        let room: usize = total - start;
        let count: usize = if (viewport_rows as usize) < room {
            viewport_rows as usize
        } else {
            room
        };
        (start, count)
    }

    /// Sort the rows by the cells of column `col` as `cmp` compares them, in
    /// direction `dir`, and record the sort. Rows that compare equal keep their
    /// order. Rows too short for the column compare by an `Empty` cell.
    pub fn sort_by_with<F: Fn(&CellValue, &CellValue) -> Ordering>(
        &mut self,
        col: usize,
        dir: SortDir,
        cmp: F,
    )
        requires
            old(self)@.wf(),
            forall|a: &CellValue, b: &CellValue| #[trigger] call_requires(cmp, (a, b)),
        ensures
            final(self)@.wf(),
            sorts_with(old(self)@, final(self)@, col, dir, cmp),
    {
        let mut rows: Vec<Row> = Vec::new();
        let mut orig: Vec<u32> = Vec::new();
        std::mem::swap(&mut rows, &mut self.rows);
        std::mem::swap(&mut orig, &mut self.orig);
        let pairs = paired(rows, orig);
        let ghost before = pairs@;
        let compare = &cmp;
        let after = |x: &(Row, u32), y: &(Row, u32)| -> (r: bool)
            requires
                forall|a: &CellValue, b: &CellValue| #[trigger] call_requires(*compare, (a, b)),
            ensures
                exists|o: Ordering| #[trigger]
                    call_ensures(*compare, (&x.0@.cell_at(col), &y.0@.cell_at(col)), o) && r
                        == goes_behind(o, dir),
            {
                let o = compare(x.0.cell(col), y.0.cell(col));
                match dir {
                    SortDir::Ascending => matches!(o, Ordering::Greater),
                    SortDir::Descending => matches!(o, Ordering::Less),
                }
            };
        let sorted = sort_stable(pairs, &after);
        let ghost result = sorted@;
        let (rows, orig) = unpaired(sorted);
        self.rows = rows;
        self.orig = orig;
        self.sort = Some((col, dir));
        proof {
            let p = choose|p: Seq<int>| #[trigger]
                rearranged(before, result, p) && forall|g: spec_fn(
                    (Row, u32),
                    (Row, u32),
                ) -> bool|
                    answers_as(after, g) && #[trigger] orders(before, g) ==> sorted_stably(
                        result,
                        p,
                        g,
                    );
            assert(rearranged(old(self)@.rows, self@.rows, p));
            assert(rearranged(old(self)@.orig, self@.orig, p));
            lemma_rearranged_alike(old(self)@, self@, p);
            assert forall|g: spec_fn(CellValue, CellValue) -> Ordering|
                compares_as(cmp, g) && #[trigger] total_on(
                    column_cells(old(self)@.rows, col),
                    g,
                ) implies sorted_stably(column_cells(self@.rows, col), p, behind(g, dir)) by {
                let f = pair_behind(g, dir, col);
                lemma_orders(before, old(self)@.rows, col, g, dir);
                assert(answers_as(after, f));
                assert(sorted_stably(result, p, f));
                let cells = column_cells(self@.rows, col);
                assert forall|i: int, j: int|
                    #![trigger cells[i], cells[j]]
                    0 <= i < j < cells.len() implies !behind(g, dir)(cells[i], cells[j]) && (
                behind(g, dir)(cells[j], cells[i]) || p[i] < p[j]) by {
                    assert(result[i].0@.cell_at(col) == cells[i]);
                    assert(result[j].0@.cell_at(col) == cells[j]);
                    assert(!f(result[i], result[j]));
                }
            }
        }
    }

    /// Sort the rows by the cells of column `col` in their natural order, and
    /// record the sort. `read` tells which number a text spells, by its bit
    /// pattern.
    pub fn sort_by<R: Fn(&str) -> Option<u64>>(&mut self, col: usize, dir: SortDir, read: &R)
        requires
            old(self)@.wf(),
            forall|s: &str| #[trigger] call_requires(*read, (s,)),
        ensures
            final(self)@.wf(),
            sorts(old(self)@, final(self)@, col, dir, *read),
    {
        let compare = |a: &CellValue, b: &CellValue| -> (o: Ordering)
            requires
                forall|s: &str| #[trigger] call_requires(*read, (s,)),
            ensures
                forall|m: spec_fn(Seq<char>) -> Option<u64>| #[trigger]
                    reads_as(*read, m) ==> o == ordering(cell_order(*a, *b, m)),
            { a.sort_cmp(b, read) };
        self.sort_by_with(col, dir, compare);
        proof {
            let p = choose|p: Seq<int>|
                {
                    &&& #[trigger] rearranged(old(self)@.rows, self@.rows, p)
                    &&& rearranged(old(self)@.orig, self@.orig, p)
                    &&& forall|g: spec_fn(CellValue, CellValue) -> Ordering|
                        compares_as(compare, g) && #[trigger] total_on(
                            column_cells(old(self)@.rows, col),
                            g,
                        ) ==> sorted_stably(column_cells(self@.rows, col), p, behind(g, dir))
                };
            assert forall|m: spec_fn(Seq<char>) -> Option<u64>| #[trigger]
                reads_as(*read, m) && total_on(
                    column_cells(old(self)@.rows, col),
                    natural(m),
                ) implies sorted_stably(
                column_cells(self@.rows, col),
                p,
                behind(natural(m), dir),
            ) by {
                assert(compares_as(compare, natural(m)));
            }
            assert(sorted_from(old(self)@, self@, col, dir, *read, p));
        }
    }

    /// Put the rows back into the order in which they were inserted, and clear
    /// the recorded sort.
    pub fn clear_sort(&mut self)
        requires
            old(self)@.wf(),
        ensures
            final(self)@.wf(),
            final(self)@ == (TableView {
                rows: old(self)@.as_inserted(),
                orig: places(old(self)@.rows.len()),
                sort: None,
                ..old(self)@
            }),
    {
        let ghost before = self@;
        let mut rows: Vec<Row> = Vec::new();
        let mut orig: Vec<u32> = Vec::new();
        std::mem::swap(&mut rows, &mut self.rows);
        std::mem::swap(&mut orig, &mut self.orig);
        let n: usize = rows.len();
        let mut slots: Vec<Option<Row>> = Vec::new();
        while slots.len() < n
            invariant
                slots@.len() <= n,
            decreases n - slots@.len(),
        {
            slots.push(None);
        }
        let mut i: usize = 0;
        for row in it: rows
            invariant
                it.seq() == rows@,
                n == rows@.len() == orig@.len() == slots@.len(),
                before.wf(),
                before.orig == orig@,
                before.rows == row_views(rows@),
                i == it.index(),
                forall|k: int|
                    #![trigger orig@[k]]
                    0 <= k < i ==> slots@[orig@[k] as int] == Some(rows@[k]),
        {
            let at: usize = orig[i] as usize;
            slots[at] = Some(row);
            i = i + 1;
        }
        let mut id: u32 = 0;
        for slot in it: slots
            invariant
                it.seq() == slots@,
                n == slots@.len() == rows@.len() == orig@.len(),
                before.wf(),
                before.orig == orig@,
                before.rows == row_views(rows@),
                id == it.index(),
                forall|k: int|
                    #![trigger orig@[k]]
                    0 <= k < n ==> slots@[orig@[k] as int] == Some(rows@[k]),
                self@.columns == before.columns,
                self@.hidden == before.hidden,
                self.orig@ == places(it.index() as nat),
                self.rows@.len() == it.index(),
                forall|k: int|
                    0 <= k < self.rows@.len() ==> (#[trigger] self.rows@[k])@
                        == before.as_inserted()[k],
        {
            proof {
                lemma_covers(orig@, id);
                assert(slots@[orig@[orig@.index_of(id)] as int] == Some(
                    rows@[orig@.index_of(id)],
                ));
            }
            match slot {
                Some(row) => {
                    self.rows.push(row);
                    self.orig.push(id);
                },
                None => {},
            }
            id = id + 1;
            assert(self.orig@ =~= places((it.index() + 1) as nat));
        }
        self.sort = None;
        assert(self@.rows =~= before.as_inserted());
    }

    /// Move the column at `from` to index `to`: the header, every row's cell (a
    /// missing one counts as `Empty`), the hidden flags and the recorded sort
    /// column follow. Nothing happens
    /// for an index past the last column or for equal indices.
    pub fn move_column(&mut self, from: usize, to: usize)
        requires
            old(self)@.wf(),
        ensures
            final(self)@.wf(),
            final(self)@ == (if from < old(self)@.columns.len() && to < old(self)@.columns.len()
                && from != to {
                old(self)@.column_moved(from as int, to as int)
            } else {
                old(self)@
            }),
            from < old(self)@.columns.len() && to < old(self)@.columns.len() ==> forall|
                r: int,
                i: int,
            |
                0 <= r < old(self)@.rows.len() && 0 <= i ==> final(self)@.rows[r].cell(
                    remapped(from as int, to as int, i),
                ) == #[trigger] old(self)@.rows[r].cell(i),
    {
        let n: usize = self.columns.len();
        if from >= n || to >= n || from == to {
            return;
        }
        let ghost before = self@;
        let column = self.columns.remove(from);
        self.columns.insert(to, column);
        let count: usize = self.rows.len();
        let mut i: usize = 0;
        while i < count
            invariant
                i <= count,
                count == self.rows@.len() == before.rows.len(),
                from < n,
                to < n,
                self.orig@ == before.orig,
                self.sort == before.sort,
                self.hidden@ == before.hidden,
                self.columns@ == moved(before.columns, from as int, to as int),
                forall|k: int|
                    #![trigger self.rows@[k]]
                    0 <= k < i ==> self.rows@[k]@ == moved_in_row(
                        before.rows[k],
                        from as int,
                        to as int,
                    ),
                forall|k: int|
                    #![trigger self.rows@[k]]
                    i <= k < count ==> self.rows@[k]@ == before.rows[k],
            decreases count - i,
        {
            move_cell(&mut self.rows[i], from, to);
            i = i + 1;
        }
        match self.sort {
            Some((c, dir)) => {
                self.sort = Some((Self::remapped_index(from, to, c), dir));
            },
            None => {},
        }
        self.move_hidden_flag(from, to);
        proof {
            assert(self@.rows =~= before.column_moved(from as int, to as int).rows);
            assert forall|r: int, i: int| 0 <= r < before.rows.len() && 0 <= i implies self@.rows[
                r
            ].cell(remapped(from as int, to as int, i)) == #[trigger] before.rows[r].cell(i) by {
                cells_move_with_their_columns(before.rows[r], from as int, to as int, i);
            }
        }
    }

    /// Carry the hidden flags along as the column `from` moves to `to`.
    fn move_hidden_flag(&mut self, from: usize, to: usize)
        requires
            from != to,
        ensures
            final(self)@ == (TableView {
                hidden: old(self)@.column_moved(from as int, to as int).hidden,
                ..old(self)@
            }),
    {
        let ghost before = self@;
        let flag = self.hidden.contains(&from);
        let mut i: usize = from;
        while i != to
            invariant
                from <= i <= to || to <= i <= from,
                self@ == (TableView { hidden: self@.hidden, ..before }),
                forall|c: usize| #[trigger]
                    self@.hidden.contains(c) == if from <= c < i {
                        before.hidden.contains((c + 1) as usize)
                    } else if i < c <= from {
                        before.hidden.contains((c - 1) as usize)
                    } else {
                        before.hidden.contains(c)
                    },
            decreases
                    if i < to {
                        to - i
                    } else {
                        i - to
                    },
        {
            let next: usize = if i < to {
                i + 1
            } else {
                i - 1
            };
            if self.hidden.contains(&next) {
                self.hidden.insert(i);
            } else {
                self.hidden.remove(&i);
            }
            i = next;
        }
        if flag {
            self.hidden.insert(to);
        } else {
            self.hidden.remove(&to);
        }
        proof {
            let goal = before.column_moved(from as int, to as int).hidden;
            assert forall|c: usize| self@.hidden.contains(c) == goal.contains(c) by {
                let back = remapped(to as int, from as int, c as int) as usize;
                assert(remapped(from as int, to as int, back as int) == c);
                assert(self@.hidden.contains(c) == before.hidden.contains(back));
                if goal.contains(c) {
                    let d = choose|d: usize| #[trigger]
                        before.hidden.contains(d) && c == remapped(
                            from as int,
                            to as int,
                            d as int,
                        );
                    assert(d == back);
                }
            }
            assert(self@.hidden =~= goal);
        }
    }
}

/// Moving the item back undoes a move: each index returns to where it was.
pub proof fn index_moves_are_undone(from: int, to: int, i: int)
    ensures
        remapped(to, from, remapped(from, to, i)) == i,
{
}

/// What stood at `i` stands where the move sends `i`.
pub proof fn moved_items_follow_their_index<T>(s: Seq<T>, from: int, to: int, i: int)
    requires
        0 <= from < s.len(),
        0 <= to < s.len(),
        0 <= i < s.len(),
    ensures
        moved(s, from, to).len() == s.len(),
        0 <= remapped(from, to, i) < s.len(),
        moved(s, from, to)[remapped(from, to, i)] == s[i],
{
}

/// Moving an item back undoes its move.
proof fn lemma_move_undone<T>(s: Seq<T>, from: int, to: int)
    requires
        0 <= from < s.len(),
        0 <= to < s.len(),
    ensures
        moved(moved(s, from, to), to, from) == s,
{
    let there = moved(s, from, to);
    assert(there[to] == s[from]);
    assert(there.remove(to) =~= s.remove(from));
    assert(moved(there, to, from) =~= s);
}

proof fn lemma_hidden_move_undone(t: TableView, from: usize, to: usize)
    ensures
        t.column_moved(from as int, to as int).column_moved(to as int, from as int).hidden
            == t.hidden,
{
    let there = t.column_moved(from as int, to as int);
    let back = there.column_moved(to as int, from as int);
    assert forall|c: usize| back.hidden.contains(c) == t.hidden.contains(c) by {
        let d = remapped(from as int, to as int, c as int) as usize;
        assert(remapped(to as int, from as int, d as int) == c);
        if t.hidden.contains(c) {
            assert(there.hidden.contains(d));
        }
        if back.hidden.contains(c) {
            let e = choose|e: usize| #[trigger]
                there.hidden.contains(e) && c == remapped(to as int, from as int, e as int);
            let f = choose|f: usize| #[trigger]
                t.hidden.contains(f) && e == remapped(from as int, to as int, f as int);
            assert(f == c);
        }
    }
    assert(back.hidden =~= t.hidden);
}

/// In every row, however short, the cell that stood in column `i` stands where
/// the move sends `i`.
pub proof fn cells_move_with_their_columns(row: RowView, from: int, to: int, i: int)
    requires
        0 <= from,
        0 <= to,
        0 <= i,
    ensures
        moved_in_row(row, from, to).key == row.key,
        moved_in_row(row, from, to).cell(remapped(from, to, i)) == row.cell(i),
{
    let last = if from < to {
        to
    } else {
        from
    };
    let cells = padded(row.cells, last + 1);
    if i < cells.len() {
        moved_items_follow_their_index(cells, from, to, i);
    }
}

/// Moving a column and moving it back leaves the table as it was: its columns,
/// its sort, its hidden flags and every row's cells, those that a short row does
/// not have being `Empty`.
pub proof fn column_moves_are_undone(t: TableView, from: usize, to: usize)
    requires
        from < t.columns.len(),
        to < t.columns.len(),
    ensures
        ({
            let back = t.column_moved(from as int, to as int).column_moved(to as int, from as int);
            &&& back == (TableView { rows: back.rows, ..t })
            &&& back.rows.len() == t.rows.len()
            &&& forall|r: int, i: int|
                0 <= r < t.rows.len() && 0 <= i ==> (#[trigger] back.rows[r].cell(i))
                    == t.rows[r].cell(i)
            &&& forall|r: int|
                0 <= r < t.rows.len() ==> (#[trigger] back.rows[r]).key == t.rows[r].key
        }),
{
    let there = t.column_moved(from as int, to as int);
    let back = there.column_moved(to as int, from as int);
    lemma_move_undone(t.columns, from as int, to as int);
    lemma_hidden_move_undone(t, from, to);
    assert forall|r: int, i: int| 0 <= r < t.rows.len() && 0 <= i implies (#[trigger] back.rows[
        r
    ].cell(i)) == t.rows[r].cell(i) by {
        let d = remapped(from as int, to as int, i);
        cells_move_with_their_columns(t.rows[r], from as int, to as int, i);
        cells_move_with_their_columns(there.rows[r], to as int, from as int, d);
    }
    match t.sort {
        Some((c, dir)) => {
            index_moves_are_undone(from as int, to as int, c as int);
        },
        None => {},
    }
}

/// A moved column keeps its header, its width, its hidden flag, the sort by it
/// and, in every row, its cell.
pub proof fn columns_move_as_a_whole(t: TableView, from: usize, to: usize, c: usize)
    requires
        from < t.columns.len(),
        to < t.columns.len(),
        c < t.columns.len(),
    ensures
        ({
            let m = t.column_moved(from as int, to as int);
            let d = remapped(from as int, to as int, c as int) as usize;
            &&& d < m.columns.len()
            &&& m.columns[d as int] == t.columns[c as int]
            &&& m.hidden.contains(d) == t.hidden.contains(c)
            &&& forall|dir: SortDir| m.sort == Some((d, dir)) <==> t.sort == Some((c, dir))
            &&& forall|r: int|
                0 <= r < t.rows.len() ==> (#[trigger] m.rows[r]).key == t.rows[r].key
                    && m.rows[r].cell(d as int) == t.rows[r].cell(c as int)
        }),
{
    let m = t.column_moved(from as int, to as int);
    let d = remapped(from as int, to as int, c as int) as usize;
    assert(remapped(to as int, from as int, d as int) == c);
    if t.hidden.contains(c) {
        assert(m.hidden.contains(d));
    }
    if m.hidden.contains(d) {
        let e = choose|e: usize| #[trigger]
            t.hidden.contains(e) && d == remapped(from as int, to as int, e as int);
        assert(e == c);
    }
    match t.sort {
        Some((s, dir)) => {
            index_moves_are_undone(from as int, to as int, s as int);
        },
        None => {},
    }
    assert forall|r: int| 0 <= r < t.rows.len() implies (#[trigger] m.rows[r]).key
        == t.rows[r].key && m.rows[r].cell(d as int) == t.rows[r].cell(c as int) by {
        cells_move_with_their_columns(t.rows[r], from as int, to as int, c as int);
    }
}

/// Rows that were set and not sorted since stand in the order of insertion.
pub proof fn fresh_rows_stand_as_inserted(t: TableView)
    requires
        t.rows.len() <= u32::MAX,
        t.orig == places(t.rows.len()),
    ensures
        t.wf(),
        t.as_inserted() == t.rows,
{
    assert(t.orig.no_duplicates());
    assert forall|k: int| 0 <= k < t.rows.len() implies t.as_inserted()[k] == t.rows[k] by {
        lemma_covers(t.orig, k as u32);
    }
    assert(t.as_inserted() =~= t.rows);
}

/// A row pushed to a table, sorted or not, comes last in the order of insertion.
pub proof fn pushed_rows_are_inserted_last(t: TableView, row: RowView)
    requires
        t.wf(),
        t.rows.len() < u32::MAX,
    ensures
        ({
            let pushed = TableView {
                rows: t.rows.push(row),
                orig: t.orig.push(t.rows.len() as u32),
                ..t
            };
            pushed.wf() && pushed.as_inserted() == t.as_inserted().push(row)
        }),
{
    let n = t.rows.len();
    let pushed = TableView { rows: t.rows.push(row), orig: t.orig.push(n as u32), ..t };
    assert forall|i: int| 0 <= i < pushed.orig.len() implies #[trigger] pushed.orig[i]
        < pushed.rows.len() by {
        if i < n {
            assert(t.orig[i] < n);
        }
    }
    assert(pushed.orig.no_duplicates());
    assert forall|k: int| 0 <= k < pushed.rows.len() implies pushed.as_inserted()[k]
        == t.as_inserted().push(row)[k] by {
        lemma_covers(pushed.orig, k as u32);
        if k < n {
            lemma_covers(t.orig, k as u32);
            let i = t.orig.index_of(k as u32);
            assert(pushed.orig[i] == k as u32);
        }
    }
    assert(pushed.as_inserted() =~= t.as_inserted().push(row));
}

/// The keys that rows get for their places of insertion differ.
pub proof fn place_keys_differ(a: nat, b: nat)
    requires
        a != b,
    ensures
        decimal(a) != decimal(b),
{
    decimal_names_its_number(a);
    decimal_names_its_number(b);
}

/// Sorting keeps every row, its key with its cells.
pub proof fn sorting_keeps_the_rows<R: Fn(&str) -> Option<u64>>(
    before: TableView,
    after: TableView,
    col: usize,
    dir: SortDir,
    read: R,
)
    requires
        sorts(before, after, col, dir, read),
    ensures
        after.rows.len() == before.rows.len(),
        after.rows.to_multiset() == before.rows.to_multiset(),
        forall|row: RowView| after.rows.contains(row) <==> before.rows.contains(row),
{
    let p = choose|p: Seq<int>| #[trigger] sorted_from(before, after, col, dir, read, p);
    rearranging_keeps_the_items(before.rows, after.rows, p);
    before.rows.to_multiset_ensures();
    after.rows.to_multiset_ensures();
    assert forall|row: RowView| after.rows.contains(row) <==> before.rows.contains(row) by {
        assert(after.rows.contains(row) <==> after.rows.to_multiset().count(row) > 0);
        assert(before.rows.contains(row) <==> before.rows.to_multiset().count(row) > 0);
    }
}

/// Clearing the sort undoes any sort of rows that stood in the order of
/// insertion.
pub proof fn clearing_undoes_a_sort<R: Fn(&str) -> Option<u64>>(
    before: TableView,
    sorted: TableView,
    cleared: TableView,
    col: usize,
    dir: SortDir,
    read: R,
)
    requires
        before.rows.len() <= u32::MAX,
        before.orig == places(before.rows.len()),
        sorts(before, sorted, col, dir, read),
        cleared == (TableView {
            rows: sorted.as_inserted(),
            orig: places(sorted.rows.len()),
            sort: None,
            ..sorted
        }),
    ensures
        cleared == (TableView { sort: None, ..before }),
{
    fresh_rows_stand_as_inserted(before);
    assert(cleared.orig =~= before.orig);
}

/// Sorting again the same way moves no row.
pub proof fn sorting_again_moves_nothing<R: Fn(&str) -> Option<u64>>(
    before: TableView,
    once: TableView,
    twice: TableView,
    col: usize,
    dir: SortDir,
    read: R,
    m: spec_fn(Seq<char>) -> Option<u64>,
)
    requires
        sorts(before, once, col, dir, read),
        sorts(once, twice, col, dir, read),
        reads_as(read, m),
        total_on(column_cells(before.rows, col), natural(m)),
    ensures
        twice == once,
{
    let p = choose|p: Seq<int>| #[trigger] sorted_from(before, once, col, dir, read, p);
    let q = choose|q: Seq<int>| #[trigger] sorted_from(once, twice, col, dir, read, q);
    lemma_total_rearranged(before.rows, once.rows, p, col, natural(m));
    let a = column_cells(once.rows, col);
    let b = column_cells(twice.rows, col);
    assert(rearranged(a, b, q));
    lemma_sorted_again(a, b, p, q, behind(natural(m), dir));
    assert forall|i: int| 0 <= i < q.len() implies twice.rows[i] == once.rows[i] && twice.orig[i]
        == once.orig[i] by {
        assert(q[i] == i);
    }
    assert(twice.rows =~= once.rows);
    assert(twice.orig =~= once.orig);
}

/// An order that is total on a column is total on it however the rows stand.
proof fn lemma_total_rearranged(
    rows: Seq<RowView>,
    new: Seq<RowView>,
    p: Seq<int>,
    col: usize,
    g: spec_fn(CellValue, CellValue) -> Ordering,
)
    requires
        rearranged(rows, new, p),
        total_on(column_cells(rows, col), g),
    ensures
        total_on(column_cells(new, col), g),
{
    let a = column_cells(rows, col);
    let b = column_cells(new, col);
    assert forall|i: int| 0 <= i < b.len() implies #[trigger] b[i] == a[p[i]] by {}
    assert forall|i: int, j: int| 0 <= i < b.len() && 0 <= j < b.len() implies (#[trigger] g(
        b[i],
        b[j],
    ) == Ordering::Greater <==> g(b[j], b[i]) == Ordering::Less) by {
        assert(g(a[p[i]], a[p[j]]) == g(b[i], b[j]));
    }
    assert forall|i: int, j: int, k: int|
        0 <= i < b.len() && 0 <= j < b.len() && 0 <= k < b.len() && #[trigger] g(b[i], b[j])
            != Ordering::Greater && #[trigger] g(b[j], b[k]) != Ordering::Greater implies g(
        b[i],
        b[k],
    ) != Ordering::Greater by {
        assert(g(a[p[i]], a[p[j]]) == g(b[i], b[j]));
        assert(g(a[p[j]], a[p[k]]) == g(b[j], b[k]));
    }
}

} // verus!
