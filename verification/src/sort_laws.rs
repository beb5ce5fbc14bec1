//! What a sorted table looks like.

use std::cmp::Ordering;

use vstd::prelude::*;

use crate::data::{cell_text, reads_as, CellValue};
use crate::data_laws::{
    cells_are_ordered_by_what_they_hold, is_less, no_number,
};
use crate::model::{
    behind, column_cells, compares_as, hidden_below, moved, natural, remapped,
    sorted_from, sorts, sorts_with, total_on, SortDir, TableView,
};
use crate::natural::{like_cells_can_be_sorted, measured, Measure};
use crate::order::{ordering, Order};
use crate::sorting::{rearranged, sorted_stably};

verus! {

/// Do the rows of `after` come from those of `before`, each from its own place,
/// row `i` from the place `p[i]`?
pub open spec fn taken_from(before: TableView, after: TableView, p: Seq<int>) -> bool {
    &&& p.len() == before.rows.len()
    &&& after.rows.len() == before.rows.len()
    &&& forall|i: int|
        0 <= i < p.len() ==> 0 <= #[trigger] p[i] < before.rows.len() && after.rows[i]
            == before.rows[p[i]]
    &&& forall|i: int, j: int| 0 <= i < p.len() && 0 <= j < p.len() && i != j ==> p[i] != p[j]
}

/// The cell of row `i` in column `col`, empty where the row is too short.
pub open spec fn cell_in(t: TableView, i: int, col: usize) -> CellValue {
    if col < t.rows[i].cells.len() {
        t.rows[i].cells[col as int]
    } else {
        CellValue::Empty
    }
}

/// Do all cells hold a number, a byte count, a span, a text that spells a number,
/// or a text that spells none, or nothing?
pub open spec fn alike(
    c: CellValue,
    kind: Measure,
    read: spec_fn(Seq<char>) -> Option<u64>,
) -> bool {
    match c {
        CellValue::Empty => true,
        CellValue::Number(n) => kind is Number && !no_number(n.bits),
        CellValue::Bytes(_) => kind is Bytes,
        CellValue::Duration(_) => kind is Duration,
        _ => match read(cell_text(c)) {
            Some(bits) => kind is Numeral && !no_number(bits),
            None => kind is Word,
        },
    }
}

/// May the cell `a`, taken from the place `i`, stand before `b`, taken from `j`?
pub open spec fn pair_in_order(
    a: CellValue,
    b: CellValue,
    dir: SortDir,
    m: spec_fn(Seq<char>) -> Option<u64>,
    i: int,
    j: int,
) -> bool {
    &&& dir is Ascending ==> !is_less(b, a, m)
    &&& dir is Descending ==> !is_less(a, b, m)
    &&& !is_less(a, b, m) && !is_less(b, a, m) ==> i < j
}

/// The same for a comparison of one's own.
pub open spec fn pair_in_order_by(
    a: CellValue,
    b: CellValue,
    dir: SortDir,
    g: spec_fn(CellValue, CellValue) -> Ordering,
    i: int,
    j: int,
) -> bool {
    &&& dir is Ascending ==> g(a, b) != Ordering::Greater
    &&& dir is Descending ==> g(a, b) != Ordering::Less
    &&& g(a, b) == Ordering::Equal ==> i < j
}

/// Is no cell followed by a lesser one, or by a greater one where the sort
/// descends, and do rows with cells that are neither keep the order of their
/// places?
pub open spec fn in_order(
    after: TableView,
    col: usize,
    dir: SortDir,
    m: spec_fn(Seq<char>) -> Option<u64>,
    p: Seq<int>,
) -> bool {
    forall|i: int, j: int|
        #![trigger p[i], p[j]]
        0 <= i < j < p.len() ==> pair_in_order(
            cell_in(after, i, col),
            cell_in(after, j, col),
            dir,
            m,
            p[i],
            p[j],
        )
}

/// The same for a comparison of one's own.
pub open spec fn in_order_by(
    after: TableView,
    col: usize,
    dir: SortDir,
    g: spec_fn(CellValue, CellValue) -> Ordering,
    p: Seq<int>,
) -> bool {
    forall|i: int, j: int|
        #![trigger p[i], p[j]]
        0 <= i < j < p.len() ==> pair_in_order_by(
            cell_in(after, i, col),
            cell_in(after, j, col),
            dir,
            g,
            p[i],
            p[j],
        )
}

/// In a sorted column of like cells no cell is followed by a lesser one, or by a
/// greater one where the sort descends; and rows with cells that are neither keep
/// the order that they had. Every row is still there.
pub proof fn sorted_columns_rise_or_fall<R: Fn(&str) -> Option<u64>>(
    before: TableView,
    after: TableView,
    col: usize,
    dir: SortDir,
    read: R,
    m: spec_fn(Seq<char>) -> Option<u64>,
    kind: Measure,
)
    requires
        sorts(before, after, col, dir, read),
        reads_as(read, m),
        forall|i: int|
            0 <= i < before.rows.len() ==> alike(#[trigger] cell_in(before, i, col), kind, m),
    ensures
        after.sort == Some((col, dir)),
        after.columns == before.columns,
        after.hidden == before.hidden,
        exists|p: Seq<int>| #[trigger]
            taken_from(before, after, p) && in_order(after, col, dir, m, p),
{
    let p = choose|p: Seq<int>| #[trigger] sorted_from(before, after, col, dir, read, p);
    let cells = column_cells(before.rows, col);
    assert forall|i: int| 0 <= i < cells.len() implies measured(
        #[trigger] cells[i],
        kind,
        m,
    ) by {
        assert(alike(cell_in(before, i, col), kind, m));
    }
    like_cells_can_be_sorted(cells, kind, m);
    assert(taken_from(before, after, p));
    let sorted = column_cells(after.rows, col);
    assert(sorted_stably(sorted, p, behind(natural(m), dir)));
    assert forall|i: int, j: int|
        #![trigger p[i], p[j]]
        0 <= i < j < p.len() implies pair_in_order(
        cell_in(after, i, col),
        cell_in(after, j, col),
        dir,
        m,
        p[i],
        p[j],
    ) by {
        assert(sorted[i] == cell_in(after, i, col));
        assert(sorted[j] == cell_in(after, j, col));
        cells_are_ordered_by_what_they_hold(sorted[i], sorted[j], m);
        cells_are_ordered_by_what_they_hold(sorted[j], sorted[i], m);
    }
    assert(in_order(after, col, dir, m, p));
}

/// A column of spans is sorted by their lengths.
pub proof fn sorted_spans_rise_or_fall<R: Fn(&str) -> Option<u64>>(
    before: TableView,
    after: TableView,
    col: usize,
    dir: SortDir,
    read: R,
    m: spec_fn(Seq<char>) -> Option<u64>,
    i: int,
    j: int,
)
    requires
        sorts(before, after, col, dir, read),
        reads_as(read, m),
        forall|k: int|
            0 <= k < before.rows.len() ==> (#[trigger] cell_in(before, k, col)) is Duration,
        0 <= i < j < after.rows.len(),
    ensures
        (match (cell_in(after, i, col), cell_in(after, j, col)) {
            (CellValue::Duration(a), CellValue::Duration(b)) => match dir {
                SortDir::Ascending => a.secs * 1_000_000_000 + a.nanos <= b.secs * 1_000_000_000
                    + b.nanos,
                SortDir::Descending => a.secs * 1_000_000_000 + a.nanos >= b.secs * 1_000_000_000
                    + b.nanos,
            },
            _ => false,
        }),
{
    sorted_columns_rise_or_fall(before, after, col, dir, read, m, Measure::Duration);
    let p = choose|p: Seq<int>| #[trigger]
        taken_from(before, after, p) && in_order(after, col, dir, m, p);
    assert(0 <= p[i] < before.rows.len() && 0 <= p[j] < before.rows.len());
    assert(cell_in(before, p[i], col) is Duration);
    assert(cell_in(before, p[j], col) is Duration);
}

/// Sorting with a comparison of one's own leaves no cell before one that it
/// compares as less, or as greater where the sort descends; and rows with cells
/// that it compares as equal keep the order that they had.
pub proof fn a_comparison_of_ones_own_decides<F: Fn(&CellValue, &CellValue) -> Ordering>(
    before: TableView,
    after: TableView,
    col: usize,
    dir: SortDir,
    compare: F,
    g: spec_fn(CellValue, CellValue) -> Ordering,
)
    requires
        sorts_with(before, after, col, dir, compare),
        compares_as(compare, g),
        total_on(column_cells(before.rows, col), g),
    ensures
        after.sort == Some((col, dir)),
        after.columns == before.columns,
        after.hidden == before.hidden,
        exists|p: Seq<int>| #[trigger]
            taken_from(before, after, p) && in_order_by(after, col, dir, g, p),
{
    let p = choose|p: Seq<int>|
        {
            &&& #[trigger] rearranged(before.rows, after.rows, p)
            &&& rearranged(before.orig, after.orig, p)
            &&& forall|g: spec_fn(CellValue, CellValue) -> Ordering|
                compares_as(compare, g) && #[trigger] total_on(column_cells(before.rows, col), g)
                    ==> sorted_stably(column_cells(after.rows, col), p, behind(g, dir))
        };
    let cells = column_cells(before.rows, col);
    let sorted = column_cells(after.rows, col);
    assert(taken_from(before, after, p));
    assert forall|i: int, j: int|
        #![trigger p[i], p[j]]
        0 <= i < j < p.len() implies pair_in_order_by(
        cell_in(after, i, col),
        cell_in(after, j, col),
        dir,
        g,
        p[i],
        p[j],
    ) by {
        let a = cell_in(after, i, col);
        let b = cell_in(after, j, col);
        assert(sorted[i] == a && sorted[j] == b);
        assert(cells[p[i]] == a && cells[p[j]] == b);
        assert(g(cells[p[i]], cells[p[j]]) == g(a, b));
        assert(g(cells[p[j]], cells[p[i]]) == g(b, a));
    }
    assert(in_order_by(after, col, dir, g, p));
}

/// The standard library's names for the orders are less, equal and greater.
pub proof fn orders_keep_their_names(o: Order)
    ensures
        o is Before <==> ordering(o) == Ordering::Less,
        o is Same <==> ordering(o) == Ordering::Equal,
        o is After <==> ordering(o) == Ordering::Greater,
{
}

/// The opposite direction is the other one.
pub proof fn directions_are_opposite(dir: SortDir)
    ensures
        dir.opposite() != dir,
        dir.opposite().opposite() == dir,
{
}

/// Inserted in some order, the rows stand in `as_inserted` at the places at which
/// they were inserted.
pub proof fn rows_go_back_to_their_places(t: TableView, i: int)
    requires
        t.wf(),
        0 <= i < t.rows.len(),
    ensures
        t.as_inserted().len() == t.rows.len(),
        t.as_inserted()[t.orig[i] as int] == t.rows[i],
{
    let k = t.orig[i];
    assert(t.orig.contains(k));
    let at = t.orig.index_of(k);
    assert(t.orig[at] == k);
    if at < i {
        assert(t.orig[at] != t.orig[i]);
    } else if i < at {
        assert(t.orig[i] != t.orig[at]);
    }
}

/// Moving an item puts it where it is wanted and leaves the others in their
/// order.
pub proof fn a_move_leaves_the_others_in_order<T>(s: Seq<T>, from: int, to: int)
    requires
        0 <= from < s.len(),
        0 <= to < s.len(),
    ensures
        moved(s, from, to).len() == s.len(),
        moved(s, from, to)[to] == s[from],
        moved(s, from, to).remove(to) == s.remove(from),
{
    assert(moved(s, from, to).remove(to) =~= s.remove(from));
}

/// An index goes where its item goes: that of the moved item to its new place, and
/// those of the others so that they keep their order and leave no gap.
pub proof fn indices_go_with_their_items(from: int, to: int, i: int, j: int, n: int)
    requires
        0 <= from < n,
        0 <= to < n,
        0 <= i < n,
        0 <= j < n,
    ensures
        0 <= remapped(from, to, i) < n,
        remapped(from, to, from) == to,
        i != j ==> remapped(from, to, i) != remapped(from, to, j),
        i != from && j != from && i < j ==> remapped(from, to, i) < remapped(from, to, j),
        i < from && i < to || i > from && i > to ==> remapped(from, to, i) == i,
{
}

/// The hidden columns are listed in order, each with its header, and no other.
pub proof fn hidden_columns_are_listed(t: TableView, n: nat)
    requires
        n <= t.columns.len() <= usize::MAX,
    ensures
        forall|i: int|
            0 <= i < hidden_below(t, n).len() ==> {
                let (c, header) = #[trigger] hidden_below(t, n)[i];
                c < n && t.hidden.contains(c) && header == t.columns[c as int].header@
            },
        forall|i: int, j: int|
            0 <= i < j < hidden_below(t, n).len() ==> (#[trigger] hidden_below(t, n)[i]).0 < (
            #[trigger] hidden_below(t, n)[j]).0,
        forall|c: usize|
            c < n && #[trigger] t.hidden.contains(c) ==> exists|i: int|
                0 <= i < hidden_below(t, n).len() && (#[trigger] hidden_below(t, n)[i]).0 == c,
    decreases n,
{
    if n > 0 {
        let k = (n - 1) as nat;
        hidden_columns_are_listed(t, k);
        let rest = hidden_below(t, k);
        let all = hidden_below(t, n);
        assert forall|c: usize| c < n && #[trigger] t.hidden.contains(c) implies exists|i: int|
            0 <= i < all.len() && (#[trigger] all[i]).0 == c by {
            if c < k {
                let i = choose|i: int| 0 <= i < rest.len() && (#[trigger] rest[i]).0 == c;
                assert(all[i] == rest[i]);
            } else {
                assert(all[rest.len() as int].0 == c);
            }
        }
        assert forall|i: int| 0 <= i < all.len() implies ({
            let (c, header) = #[trigger] all[i];
            c < n && t.hidden.contains(c) && header == t.columns[c as int].header@
        }) by {
            if i < rest.len() {
                assert(all[i] == rest[i]);
            }
        }
        assert forall|i: int, j: int| 0 <= i < j < all.len() implies (#[trigger] all[i]).0 < (
        #[trigger] all[j]).0 by {
            assert(all[i] == rest[i]);
            if j < rest.len() {
                assert(all[j] == rest[j]);
            }
        }
    }
}

} // verus!
