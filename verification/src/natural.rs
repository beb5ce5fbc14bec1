//! The columns on which the natural order of cells is total.

use std::cmp::Ordering;

use vstd::prelude::*;

use crate::data::{cell_order, cell_text, CellValue};
use crate::model::{natural, total_on};
use crate::number::is_nan;
use crate::order::Order;
use crate::text::texts_are_totally_ordered;

verus! {

/// The kinds of cells that compare by one measure.
pub enum Measure {
    Number,
    Bytes,
    Duration,
    /// Texts that spell numbers.
    Numeral,
    /// Texts that spell no number.
    Word,
}

/// Is the cell empty, or a cell that `measure` can compare?
pub open spec fn measured(
    c: CellValue,
    measure: Measure,
    read: spec_fn(Seq<char>) -> Option<u64>,
) -> bool {
    match c {
        CellValue::Empty => true,
        CellValue::Number(n) => measure == Measure::Number && !is_nan(n.bits),
        CellValue::Bytes(_) => measure == Measure::Bytes,
        CellValue::Duration(_) => measure == Measure::Duration,
        _ => match read(cell_text(c)) {
            Some(bits) => measure == Measure::Numeral && !is_nan(bits),
            None => measure == Measure::Word,
        },
    }
}

/// Are the cells, but for empty ones, all of one measure?
pub open spec fn all_measured(
    cells: Seq<CellValue>,
    measure: Measure,
    read: spec_fn(Seq<char>) -> Option<u64>,
) -> bool {
    forall|i: int| 0 <= i < cells.len() ==> measured(#[trigger] cells[i], measure, read)
}

/// Cells of one measure are ordered the other way round when exchanged, and
/// what does not come after is passed on.
proof fn lemma_measured_order(
    a: CellValue,
    b: CellValue,
    c: CellValue,
    measure: Measure,
    read: spec_fn(Seq<char>) -> Option<u64>,
)
    requires
        measured(a, measure, read),
        measured(b, measure, read),
        measured(c, measure, read),
    ensures
        cell_order(b, a, read) == cell_order(a, b, read).exchanged(),
        cell_order(a, b, read) != Order::After && cell_order(b, c, read) != Order::After
            ==> cell_order(a, c, read) != Order::After,
{
    texts_are_totally_ordered(cell_text(a), cell_text(b), cell_text(c));
}

/// A column whose cells are all numbers, all byte counts, all spans of time, all
/// numerals or all words, empty cells among them or not, can be sorted: on it the
/// natural order is total.
pub proof fn like_cells_can_be_sorted(
    cells: Seq<CellValue>,
    measure: Measure,
    read: spec_fn(Seq<char>) -> Option<u64>,
)
    requires
        all_measured(cells, measure, read),
    ensures
        total_on(cells, natural(read)),
{
    let g = natural(read);
    assert forall|i: int, j: int| 0 <= i < cells.len() && 0 <= j < cells.len() implies (#[trigger] g(
        cells[i],
        cells[j],
    ) == Ordering::Greater <==> g(cells[j], cells[i]) == Ordering::Less) by {
        lemma_measured_order(cells[i], cells[j], cells[j], measure, read);
    }
    assert forall|i: int, j: int, k: int|
        0 <= i < cells.len() && 0 <= j < cells.len() && 0 <= k < cells.len() && #[trigger] g(
            cells[i],
            cells[j],
        ) != Ordering::Greater && #[trigger] g(cells[j], cells[k])
            != Ordering::Greater implies g(cells[i], cells[k]) != Ordering::Greater by {
        lemma_measured_order(cells[i], cells[j], cells[k], measure, read);
    }
}

} // verus!
