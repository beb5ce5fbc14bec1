//! The part of a table's state that outlives a session: the column layout and
//! the active sort, by column header.

use vstd::prelude::*;

use crate::window::SortSpec;

verus! {

/// One column's layout: its header, its explicit width (`None` means sized to
/// content) and whether it is hidden.
#[derive(Clone, Debug, PartialEq, Eq)]
pub struct ColumnState {
    pub header: String,
    pub width: Option<u16>,
    pub hidden: bool,
}

/// The columns in display order and the active sort.
#[derive(Clone, Debug, PartialEq, Eq)]
pub struct TableState {
    pub columns: Vec<ColumnState>,
    pub sort: Option<SortSpec>,
}

} // verus!
