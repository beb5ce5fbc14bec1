//! A virtualized table: of a dataset of any size only a window of rows is ever
//! drawn.
//!
//! [`VirtualTable`] is the model: columns, rows, sorting and reordering.
//! [`VirtualTableView`] draws a window of it into a document tree, as a
//! `<table>` element, and keeps a cursor, a selection and the column layout.
//! The rows come from the model, or are pushed by a windowed source as
//! [`Delta`]s in answer to [`WindowRequest`]s.

pub mod chooser;
pub mod chooser_laws;
pub mod clear;
pub mod column_laws;
pub mod columns;
pub mod cursor_laws;
pub mod data;
pub mod data_laws;
pub mod document;
pub mod dom;
pub mod draw;
pub mod draw_laws;
pub mod event_laws;
pub mod grid;
pub mod grid_cursor;
pub mod grid_laws;
pub mod grid_op_laws;
pub mod grow;
pub mod header;
pub mod hit;
pub mod hit_laws;
pub mod input;
pub mod input_laws;
pub mod layout_laws;
pub mod mark_laws;
pub mod marks;
pub mod menu;
pub mod menu_laws;
pub mod model;
pub mod natural;
pub mod number;
pub mod order;
pub mod query;
pub mod redraw_laws;
pub mod restore;
pub mod restore_laws;
pub mod rules;
pub mod selection;
pub mod selection_laws;
pub mod sort_laws;
pub mod sorting;
pub mod source;
pub mod source_laws;
pub mod state;
pub mod table_op_laws;
pub mod text;
pub mod value_op_laws;
pub mod view;
pub mod view_laws;
pub mod view_op_laws;
pub mod width_laws;
pub mod window;
pub mod window_laws;

pub use data::{CellValue, Delta, Duration, Row, RowKey, StatusLevel};
pub use grid_cursor::{nav_for_key, GridCursor, Nav};
pub use input::{Handled, KeyAction};
pub use model::{Column, SortDir, VirtualTable};
pub use number::Number;
pub use rules::{highlight_rules, highlight_stylesheet};
pub use selection::{GridSelection, SelectionMode};
pub use state::{ColumnState, TableState};
pub use view::{Moved, VirtualTableView};
pub use window::{SortSpec, WindowBuffer, WindowRequest};
