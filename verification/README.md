# rdom-virtualtable

A virtualized table for the rdom document tree, written and verified in Verus.
Of a dataset of any size only a window of rows is ever drawn; a cursor, a
selection, sorting, column layout, a column chooser and a windowed data source
work over the whole of it.

## Layout

- `src/` is the library; every item of it is verified.
  - `data`, `number`, `text`, `order`: cells, keys, and how they read and compare.
  - `model`, `sorting`, `natural`: the table model and its stable sort.
  - `selection`, `grid_cursor`, `window`: the selection, the cursor, the buffer of
    rows at hand.
  - `grid`: the state of a view, free of the document tree.
  - `dom`: the document tree as the library sees it, and the calls into `rdom-tui`
    that it trusts.
  - `draw`, `clear`, `grow`, `header`, `marks`, `menu`: drawing into the tree.
  - `view`, `source`, `columns`, `chooser`, `restore`, `hit`, `input`, `query`,
    `document`: the operations of `VirtualTableView`.
  - `rules`: the default style rules.
  - `grid_laws`, `view_laws`, `width_laws`, `chooser_laws`, `restore_laws`, and the
    public proof functions of `model`, `sorting`, `natural`, `selection`,
    `grid_cursor`, `window` and `text`: what holds across operations.
- `app/` makes the library a widget: a shared handle, event listeners, callbacks
  and the values of floating point.
- `tests/` runs the library against a real tree.

## Numbers

The library holds no floating point. A number cell carries the bit pattern of a
double and its shortest decimal text; where sorting reads numbers from texts, the
caller passes the function that does so.
