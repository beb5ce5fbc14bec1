//! What stands in the tree for a window, a header and the marks.

use rdom_tui::NodeId;
use vstd::prelude::*;

use crate::clear::cleared;
use crate::data::{cell_text, CellValue};
use crate::dom::{
    column_sizes, has_attr, has_tag, is_element, widths_kept, with_columns_sized,
    BoxSize, Nodes,
};
use crate::draw::{
    cell_ids, has_bottom, has_top, hidden_flags, no_cells, piece_built, spacer_height, spacer_node,
    window_drawn, window_pieces, Piece, Window,
};
use crate::grid::GridView;
use crate::header::{all_labelled, frame_built, header_built, header_label, labelled, Frame};
use crate::marks::{all_marked, all_marks, any_selected, Mark};
use crate::model::{Column, SortDir};
use crate::view::{highlighted, window_shown};
use crate::view_laws::{
    lemma_all_mark_names, lemma_marks_keep, lemma_marks_keep_style, lemma_unmarked,
    shown_cells_read_their_values, unmarked,
};
use crate::window_laws::slot_at;

verus! {

/// How many rows the window of `count` rows from `start` has.
pub open spec fn rows_shown(g: GridView, start: int, count: int) -> int {
    if start >= g.buffer.total {
        0
    } else if start + count <= g.buffer.total {
        count
    } else {
        g.buffer.total - start
    }
}

/// Is `id` a spacer that is as tall as `rows` rows, or as tall as a box can be?
pub open spec fn spaces(nodes: Nodes, id: NodeId, rows: int) -> bool {
    &&& has_tag(nodes, id, "tr"@)
    &&& has_attr(nodes, id, "data-rdom-spacer"@)
    &&& nodes[id].children.len() == 0
    &&& nodes[id].style.height matches Some(BoxSize::Fixed(h)) && (rows <= 65535 ==> h == rows) && (
    rows > 65535 ==> h == 65535)
}

/// The tree in which the window was drawn, and the marks that were then made.
pub(crate) proof fn lemma_shown(
    before: Nodes,
    after: Nodes,
    frame: Frame,
    old: Window,
    w: Window,
    g: GridView,
    start: int,
    count: int,
) -> (r: (Nodes, Seq<Mark>))
    requires
        window_shown(before, after, Some(frame), old, w, g, start, count),
    ensures
        window_drawn(cleared(before, old), r.0, frame.tbody, w, g, start, count),
        after == all_marked(with_columns_sized(r.0, column_sizes(r.0, frame.table)), r.1),
        forall|k: int|
            0 <= k < r.1.len() ==> {
                let attr = (#[trigger] r.1[k]).attr;
                attr == "data-active-row"@ || attr == "data-active-col"@ || attr
                    == "data-active-cell"@ || attr == "data-selected"@
            },
{
    let drawn = choose|drawn: Nodes|
        {
            let sized = with_columns_sized(drawn, column_sizes(drawn, frame.table));
            &&& #[trigger] window_drawn(
                cleared(before, old),
                drawn,
                frame.tbody,
                w,
                g,
                start,
                count,
            )
            &&& widths_kept(sized, frame.table)
            &&& after == if g.nav_active {
                highlighted(sized, g, Some(frame), w)
            } else {
                sized
            }
        };
    if g.nav_active {
        let marks = all_marks(g, frame.header_cells@, w);
        lemma_all_mark_names(g, frame.header_cells@, w);
        (drawn, marks)
    } else {
        (drawn, Seq::empty())
    }
}

proof fn lemma_spacer_unmarked()
    ensures
        "data-rdom-spacer"@ != "data-active-row"@,
        "data-rdom-spacer"@ != "data-active-col"@,
        "data-rdom-spacer"@ != "data-active-cell"@,
        "data-rdom-spacer"@ != "data-selected"@,
{
    reveal_strlit("data-rdom-spacer");
    reveal_strlit("data-active-row");
    reveal_strlit("data-active-col");
    reveal_strlit("data-active-cell");
    reveal_strlit("data-selected");
    assert("data-rdom-spacer"@[5] == 'r');
    assert("data-active-row"@[5] == 'a');
    assert("data-active-col"@[5] == 'a');
    assert("data-active-cell"@[5] == 'a');
    assert("data-selected"@[5] == 's');
}

/// A window that is shown stands in the body behind what else is there: its rows in
/// their order, as many as there are and it asks for; and where the body scrolls, a
/// spacer above them for the rows before, and one below for the rows after.
pub proof fn windows_stand_between_their_spacers(
    before: Nodes,
    after: Nodes,
    frame: Frame,
    old: Window,
    w: Window,
    g: GridView,
    start: int,
    count: int,
)
    requires
        window_shown(before, after, Some(frame), old, w, g, start, count),
        0 <= start,
        0 <= count,
    ensures
        ({
            let kids = cleared(before, old)[frame.tbody].children;
            let end = start + w.rows@.len();
            let top = g.scroll_mode && start > 0;
            let bottom = g.scroll_mode && (if start + count < g.buffer.total {
                start + count
            } else {
                g.buffer.total as int
            }) < g.buffer.total;
            let above: int = if top {
                1
            } else {
                0
            };
            let s = w.spacers@;
            &&& w.rows@.len() == rows_shown(g, start, count)
            &&& s.len() == above + (if bottom {
                1int
            } else {
                0
            })
            &&& after[frame.tbody].children == kids + s.take(above) + w.rows@ + s.skip(above)
            &&& top ==> spaces(after, s[0], start)
            &&& bottom ==> spaces(after, s[above], g.buffer.total - (if start + count
                < g.buffer.total {
                start + count
            } else {
                g.buffer.total as int
            }))
        }),
{
    let (drawn, marks) = lemma_shown(before, after, frame, old, w, g, start, count);
    lemma_spacer_unmarked();
    let sized = with_columns_sized(drawn, column_sizes(drawn, frame.table));
    lemma_marks_keep(sized, marks, frame.tbody);
    let top: nat = if has_top(g, start) {
        1
    } else {
        0
    };
    let bottom: nat = if has_bottom(g, start, count) {
        1
    } else {
        0
    };
    let ids = w.spacers@.take(top as int) + w.rows@ + w.spacers@.skip(top as int);
    let tds = no_cells(top) + cell_ids(w.cells@) + no_cells(bottom);
    let pieces = window_pieces(g, start, count);
    let hidden = hidden_flags(g.table);
    let kids = cleared(before, old)[frame.tbody].children;
    assert(kids + ids =~= kids + w.spacers@.take(top as int) + w.rows@ + w.spacers@.skip(
        top as int,
    ));
    if top == 1 {
        assert(ids[0] == w.spacers@[0]);
        assert(piece_built(drawn, ids[0], Some(frame.tbody), tds[0], pieces[0], hidden));
        lemma_spaces(drawn, sized, marks, after, ids[0], start);
    }
    if bottom == 1 {
        let at = top + w.rows@.len();
        assert(ids[at as int] == w.spacers@[top as int]);
        assert(pieces[at as int] == (Piece::Spacer {
            height: spacer_height(g.buffer.total - g.window_end(start, count)),
        }));
        assert(piece_built(
            drawn,
            ids[at as int],
            Some(frame.tbody),
            tds[at as int],
            pieces[at as int],
            hidden,
        ));
        lemma_spaces(
            drawn,
            sized,
            marks,
            after,
            ids[at as int],
            g.buffer.total - g.window_end(start, count),
        );
    }
}

proof fn lemma_spaces(
    drawn: Nodes,
    sized: Nodes,
    marks: Seq<Mark>,
    after: Nodes,
    id: NodeId,
    rows: int,
)
    requires
        after == all_marked(sized, marks),
        exists|sizes: Map<NodeId, u16>| sized == #[trigger] with_columns_sized(drawn, sizes),
        drawn.contains_key(id),
        exists|parent: Option<NodeId>|
            drawn[id] == #[trigger] spacer_node(spacer_height(rows), parent),
        rows >= 0,
        forall|k: int| 0 <= k < marks.len() ==> (#[trigger] marks[k]).attr != "data-rdom-spacer"@,
    ensures
        spaces(after, id, rows),
{
    let sizes = choose|sizes: Map<NodeId, u16>|
        sized == #[trigger] with_columns_sized(drawn, sizes);
    lemma_marks_keep(sized, marks, id);
    assert(unmarked(marks, id, "data-rdom-spacer"@));
    lemma_unmarked(sized, marks, id, "data-rdom-spacer"@);
    lemma_marks_keep_style(sized, marks, id);
}

/// Does a cell hold `text` as its only content?
pub open spec fn reads(nodes: Nodes, td: NodeId, text: Seq<char>) -> bool {
    &&& nodes[td].children.len() == 1
    &&& nodes.contains_key(nodes[td].children[0])
    &&& nodes[nodes[td].children[0]].kind is Text
    &&& nodes[nodes[td].children[0]].data == text
}

/// Each cell of a window that is shown reads as the cell of its row in its column,
/// and as nothing where the row is too short; where the row is not at hand it is
/// empty and marked as loading. A cell of a hidden column is marked so, and a cell
/// with a status with its level, and no other cells are.
pub proof fn windows_show_the_cells_of_their_rows(
    before: Nodes,
    after: Nodes,
    frame: Frame,
    old: Window,
    w: Window,
    g: GridView,
    start: int,
    count: int,
    i: int,
    c: int,
)
    requires
        window_shown(before, after, Some(frame), old, w, g, start, count),
        0 <= i < w.rows@.len(),
        0 <= c < g.table.columns.len(),
    ensures
        ({
            let tr = w.rows@[i];
            let td = after[tr].children[c];
            &&& has_tag(after, tr, "tr"@)
            &&& after[tr].parent == Some(frame.tbody)
            &&& after[tr].children.len() == g.table.columns.len()
            &&& td == w.cells@[i]@[c]
            &&& has_tag(after, td, "td"@)
            &&& has_attr(after, td, "data-vt-hidden"@) <==> g.table.hidden.contains(c as usize)
            &&& has_attr(after, td, "data-vt-loading"@) <==> slot_at(g.buffer, start + i) is None
            &&& match slot_at(g.buffer, start + i) {
                Some(row) => if c < row.cells.len() {
                    &&& reads(after, td, cell_text(row.cells[c]))
                    &&& match row.cells[c] {
                        CellValue::Status { text, level } => has_attr(after, td, "data-vt-status"@)
                            && after[td].attrs["data-vt-status"@] == level.attr(),
                        _ => !has_attr(after, td, "data-vt-status"@),
                    }
                } else {
                    reads(after, td, Seq::empty())
                },
                None => after[td].children.len() == 0,
            }
        }),
{
    shown_cells_read_their_values(before, after, frame, old, w, g, start, count, i, c);
}

/// A row is marked as selected exactly if one of its cells is selected.
pub proof fn a_row_is_selected_with_one_of_its_cells(g: GridView, row: usize, n: nat, c: usize)
    ensures
        c < n && g.cell_selected(row, c) ==> any_selected(g, row, n),
        any_selected(g, row, n) ==> exists|k: usize| k < n && #[trigger] g.cell_selected(row, k),
{
}

/// Does the header `th` show how the table is sorted by its column?
pub open spec fn shows_sort(nodes: Nodes, th: NodeId, g: GridView, c: int) -> bool {
    let text = nodes[th].children[0];
    let header = g.table.columns[c].header@;
    match g.table.sort {
        Some((col, SortDir::Ascending)) => if col == c {
            &&& has_attr(nodes, th, "data-sort"@)
            &&& nodes[th].attrs["data-sort"@] == "asc"@
            &&& nodes[text].data == header + g.glyphs.0
        } else {
            !has_attr(nodes, th, "data-sort"@) && nodes[text].data == header
        },
        Some((col, SortDir::Descending)) => if col == c {
            &&& has_attr(nodes, th, "data-sort"@)
            &&& nodes[th].attrs["data-sort"@] == "desc"@
            &&& nodes[text].data == header + g.glyphs.1
        } else {
            !has_attr(nodes, th, "data-sort"@) && nodes[text].data == header
        },
        None => !has_attr(nodes, th, "data-sort"@) && nodes[text].data == header,
    }
}

/// Are the header cells elements, each with a text of its own as its first child?
pub open spec fn heads_stand(nodes: Nodes, ths: Seq<NodeId>) -> bool {
    &&& ths.no_duplicates()
    &&& forall|c: int|
        0 <= c < ths.len() ==> is_element(nodes, #[trigger] ths[c])
            && nodes[ths[c]].children.len() > 0 && nodes.contains_key(nodes[ths[c]].children[0])
            && nodes[nodes[ths[c]].children[0]].kind is Text
    &&& forall|c: int, d: int|
        0 <= c < d < ths.len() ==> nodes[#[trigger] ths[c]].children[0]
            != nodes[#[trigger] ths[d]].children[0]
}

proof fn lemma_labelled_one(
    nodes: Nodes,
    th: NodeId,
    label: (Option<Seq<char>>, Seq<char>),
    k: NodeId,
)
    requires
        is_element(nodes, th),
        nodes[th].children.len() > 0,
        nodes.contains_key(nodes[th].children[0]),
        nodes[nodes[th].children[0]].kind is Text,
    ensures
        ({
            let n = labelled(nodes, th, label);
            let text = nodes[th].children[0];
            &&& n.contains_key(k) == nodes.contains_key(k)
            &&& nodes.contains_key(k) ==> n[k].kind == nodes[k].kind && n[k].children
                == nodes[k].children
            &&& k != text && nodes.contains_key(k) ==> n[k].data == nodes[k].data
            &&& k != th && nodes.contains_key(k) ==> n[k].attrs == nodes[k].attrs
            &&& n[text].data == label.1
            &&& label.0 is Some ==> n[th].attrs.contains_key("data-sort"@)
                && n[th].attrs["data-sort"@] == label.0.unwrap()
            &&& label.0 is None ==> !n[th].attrs.contains_key("data-sort"@)
        }),
{
}

/// Each header reads as its column's header and, where the table is sorted by its
/// column, ends in the glyph of the direction and carries its name; no other does.
pub proof fn headers_show_how_the_table_is_sorted(nodes: Nodes, ths: Seq<NodeId>, g: GridView)
    requires
        heads_stand(nodes, ths),
        ths.len() <= g.table.columns.len(),
    ensures
        heads_stand(all_labelled(nodes, ths, g), ths),
        forall|c: int|
            0 <= c < ths.len() ==> shows_sort(
                all_labelled(nodes, ths, g),
                #[trigger] ths[c],
                g,
                c,
            ),
{
    lemma_labelled_to(nodes, ths, g, ths.len() as int);
    assert(ths.take(ths.len() as int) =~= ths);
}

proof fn lemma_labelled_to(nodes: Nodes, ths: Seq<NodeId>, g: GridView, n: int)
    requires
        heads_stand(nodes, ths),
        0 <= n <= ths.len() <= g.table.columns.len(),
    ensures
        heads_stand(all_labelled(nodes, ths.take(n), g), ths),
        forall|c: int|
            0 <= c < ths.len() ==> all_labelled(nodes, ths.take(n), g)[#[trigger] ths[c]].children
                == nodes[ths[c]].children,
        forall|c: int|
            0 <= c < n ==> shows_sort(
                all_labelled(nodes, ths.take(n), g),
                #[trigger] ths[c],
                g,
                c,
            ),
    decreases n,
{
    if n > 0 {
        let some = ths.take(n);
        assert(some.drop_last() =~= ths.take(n - 1));
        lemma_labelled_to(nodes, ths, g, n - 1);
        let mid = all_labelled(nodes, ths.take(n - 1), g);
        let th = ths[n - 1];
        let label = header_label(g, n - 1);
        let end = labelled(mid, th, label);
        assert(some.last() == th);
        assert(end == all_labelled(nodes, some, g));
        assert forall|c: int| 0 <= c < ths.len() implies is_element(end, #[trigger] ths[c])
            && end[ths[c]].children == mid[ths[c]].children && end.contains_key(
            end[ths[c]].children[0],
        ) && end[end[ths[c]].children[0]].kind is Text by {
            lemma_labelled_one(mid, th, label, ths[c]);
            lemma_labelled_one(mid, th, label, mid[ths[c]].children[0]);
        }
        assert forall|c: int| 0 <= c < n implies shows_sort(end, #[trigger] ths[c], g, c) by {
            lemma_labelled_one(mid, th, label, ths[c]);
            lemma_labelled_one(mid, th, label, mid[ths[c]].children[0]);
            if c < n - 1 {
                assert(shows_sort(mid, ths[c], g, c));
                assert(ths[c] != th);
                assert(mid[ths[c]].children[0] != mid[th].children[0]);
            }
        }
    }
}

/// A table that was just mounted is a table element with a head and an empty body;
/// the head has one row, and the row one header cell for each column, which reads
/// as the column's header and asks for its width.
pub proof fn a_mounted_table_has_a_header_for_each_column(
    nodes: Nodes,
    f: Frame,
    columns: Seq<Column>,
    c: int,
)
    requires
        frame_built(nodes, f, columns),
        0 <= c < columns.len(),
    ensures
        has_tag(nodes, f.table, "table"@),
        nodes[f.table].children.len() == 2,
        has_tag(nodes, nodes[f.table].children[0], "thead"@),
        nodes[f.table].children[1] == f.tbody,
        has_tag(nodes, f.tbody, "tbody"@),
        nodes[f.tbody].children.len() == 0,
        nodes[nodes[f.table].children[0]].children.len() == 1,
        nodes[nodes[f.table].children[0]].children[0] == f.header_tr,
        has_tag(nodes, f.header_tr, "tr"@),
        nodes[f.header_tr].children.len() == columns.len(),
        nodes[f.header_tr].children[c] == f.header_cells@[c],
        has_tag(nodes, f.header_cells@[c], "th"@),
        reads(nodes, f.header_cells@[c], columns[c].header@),
        columns[c].width is None ==> nodes[f.header_cells@[c]].style.width is None,
        columns[c].width is Some ==> nodes[f.header_cells@[c]].style.width == Some(
            BoxSize::Fixed(columns[c].width.unwrap()),
        ),
{
    assert(header_built(nodes, f.header_cells@[c], Some(f.header_tr), columns[c]));
    assert(seq![f.header_tr].len() == 1);
}

} // verus!
