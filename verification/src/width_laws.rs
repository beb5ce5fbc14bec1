//! A column has the width that it was given.

use rdom_tui::NodeId;
use vstd::prelude::*;

use crate::clear::cleared;
use crate::columns::{relaid, width_step};
use crate::dom::{
    cells_of, children_of, closed_below, column_fixed, column_sizes, fixed_width, has_tag,
    is_element, is_row_group, is_row_of, used_width_of, widths_kept, with_columns_sized, Nodes,
};
use crate::draw::{
    all_dropped, cell_ids, has_bottom, has_top, in_row, no_cells, window_drawn, Window,
};
use crate::grid::GridView;
use crate::grow::{lemma_drawn_node, lemma_row_tags};
use crate::header::{all_widths_set, frame_built, header_built, Frame};
use crate::marks::{all_marked, all_marks, Mark};
use crate::model::Column;
use crate::view::{header_cells, highlighted, refreshed, window_shown, VirtualTableView};
use crate::view_laws::lemma_marks_keep;

verus! {

/// Is the header row, its cell `c` being the header of column `c`, the only row
/// of a table whose body is empty?
pub open spec fn heads_column(nodes: Nodes, frame: Frame, c: int) -> bool {
    &&& closed_below(nodes)
    &&& nodes.contains_key(frame.table)
    &&& has_tag(nodes, frame.tbody, "tbody"@)
    &&& frame.table != frame.tbody
    &&& is_row_of(nodes, frame.table, frame.header_tr)
    &&& 0 <= c < frame.header_cells@.len()
    &&& c < cells_of(nodes, frame.header_tr).len()
    &&& cells_of(nodes, frame.header_tr)[c] == frame.header_cells@[c]
    &&& forall|row: NodeId| #[trigger]
        is_row_of(nodes, frame.table, row) ==> row == frame.header_tr
}

/// The rows of a table that shows a window are the header and those of the
/// window.
proof fn lemma_shown_rows(
    base: Nodes,
    drawn: Nodes,
    frame: Frame,
    w: Window,
    g: GridView,
    start: int,
    count: int,
    c: int,
    row: NodeId,
)
    requires
        window_drawn(base, drawn, frame.tbody, w, g, start, count),
        heads_column(base, frame, c),
        is_row_of(drawn, frame.table, row),
    ensures
        base.contains_key(row) ==> row == frame.header_tr,
{
    lemma_row_tags();
    if base.contains_key(row) {
        let table = frame.table;
        assert(children_of(drawn, table) == children_of(base, table));
        if !children_of(drawn, table).contains(row) {
            let group = choose|group: NodeId| #[trigger]
                children_of(drawn, table).contains(group) && is_row_group(drawn, group)
                    && children_of(drawn, group).contains(row);
            assert(base[table].children.contains(group));
            assert(base.contains_key(group));
            if group == frame.tbody {
                let added = drawn[group].children;
                let old = base[group].children;
                let at = choose|at: int| 0 <= at < added.len() && added[at] == row;
                if at < old.len() {
                    assert(old[at] == row);
                    assert(children_of(base, group).contains(row));
                } else {
                    let top: nat = if has_top(g, start) {
                        1
                    } else {
                        0
                    };
                    let bottom: nat = if has_bottom(g, start, count) {
                        1
                    } else {
                        0
                    };
                    let ids = w.spacers@.take(top as int) + w.rows@ + w.spacers@.skip(top as int);
                    let tds = no_cells(top) + cell_ids(w.cells@) + no_cells(bottom);
                    assert(row == ids[at - old.len()]);
                    assert(in_row(drawn, ids[at - old.len()], tds[at - old.len()], row));
                    assert(false);
                }
            }
            assert(children_of(base, group).contains(row));
            assert(is_row_group(base, group));
        }
        assert(is_row_of(base, table, row));
    }
}

/// The cells of the header row are the same when a window is drawn.
proof fn lemma_header_cells_same(
    base: Nodes,
    drawn: Nodes,
    frame: Frame,
    w: Window,
    g: GridView,
    start: int,
    count: int,
    c: int,
)
    requires
        window_drawn(base, drawn, frame.tbody, w, g, start, count),
        heads_column(base, frame, c),
    ensures
        is_row_of(drawn, frame.table, frame.header_tr),
        cells_of(drawn, frame.header_tr) == cells_of(base, frame.header_tr),
{
    lemma_row_tags();
    let tr = frame.header_tr;
    assert(tr != frame.tbody);
    assert(drawn[tr] == base[tr]);
    let kids = base[tr].children;
    let p = |k: NodeId| has_tag(base, k, "td"@) || has_tag(base, k, "th"@);
    let q = |k: NodeId| has_tag(drawn, k, "td"@) || has_tag(drawn, k, "th"@);
    assert forall|i: int| 0 <= i < kids.len() implies p(#[trigger] kids[i]) == q(kids[i]) by {
        assert(kids.contains(kids[i]));
        assert(base.contains_key(kids[i]));
        assert(drawn[kids[i]].kind == base[kids[i]].kind);
    }
    lemma_filters_alike(kids, p, q);
    assert(children_of(drawn, frame.table) == children_of(base, frame.table));
    if !children_of(base, frame.table).contains(tr) {
        let group = choose|group: NodeId| #[trigger]
            children_of(base, frame.table).contains(group) && is_row_group(base, group)
                && children_of(base, group).contains(tr);
        assert(drawn.contains_key(group));
        assert(children_of(drawn, frame.table).contains(group));
        if group == frame.tbody {
            let at = choose|at: int|
                0 <= at < base[group].children.len() && base[group].children[at] == tr;
            assert(drawn[group].children[at] == tr);
        }
        assert(children_of(drawn, group).contains(tr));
    }
}

/// Filters that agree on the items keep the same ones.
proof fn lemma_filters_alike<T>(s: Seq<T>, p: spec_fn(T) -> bool, q: spec_fn(T) -> bool)
    requires
        forall|i: int| 0 <= i < s.len() ==> p(#[trigger] s[i]) == q(s[i]),
    ensures
        s.filter(p) == s.filter(q),
    decreases s.len(),
{
    reveal(Seq::filter);
    if s.len() > 0 {
        let rest = s.drop_last();
        assert forall|i: int| 0 <= i < rest.len() implies p(#[trigger] rest[i]) == q(rest[i]) by {
            assert(rest[i] == s[i]);
        }
        lemma_filters_alike(rest, p, q);
        assert(p(s[s.len() - 1]) == q(s[s.len() - 1]));
    }
}

/// Sizing the columns changes no row, no cell and no asked-for width.
proof fn lemma_sized_rows(nodes: Nodes, sizes: Map<NodeId, u16>, table: NodeId, row: NodeId)
    ensures
        is_row_of(with_columns_sized(nodes, sizes), table, row) == is_row_of(nodes, table, row),
        cells_of(with_columns_sized(nodes, sizes), row) == cells_of(nodes, row),
{
    let sized = with_columns_sized(nodes, sizes);
    assert forall|k: NodeId, tag: Seq<char>| #[trigger] has_tag(sized, k, tag) == has_tag(
        nodes,
        k,
        tag,
    ) by {}
    assert forall|k: NodeId| #[trigger] children_of(sized, k) == children_of(nodes, k) by {}
    let p = |k: NodeId| has_tag(sized, k, "td"@) || has_tag(sized, k, "th"@);
    let q = |k: NodeId| has_tag(nodes, k, "td"@) || has_tag(nodes, k, "th"@);
    lemma_filters_alike(children_of(nodes, row), p, q);
    if is_row_of(sized, table, row) && !children_of(sized, table).contains(row) {
        let group = choose|group: NodeId| #[trigger]
            children_of(sized, table).contains(group) && is_row_group(sized, group)
                && children_of(sized, group).contains(row);
        assert(children_of(nodes, table).contains(group));
        assert(is_row_group(nodes, group));
        assert(children_of(nodes, group).contains(row));
    }
    if is_row_of(nodes, table, row) && !children_of(nodes, table).contains(row) {
        let group = choose|group: NodeId| #[trigger]
            children_of(nodes, table).contains(group) && is_row_group(nodes, group)
                && children_of(nodes, group).contains(row);
        assert(children_of(sized, table).contains(group));
        assert(is_row_group(sized, group));
        assert(children_of(sized, group).contains(row));
    }
}

/// What a filter keeps is an item that passes it.
proof fn lemma_filtered<T>(s: Seq<T>, p: spec_fn(T) -> bool, i: int)
    requires
        0 <= i < s.filter(p).len(),
    ensures
        s.contains(s.filter(p)[i]),
        p(s.filter(p)[i]),
    decreases s.len(),
{
    reveal(Seq::filter);
    if s.len() > 0 {
        let rest = s.drop_last();
        assert(s[s.len() - 1] == s.last());
        if i < rest.filter(p).len() {
            lemma_filtered(rest, p, i);
            let at = choose|at: int| 0 <= at < rest.len() && rest[at] == rest.filter(p)[i];
            assert(s[at] == rest.filter(p)[i]);
        }
    }
}

/// A cell of a row is one of its children, and an element.
proof fn lemma_cell_is_child(nodes: Nodes, row: NodeId, i: int)
    requires
        0 <= i < cells_of(nodes, row).len(),
    ensures
        children_of(nodes, row).contains(cells_of(nodes, row)[i]),
        is_element(nodes, cells_of(nodes, row)[i]),
{
    lemma_filtered(
        children_of(nodes, row),
        |c: NodeId| has_tag(nodes, c, "td"@) || has_tag(nodes, c, "th"@),
        i,
    );
}

/// When a window is shown, the header of a column that asks for a fixed width
/// gets it.
pub proof fn shown_headers_have_their_widths(
    before: Nodes,
    after: Nodes,
    frame: Frame,
    old: Window,
    w: Window,
    g: GridView,
    start: int,
    count: int,
    c: int,
    width: u16,
)
    requires
        window_shown(before, after, Some(frame), old, w, g, start, count),
        heads_column(cleared(before, old), frame, c),
        fixed_width(cleared(before, old), frame.header_cells@[c]) == Some(width),
    ensures
        used_width_of(after, frame.header_cells@[c]) == Some(width),
{
    let base = cleared(before, old);
    let table = frame.table;
    let tr = frame.header_tr;
    let th = frame.header_cells@[c];
    let drawn = choose|drawn: Nodes|
        {
            let sized = with_columns_sized(drawn, column_sizes(drawn, frame.table));
            &&& #[trigger] window_drawn(base, drawn, frame.tbody, w, g, start, count)
            &&& widths_kept(sized, frame.table)
            &&& after == if g.nav_active {
                highlighted(sized, g, Some(frame), w)
            } else {
                sized
            }
        };
    let sizes = column_sizes(drawn, table);
    let sized = with_columns_sized(drawn, sizes);
    lemma_header_cells_same(base, drawn, frame, w, g, start, count, c);
    lemma_sized_rows(drawn, sizes, table, tr);
    assert(fixed_width(drawn, th) == Some(width));
    assert(fixed_width(sized, th) == Some(width));
    assert forall|row: NodeId| #[trigger]
        is_row_of(sized, table, row) && 0 <= c < cells_of(sized, row).len() implies match fixed_width(
        sized,
        cells_of(sized, row)[c],
    ) {
        Some(v) => v <= width,
        None => true,
    } by {
        lemma_sized_rows(drawn, sizes, table, row);
        lemma_shown_rows(base, drawn, frame, w, g, start, count, c, row);
        if row != tr {
            assert(!base.contains_key(row));
            lemma_drawn_node(base, drawn, frame.tbody, w, g, start, count, row);
            lemma_cell_is_child(drawn, row, c);
            let cell = cells_of(drawn, row)[c];
            assert(drawn[row].children.contains(cell));
            lemma_drawn_node(base, drawn, frame.tbody, w, g, start, count, cell);
        }
    }
    assert(column_fixed(sized, table, c, width));
    assert(used_width_of(sized, th) == Some(width));
    let marks = if g.nav_active {
        all_marks(g, frame.header_cells@, w)
    } else {
        Seq::<Mark>::empty()
    };
    assert(after == all_marked(sized, marks));
    lemma_marks_keep(sized, marks, th);
}

/// Dropping changes no kind and no style.
pub(crate) proof fn lemma_dropped_style(nodes: Nodes, ids: Seq<NodeId>, k: NodeId)
    requires
        all_dropped(nodes, ids).contains_key(k),
    ensures
        nodes.contains_key(k),
        all_dropped(nodes, ids)[k].style == nodes[k].style,
        all_dropped(nodes, ids)[k].kind == nodes[k].kind,
    decreases ids.len(),
{
    if ids.len() > 0 {
        lemma_dropped_style(nodes, ids.drop_last(), k);
    }
}

/// Each header asks for its column's width.
proof fn lemma_width_asked(nodes: Nodes, ths: Seq<NodeId>, g: GridView, c: int, width: u16)
    requires
        ths.no_duplicates(),
        0 <= c < ths.len(),
        c < g.table.columns.len(),
        g.table.columns[c].width == Some(width),
        is_element(all_widths_set(nodes, ths, g), ths[c]),
    ensures
        fixed_width(all_widths_set(nodes, ths, g), ths[c]) == Some(width),
    decreases ths.len(),
{
    let rest = ths.drop_last();
    if c < rest.len() {
        assert(rest[c] == ths[c]);
        assert(ths.last() != ths[c]);
        lemma_width_asked(nodes, rest, g, c, width);
    }
}

/// A column that is given a width has it from then on: its header is that wide,
/// which is what its width reads as.
pub proof fn a_given_width_is_used(
    v0: VirtualTableView,
    n0: Nodes,
    v1: VirtualTableView,
    n1: Nodes,
    frame: Frame,
    col: usize,
    width: u16,
)
    requires
        width_step(v0, n0, v1, n1, col, Some(width)),
        v0.frame == Some(frame),
        v0.window.rows@.len() <= usize::MAX,
        col < v0.grid@.table.columns.len(),
        frame.header_cells@.no_duplicates(),
        heads_column(
            cleared(
                all_widths_set(
                    n0,
                    frame.header_cells@,
                    v0.grid@.after_width(col, Some(width)),
                ),
                v0.window,
            ),
            frame,
            col as int,
        ),
    ensures
        used_width_of(n1, header_cells(v0.frame)[col as int]) == Some(width),
{
    let g1 = v0.grid@.after_width(col, Some(width));
    let ths = frame.header_cells@;
    let n = all_widths_set(n0, ths, g1);
    let base = cleared(n, v0.window);
    let count = v0.window.rows@.len() as usize;
    assert(relaid(v0, n, v1, n1, g1));
    let g2 = choose|g2: GridView| #[trigger]
        refreshed(n, n1, v0.frame, v0.window, v1.window, g1, g2, count) && v1.grid@ == g2.noted();
    let th = ths[col as int];
    lemma_cell_is_child(base, frame.header_tr, col as int);
    assert(is_element(base, th));
    let mid = all_dropped(n, v0.window.rows@);
    lemma_dropped_style(mid, v0.window.spacers@, th);
    lemma_dropped_style(n, v0.window.rows@, th);
    lemma_width_asked(n0, ths, g1, col as int, width);
    shown_headers_have_their_widths(
        n,
        n1,
        frame,
        v0.window,
        v1.window,
        g2,
        g1.window_start as int,
        count as int,
        col as int,
        width,
    );
}

/// A table that was just mounted has its headers in its only row.
pub proof fn mounted_tables_have_their_headers(
    nodes: Nodes,
    frame: Frame,
    columns: Seq<Column>,
    c: int,
)
    requires
        frame_built(nodes, frame, columns),
        closed_below(nodes),
        0 <= c < columns.len(),
    ensures
        heads_column(nodes, frame, c),
{
    lemma_row_tags();
    reveal_strlit("table");
    reveal_strlit("thead");
    reveal_strlit("tbody");
    reveal_strlit("th");
    assert("table"@[1] == 'a' && "tbody"@[1] == 'b' && "thead"@[1] == 'h');
    assert("th"@.len() == 2);
    let table = frame.table;
    let tr = frame.header_tr;
    let head = nodes[table].children[0];
    let kids = nodes[table].children;
    assert(kids.contains(head) && kids.contains(frame.tbody));
    assert(children_of(nodes, table) == kids);
    assert(nodes[head].children.contains(tr)) by {
        assert(nodes[head].children[0] == tr);
    }
    assert(is_row_group(nodes, head));
    assert(children_of(nodes, head).contains(tr));
    assert(has_tag(nodes, tr, "tr"@));
    assert(is_row_of(nodes, table, tr));
    assert forall|row: NodeId| #[trigger] is_row_of(nodes, table, row) implies row == tr by {
        reveal_strlit("tr");
        if kids.contains(row) {
            let at = choose|at: int| 0 <= at < kids.len() && kids[at] == row;
            assert(at == 0 || at == 1);
        } else {
            let group = choose|group: NodeId| #[trigger]
                children_of(nodes, table).contains(group) && is_row_group(nodes, group)
                    && children_of(nodes, group).contains(row);
            let at = choose|at: int| 0 <= at < kids.len() && kids[at] == group;
            assert(at == 0 || at == 1);
            if at == 0 {
                let i = choose|i: int|
                    0 <= i < nodes[head].children.len() && nodes[head].children[i] == row;
                assert(i == 0);
            }
        }
    }
    let ths = frame.header_cells@;
    let p = |k: NodeId| has_tag(nodes, k, "td"@) || has_tag(nodes, k, "th"@);
    assert forall|i: int| 0 <= i < ths.len() implies p(#[trigger] ths[i]) by {
        assert(header_built(nodes, ths[i], Some(tr), columns[i]));
    }
    lemma_filter_keeps_all(ths, p);
}

proof fn lemma_filter_keeps_all<T>(s: Seq<T>, p: spec_fn(T) -> bool)
    requires
        forall|i: int| 0 <= i < s.len() ==> p(#[trigger] s[i]),
    ensures
        s.filter(p) == s,
    decreases s.len(),
{
    reveal(Seq::filter);
    if s.len() > 0 {
        let rest = s.drop_last();
        assert forall|i: int| 0 <= i < rest.len() implies p(#[trigger] rest[i]) by {
            assert(rest[i] == s[i]);
        }
        lemma_filter_keeps_all(rest, p);
        assert(p(s[s.len() - 1]));
        assert(rest.push(s.last()) =~= s);
    } else {
        assert(s.filter(p) =~= s);
    }
}

} // verus!
