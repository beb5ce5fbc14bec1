//! What stays in the tree when the rows of a table are drawn anew: the header and the
//! chooser show what the change of the columns made of them.

use rdom_tui::NodeId;
use vstd::prelude::*;

use crate::chooser_laws::checkboxes_follow_the_columns;
use crate::clear::{
    cleared, lemma_shape_cleared, lemma_shape_labelled, lemma_shape_marked, lemma_shape_shape,
    lemma_shape_widths, same_shape,
};
use crate::columns::{
    clear_sort_step, headers_synced, hidden_marks, hide_step, lemma_shape_menu, menu_synced,
    move_step, relaid, sort_step, sorted_grid, width_step,
};
use crate::dom::{column_sizes, has_attr, is_below, is_element, with_columns_sized, Nodes};
use crate::draw::{all_dropped, lemma_drop_keeps, stands_clear, Window};
use crate::draw_laws::{
    headers_show_how_the_table_is_sorted, heads_stand, lemma_shown, shows_sort,
};
use crate::grid::GridView;
use crate::header::{all_labelled, all_widths_set, Frame};
use crate::marks::{all_marked, marked, Mark};
use crate::menu::Menu;
use crate::menu_laws::{
    asks_for_width, headers_ask_for_their_widths, headers_follow_the_columns, lemma_labels_keep,
    lemma_synced_frame, stands_apart,
};
use crate::model::SortDir;
use crate::view::{header_cells, refreshed, window_shown, VirtualTableView};
use crate::view_laws::{lemma_marks_keep, lemma_marks_keep_style, lemma_unmarked};

verus! {

/// Does a node stand outside the rows and spacers of a window, which are in `tbody`?
pub open spec fn is_outside(nodes: Nodes, w: Window, tbody: NodeId, k: NodeId) -> bool {
    let tops = w.rows@ + w.spacers@;
    &&& k != tbody
    &&& stands_clear(nodes, tops, k)
    &&& forall|i: int|
        0 <= i < tops.len() && nodes.contains_key(#[trigger] tops[i]) ==> nodes[tops[i]].parent
            == Some(tbody)
}

proof fn lemma_dropped_parents(nodes: Nodes, ids: Seq<NodeId>, k: NodeId)
    requires
        all_dropped(nodes, ids).contains_key(k),
    ensures
        nodes.contains_key(k),
        all_dropped(nodes, ids)[k].parent == nodes[k].parent,
    decreases ids.len(),
{
    if ids.len() > 0 {
        lemma_dropped_parents(nodes, ids.drop_last(), k);
    }
}

proof fn lemma_below_less(nodes: Nodes, ids: Seq<NodeId>, top: NodeId, k: NodeId)
    ensures
        is_below(all_dropped(nodes, ids), top, k) ==> is_below(nodes, top, k),
    decreases ids.len(),
{
    if ids.len() > 0 {
        lemma_below_less(nodes, ids.drop_last(), top, k);
        lemma_drop_keeps(all_dropped(nodes, ids.drop_last()), ids.last(), top, k);
    }
}

proof fn lemma_dropped_outside(nodes: Nodes, ids: Seq<NodeId>, tbody: NodeId, k: NodeId)
    requires
        k != tbody,
        nodes.contains_key(k),
        forall|i: int| 0 <= i < ids.len() ==> !is_below(nodes, #[trigger] ids[i], k),
        forall|i: int|
            0 <= i < ids.len() && nodes.contains_key(#[trigger] ids[i]) ==> nodes[ids[i]].parent
                == Some(tbody),
    ensures
        all_dropped(nodes, ids).contains_key(k),
        all_dropped(nodes, ids)[k] == nodes[k],
    decreases ids.len(),
{
    if ids.len() > 0 {
        let rest = ids.drop_last();
        let top = ids.last();
        assert forall|i: int| 0 <= i < rest.len() implies #[trigger] rest[i] == ids[i] by {}
        lemma_dropped_outside(nodes, rest, tbody, k);
        let mid = all_dropped(nodes, rest);
        lemma_below_less(nodes, rest, top, k);
        assert(top == ids[ids.len() - 1]);
        if mid.contains_key(top) {
            lemma_dropped_parents(nodes, rest, top);
        }
    }
}

proof fn lemma_cleared_outside(nodes: Nodes, w: Window, tbody: NodeId, k: NodeId)
    requires
        is_outside(nodes, w, tbody, k),
    ensures
        cleared(nodes, w).contains_key(k),
        cleared(nodes, w)[k] == nodes[k],
{
    let tops = w.rows@ + w.spacers@;
    let mid = all_dropped(nodes, w.rows@);
    assert forall|i: int| 0 <= i < w.rows@.len() implies #[trigger] w.rows@[i] == tops[i] by {}
    assert forall|i: int| 0 <= i < w.spacers@.len() implies #[trigger] w.spacers@[i]
        == tops[w.rows@.len() + i] by {}
    lemma_dropped_outside(nodes, w.rows@, tbody, k);
    assert forall|i: int| 0 <= i < w.spacers@.len() implies !is_below(
        mid,
        #[trigger] w.spacers@[i],
        k,
    ) && (mid.contains_key(w.spacers@[i]) ==> mid[w.spacers@[i]].parent == Some(tbody)) by {
        let top = w.spacers@[i];
        assert(top == tops[w.rows@.len() + i]);
        lemma_below_less(nodes, w.rows@, top, k);
        if mid.contains_key(top) {
            lemma_dropped_parents(nodes, w.rows@, top);
        }
    }
    lemma_dropped_outside(mid, w.spacers@, tbody, k);
}

/// Showing a window leaves the nodes outside the old one, but for the marks of the
/// cursor and the selection.
pub proof fn nodes_outside_the_window_stay(
    before: Nodes,
    after: Nodes,
    frame: Frame,
    old: Window,
    w: Window,
    g: GridView,
    start: int,
    count: int,
    k: NodeId,
    attr: Seq<char>,
)
    requires
        window_shown(before, after, Some(frame), old, w, g, start, count),
        is_outside(before, old, frame.tbody, k),
        attr != "data-active-row"@ && attr != "data-active-col"@ && attr != "data-active-cell"@
            && attr != "data-selected"@,
    ensures
        after.contains_key(k),
        after[k].kind == before[k].kind,
        after[k].data == before[k].data,
        after[k].children == before[k].children,
        after[k].parent == before[k].parent,
        after[k].style == before[k].style,
        has_attr(after, k, attr) <==> has_attr(before, k, attr),
        has_attr(before, k, attr) ==> after[k].attrs[attr] == before[k].attrs[attr],
{
    let (drawn, marks) = lemma_shown(before, after, frame, old, w, g, start, count);
    lemma_cleared_outside(before, old, frame.tbody, k);
    let sized = with_columns_sized(drawn, column_sizes(drawn, frame.table));
    assert(drawn.contains_key(k) && drawn[k] == before[k]);
    lemma_marks_keep(sized, marks, k);
    lemma_marks_keep_style(sized, marks, k);
    lemma_unmarked(sized, marks, k, attr);
}

/// Do the header cells of a mounted view stand outside its window, each with its
/// text?
pub open spec fn heads_outside(v: VirtualTableView, n: Nodes, frame: Frame) -> bool {
    &&& v.frame == Some(frame)
    &&& v.window.rows@.len() <= usize::MAX
    &&& heads_stand(n, frame.header_cells@)
    &&& frame.header_cells@.len() <= v.grid@.table.columns.len() <= usize::MAX
    &&& forall|c: int|
        0 <= c < frame.header_cells@.len() ==> is_outside(
            n,
            v.window,
            frame.tbody,
            #[trigger] frame.header_cells@[c],
        ) && is_outside(n, v.window, frame.tbody, n[frame.header_cells@[c]].children[0])
}

proof fn lemma_outside_alike(a: Nodes, b: Nodes, w: Window, tbody: NodeId, k: NodeId)
    requires
        same_shape(a, b),
        is_outside(a, w, tbody, k),
    ensures
        is_outside(b, w, tbody, k),
{
    lemma_shape_cleared(a, b, w, k);
    let tops = w.rows@ + w.spacers@;
    assert forall|i: int| 0 <= i < tops.len() && b.contains_key(#[trigger] tops[i]) implies b[
        tops[i]
    ].parent == Some(tbody) by {
        assert(b.dom().contains(tops[i]));
        assert(a.contains_key(tops[i]));
    }
}

/// What a relaid view shows of a node outside its window.
proof fn lemma_relaid_outside(
    v0: VirtualTableView,
    n: Nodes,
    v1: VirtualTableView,
    n1: Nodes,
    g1: GridView,
    frame: Frame,
    k: NodeId,
    attr: Seq<char>,
)
    requires
        relaid(v0, n, v1, n1, g1),
        v0.frame == Some(frame),
        is_outside(n, v0.window, frame.tbody, k),
        attr == "data-sort"@ || attr == "data-vt-hidden"@ || attr == "checked"@,
    ensures
        n1.contains_key(k),
        n1[k].kind == n[k].kind,
        n1[k].data == n[k].data,
        n1[k].children == n[k].children,
        n1[k].style == n[k].style,
        has_attr(n1, k, attr) <==> has_attr(n, k, attr),
        has_attr(n, k, attr) ==> n1[k].attrs[attr] == n[k].attrs[attr],
        v1.grid@.table == g1.table,
        v1.grid@.glyphs == g1.glyphs,
{
    lemma_names_apart();
    let g2 = choose|g2: GridView| #[trigger]
        refreshed(
            n,
            n1,
            v0.frame,
            v0.window,
            v1.window,
            g1,
            g2,
            v0.window.rows@.len() as usize,
        ) && v1.grid@ == g2.noted();
    nodes_outside_the_window_stay(
        n,
        n1,
        frame,
        v0.window,
        v1.window,
        g2,
        g1.window_start as int,
        v0.window.rows@.len() as usize as int,
        k,
        attr,
    );
}

proof fn lemma_names_apart()
    ensures
        "data-active-row"@.len() == 15,
        "data-active-col"@.len() == 15,
        "data-active-cell"@.len() == 16,
        "data-selected"@.len() == 13,
        "data-sort"@.len() == 9,
        "data-vt-hidden"@.len() == 14,
        "checked"@.len() == 7,
{
    reveal_strlit("data-active-row");
    reveal_strlit("data-active-col");
    reveal_strlit("data-active-cell");
    reveal_strlit("data-selected");
    reveal_strlit("data-sort");
    reveal_strlit("data-vt-hidden");
    reveal_strlit("checked");
}

/// The headers of a view that was relaid from a tree in which they show the sort.
proof fn lemma_still_shows(
    v0: VirtualTableView,
    n: Nodes,
    v1: VirtualTableView,
    n1: Nodes,
    g1: GridView,
    frame: Frame,
    c: int,
)
    requires
        relaid(v0, n, v1, n1, g1),
        v0.frame == Some(frame),
        0 <= c < frame.header_cells@.len(),
        shows_sort(n, frame.header_cells@[c], g1, c),
        is_outside(n, v0.window, frame.tbody, frame.header_cells@[c]),
        is_outside(n, v0.window, frame.tbody, n[frame.header_cells@[c]].children[0]),
    ensures
        shows_sort(n1, frame.header_cells@[c], v1.grid@, c),
{
    let th = frame.header_cells@[c];
    lemma_relaid_outside(v0, n, v1, n1, g1, frame, th, "data-sort"@);
    lemma_relaid_outside(v0, n, v1, n1, g1, frame, n[th].children[0], "data-sort"@);
}

proof fn lemma_relabelled(
    v0: VirtualTableView,
    n0: Nodes,
    v1: VirtualTableView,
    n1: Nodes,
    g1: GridView,
    frame: Frame,
    c: int,
)
    requires
        heads_outside(v0, n0, frame),
        0 <= c < frame.header_cells@.len() <= g1.table.columns.len(),
        relaid(v0, all_labelled(n0, frame.header_cells@, g1), v1, n1, g1),
    ensures
        shows_sort(n1, frame.header_cells@[c], v1.grid@, c),
{
    let ths = frame.header_cells@;
    let n = all_labelled(n0, ths, g1);
    headers_show_how_the_table_is_sorted(n0, ths, g1);
    lemma_labels_keep(n0, ths, g1, c);
    lemma_shape_labelled(n0, ths, g1);
    lemma_outside_alike(n0, n, v0.window, frame.tbody, ths[c]);
    lemma_outside_alike(n0, n, v0.window, frame.tbody, n0[ths[c]].children[0]);
    lemma_still_shows(v0, n, v1, n1, g1, frame, c);
}

/// After a sort the headers show it: that of the sorted column ends in the glyph of
/// the direction and carries its name, and no other does.
pub proof fn headers_show_a_sort<R: Fn(&str) -> Option<u64>>(
    v0: VirtualTableView,
    n0: Nodes,
    v1: VirtualTableView,
    n1: Nodes,
    col: usize,
    dir: SortDir,
    read: R,
    frame: Frame,
    c: int,
)
    requires
        sort_step(v0, n0, v1, n1, col, dir, read),
        heads_outside(v0, n0, frame),
        0 <= c < frame.header_cells@.len(),
    ensures
        v1.grid@.table.sort == Some((col, dir)),
        shows_sort(n1, frame.header_cells@[c], v1.grid@, c),
{
    let g1 = choose|g1: GridView| #[trigger]
        sorted_grid(v0.grid@, g1, col, dir, read) && relaid(
            v0,
            all_labelled(n0, header_cells(v0.frame), g1),
            v1,
            n1,
            g1,
        );
    lemma_relabelled(v0, n0, v1, n1, g1, frame, c);
}

/// After the sort was turned off no header shows one.
pub proof fn headers_show_no_sort(
    v0: VirtualTableView,
    n0: Nodes,
    v1: VirtualTableView,
    n1: Nodes,
    frame: Frame,
    c: int,
)
    requires
        clear_sort_step(v0, n0, v1, n1),
        heads_outside(v0, n0, frame),
        0 <= c < frame.header_cells@.len(),
    ensures
        v1.grid@.table.sort is None,
        shows_sort(n1, frame.header_cells@[c], v1.grid@, c),
        !has_attr(n1, frame.header_cells@[c], "data-sort"@),
{
    let g1 = v0.grid@.after_clear_sort();
    lemma_relabelled(v0, n0, v1, n1, g1, frame, c);
}

/// After a column was moved each header shows the column that is now in its place:
/// its header, how the table is sorted by it, whether it is hidden and the width that
/// it was given.
pub proof fn headers_show_a_move(
    v0: VirtualTableView,
    n0: Nodes,
    v1: VirtualTableView,
    n1: Nodes,
    from: usize,
    to: usize,
    frame: Frame,
    c: int,
)
    requires
        move_step(v0, n0, v1, n1, from, to),
        heads_outside(v0, n0, frame),
        stands_apart(n0, v0.menu, frame.header_cells@),
        0 <= c < frame.header_cells@.len(),
        from < v0.grid@.table.columns.len(),
        to < v0.grid@.table.columns.len(),
        from != to,
    ensures
        shows_sort(n1, frame.header_cells@[c], v1.grid@, c),
        has_attr(n1, frame.header_cells@[c], "data-vt-hidden"@)
            <==> v1.grid@.table.hidden.contains(c as usize),
        asks_for_width(n1, frame.header_cells@[c], v1.grid@.table.columns[c]),
{
    let ths = frame.header_cells@;
    let th = ths[c];
    let g1 = v0.grid@.after_move(from, to);
    let n = headers_synced(v0, n0, g1);
    headers_follow_the_columns(v0, n0, g1, c);
    lemma_shape_synced(v0, n0, g1);
    lemma_outside_alike(n0, n, v0.window, frame.tbody, th);
    lemma_outside_alike(n0, n, v0.window, frame.tbody, n0[th].children[0]);
    assert(n[th].children == n0[th].children) by {
        assert(n0.contains_key(th));
    }
    lemma_still_shows(v0, n, v1, n1, g1, frame, c);
    lemma_relaid_outside(v0, n, v1, n1, g1, frame, th, "data-vt-hidden"@);
}

proof fn lemma_shape_synced(v: VirtualTableView, n: Nodes, g: GridView)
    ensures
        same_shape(n, headers_synced(v, n, g)),
{
    let ths = header_cells(v.frame);
    let named = all_labelled(n, ths, g);
    let sized = all_widths_set(named, ths, g);
    let hid = all_marked(sized, hidden_marks(g, ths));
    lemma_shape_labelled(n, ths, g);
    lemma_shape_widths(named, ths, g);
    lemma_shape_marked(sized, hidden_marks(g, ths));
    lemma_shape_menu(hid, v.menu, g);
    lemma_shape_shape(n, named, sized);
    lemma_shape_shape(n, sized, hid);
    lemma_shape_shape(n, hid, menu_synced(hid, v.menu, g));
}

/// After a column was hidden or shown its header is marked so, and those of the
/// others are as they were.
pub proof fn headers_show_what_is_hidden(
    v0: VirtualTableView,
    n0: Nodes,
    v1: VirtualTableView,
    n1: Nodes,
    col: usize,
    hidden: bool,
    frame: Frame,
    c: int,
)
    requires
        hide_step(v0, n0, v1, n1, col, hidden),
        heads_outside(v0, n0, frame),
        stands_apart(n0, v0.menu, frame.header_cells@),
        0 <= c < frame.header_cells@.len(),
        !(hidden && v0.grid@.last_visible(col)),
    ensures
        c == col ==> (has_attr(n1, frame.header_cells@[c], "data-vt-hidden"@) <==> hidden),
        c != col ==> (has_attr(n1, frame.header_cells@[c], "data-vt-hidden"@) <==> has_attr(
            n0,
            frame.header_cells@[c],
            "data-vt-hidden"@,
        )),
{
    let ths = frame.header_cells@;
    let th = ths[c];
    let g1 = v0.grid@.after_hide(col, hidden);
    let flagged = if col < ths.len() {
        marked(n0, Mark { id: ths[col as int], attr: "data-vt-hidden"@, on: hidden })
    } else {
        n0
    };
    let n = menu_synced(flagged, v0.menu, g1);
    assert(is_element(n0, ths[c]));
    lemma_flagged(v0, n0, flagged, n, g1, col, hidden, frame);
    lemma_outside_alike(n0, n, v0.window, frame.tbody, th);
    lemma_relaid_outside(v0, n, v1, n1, g1, frame, th, "data-vt-hidden"@);
    if v0.menu is Some {
        let m = v0.menu.unwrap();
        lemma_synced_frame(flagged, m.boxes@, m.texts@, g1, m.boxes@.len(), th);
    }
    if col < ths.len() && c != col {
        assert(ths[c] != ths[col as int]);
    }
}

proof fn lemma_flagged(
    v0: VirtualTableView,
    n0: Nodes,
    flagged: Nodes,
    n: Nodes,
    g1: GridView,
    col: usize,
    hidden: bool,
    frame: Frame,
)
    requires
        flagged == if col < frame.header_cells@.len() {
            marked(
                n0,
                Mark {
                    id: frame.header_cells@[col as int],
                    attr: "data-vt-hidden"@,
                    on: hidden,
                },
            )
        } else {
            n0
        },
        n == menu_synced(flagged, v0.menu, g1),
    ensures
        same_shape(n0, n),
{
    if col < frame.header_cells@.len() {
        let mark = Mark {
            id: frame.header_cells@[col as int],
            attr: "data-vt-hidden"@,
            on: hidden,
        };
        lemma_shape_marked(n0, seq![mark]);
        assert(seq![mark].drop_last() =~= Seq::<Mark>::empty());
        reveal_with_fuel(all_marked, 2);
        assert(all_marked(n0, seq![mark]) == flagged);
    }
    lemma_shape_menu(flagged, v0.menu, g1);
    lemma_shape_shape(n0, flagged, n);
}

/// After a column was hidden or shown the checkboxes of an open chooser show which
/// columns are shown.
pub proof fn checkboxes_show_what_is_hidden(
    v0: VirtualTableView,
    n0: Nodes,
    v1: VirtualTableView,
    n1: Nodes,
    col: usize,
    hidden: bool,
    frame: Frame,
    m: Menu,
    i: int,
)
    requires
        hide_step(v0, n0, v1, n1, col, hidden),
        v0.frame == Some(frame),
        v0.menu == Some(m),
        !(hidden && v0.grid@.last_visible(col)),
        0 <= i < m.boxes@.len() <= usize::MAX,
        m.boxes@.no_duplicates(),
        m.texts@.len() == m.boxes@.len(),
        forall|j: int| 0 <= j < m.boxes@.len() ==> is_element(n0, #[trigger] m.boxes@[j]),
        forall|j: int|
            0 <= j < m.texts@.len() ==> n0.contains_key(#[trigger] m.texts@[j])
                && n0[m.texts@[j]].kind is Text,
        is_outside(n0, v0.window, frame.tbody, m.boxes@[i]),
    ensures
        has_attr(n1, m.boxes@[i], "checked"@) <==> !v1.grid@.table.hidden.contains(i as usize),
{
    let ths = frame.header_cells@;
    let g1 = v0.grid@.after_hide(col, hidden);
    let flagged = if col < ths.len() {
        marked(n0, Mark { id: ths[col as int], attr: "data-vt-hidden"@, on: hidden })
    } else {
        n0
    };
    let n = menu_synced(flagged, v0.menu, g1);
    lemma_flagged(v0, n0, flagged, n, g1, col, hidden, frame);
    lemma_outside_alike(n0, n, v0.window, frame.tbody, m.boxes@[i]);
    checkboxes_follow_the_columns(flagged, m, g1, i);
    lemma_relaid_outside(v0, n, v1, n1, g1, frame, m.boxes@[i], "checked"@);
}

/// After a column was given a width its header asks for it, and those of the others
/// for theirs.
pub proof fn headers_show_a_width(
    v0: VirtualTableView,
    n0: Nodes,
    v1: VirtualTableView,
    n1: Nodes,
    col: usize,
    width: Option<u16>,
    frame: Frame,
    c: int,
)
    requires
        width_step(v0, n0, v1, n1, col, width),
        heads_outside(v0, n0, frame),
        0 <= c < frame.header_cells@.len(),
    ensures
        asks_for_width(n1, frame.header_cells@[c], v1.grid@.table.columns[c]),
{
    let ths = frame.header_cells@;
    let g1 = v0.grid@.after_width(col, width);
    let n = all_widths_set(n0, ths, g1);
    headers_ask_for_their_widths(n0, ths, g1, c);
    lemma_shape_widths(n0, ths, g1);
    lemma_outside_alike(n0, n, v0.window, frame.tbody, ths[c]);
    lemma_relaid_outside(v0, n, v1, n1, g1, frame, ths[c], "data-vt-hidden"@);
}

} // verus!
