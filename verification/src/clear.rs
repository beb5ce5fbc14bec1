//! Clearing a drawn window: what is left of the tree when its rows and spacers
//! are dropped.

use rdom_tui::NodeId;
use vstd::prelude::*;

use crate::dom::{
    dropped, first_child_of, is_below, leads_down, no_style, with_attr, with_columns_sized, with_data,
    with_style, with_width, BoxStyle, NodeKind, Nodes,
};
use crate::draw::{
    all_dropped, cell_built, cell_ids, has_bottom, has_top, hidden_flags, in_row, no_cells,
    piece_built, pieces_drawn, slot_cell, stands_clear, window_drawn, window_pieces, Piece, Window,
};
use crate::grid::GridView;
use crate::header::{all_labelled, all_widths_set, header_label, header_width};
use crate::marks::{all_marked, marked, Mark};

verus! {

/// The tree without the rows and spacers of a window.
pub open spec fn cleared(nodes: Nodes, w: Window) -> Nodes {
    all_dropped(all_dropped(nodes, w.rows@), w.spacers@)
}

/// Do two trees have the same nodes with the same parents and children?
pub open spec fn same_shape(a: Nodes, b: Nodes) -> bool {
    &&& a.dom() == b.dom()
    &&& forall|k: NodeId| #[trigger]
        a.contains_key(k) ==> a[k].children == b[k].children && a[k].parent == b[k].parent
}

/// Nodes of the same shape have the same descendants.
pub(crate) proof fn lemma_shape_below(a: Nodes, b: Nodes, top: NodeId, id: NodeId)
    requires
        same_shape(a, b),
    ensures
        is_below(a, top, id) == is_below(b, top, id),
{
    if is_below(a, top, id) {
        let path = choose|path: Seq<NodeId>| #[trigger]
            leads_down(a, path) && path.len() > 0 && path.first() == top && path.last() == id;
        assert forall|i: int|
            #![trigger path[i]]
            0 <= i < path.len() - 1 implies b.contains_key(path[i]) && b[path[i]].children.contains(
            path[i + 1],
        ) by {
            assert(a.contains_key(path[i]));
        }
        assert(leads_down(b, path));
    }
    if is_below(b, top, id) {
        let path = choose|path: Seq<NodeId>| #[trigger]
            leads_down(b, path) && path.len() > 0 && path.first() == top && path.last() == id;
        assert forall|i: int|
            #![trigger path[i]]
            0 <= i < path.len() - 1 implies a.contains_key(path[i]) && a[path[i]].children.contains(
            path[i + 1],
        ) by {
            assert(b.contains_key(path[i]));
            assert(a.contains_key(path[i]));
        }
        assert(leads_down(a, path));
    }
}

/// Dropping the same node from trees of the same shape leaves the same shape.
proof fn lemma_shape_dropped(a: Nodes, b: Nodes, top: NodeId)
    requires
        same_shape(a, b),
    ensures
        same_shape(dropped(a, top), dropped(b, top)),
{
    assert(a.contains_key(top) == b.contains_key(top)) by {
        assert(a.dom().contains(top) == b.dom().contains(top));
    }
    if a.contains_key(top) {
        assert forall|k: NodeId| dropped(a, top).dom().contains(k) == dropped(
            b,
            top,
        ).dom().contains(k) by {
            lemma_shape_below(a, b, top, k);
            assert(a.dom().contains(k) == b.dom().contains(k));
        }
        assert(dropped(a, top).dom() =~= dropped(b, top).dom());
    }
}

/// Dropping the same nodes from trees of the same shape leaves the same shape.
pub(crate) proof fn lemma_shape_all_dropped(a: Nodes, b: Nodes, ids: Seq<NodeId>)
    requires
        same_shape(a, b),
    ensures
        same_shape(all_dropped(a, ids), all_dropped(b, ids)),
    decreases ids.len(),
{
    if ids.len() > 0 {
        lemma_shape_all_dropped(a, b, ids.drop_last());
        lemma_shape_dropped(
            all_dropped(a, ids.drop_last()),
            all_dropped(b, ids.drop_last()),
            ids.last(),
        );
    }
}

/// Clearing a window leaves trees of the same shape of the same shape, and what
/// stands clear of it in one does so in the other.
pub(crate) proof fn lemma_shape_cleared(a: Nodes, b: Nodes, w: Window, id: NodeId)
    requires
        same_shape(a, b),
    ensures
        same_shape(cleared(a, w), cleared(b, w)),
        stands_clear(a, w.rows@ + w.spacers@, id) == stands_clear(b, w.rows@ + w.spacers@, id),
{
    lemma_shape_all_dropped(a, b, w.rows@);
    lemma_shape_all_dropped(all_dropped(a, w.rows@), all_dropped(b, w.rows@), w.spacers@);
    let tops = w.rows@ + w.spacers@;
    assert(a.contains_key(id) == b.contains_key(id)) by {
        assert(a.dom().contains(id) == b.dom().contains(id));
    }
    assert forall|i: int| 0 <= i < tops.len() implies is_below(a, #[trigger] tops[i], id)
        == is_below(b, tops[i], id) by {
        lemma_shape_below(a, b, tops[i], id);
    }
}

/// Dropping one list after another.
proof fn lemma_drops_add(nodes: Nodes, a: Seq<NodeId>, b: Seq<NodeId>)
    ensures
        all_dropped(nodes, a + b) == all_dropped(all_dropped(nodes, a), b),
    decreases b.len(),
{
    if b.len() == 0 {
        assert(a + b =~= a);
    } else {
        assert((a + b).drop_last() =~= a + b.drop_last());
        lemma_drops_add(nodes, a, b.drop_last());
    }
}

/// Is each of `ids` a child of `tbody` with the cells `tds`, the cells' children
/// having none, and do the nodes of no two of them meet?
spec fn rows_apart(nodes: Nodes, tbody: NodeId, ids: Seq<NodeId>, tds: Seq<Seq<NodeId>>) -> bool {
    &&& ids.len() == tds.len()
    &&& forall|i: int|
        0 <= i < ids.len() ==> nodes.contains_key(#[trigger] ids[i]) && nodes[ids[i]].children
            == tds[i] && nodes[ids[i]].parent == Some(tbody)
    &&& forall|i: int, c: int|
        0 <= i < ids.len() && 0 <= c < tds[i].len() ==> nodes.contains_key(#[trigger] tds[i][c])
    &&& forall|i: int, c: int, k: NodeId|
        #![trigger tds[i][c], nodes.contains_key(k)]
        0 <= i < ids.len() && 0 <= c < tds[i].len() && nodes[tds[i][c]].children.contains(k)
            ==> nodes.contains_key(k) && nodes[k].children.len() == 0
    &&& forall|i: int| 0 <= i < ids.len() ==> !#[trigger] in_row(nodes, ids[i], tds[i], tbody)
    &&& forall|i: int, j: int, k: NodeId|
        0 <= i < ids.len() && 0 <= j < ids.len() && i != j && #[trigger] in_row(
            nodes,
            ids[i],
            tds[i],
            k,
        ) ==> !#[trigger] in_row(nodes, ids[j], tds[j], k)
}

/// Are the nodes of the rows from `m` on as they were in `nodes`, and are those
/// of the rows before `m` gone?
spec fn dropped_up_to(
    nodes: Nodes,
    now: Nodes,
    tbody: NodeId,
    ids: Seq<NodeId>,
    tds: Seq<Seq<NodeId>>,
    m: int,
) -> bool {
    &&& forall|k: NodeId| #[trigger] now.contains_key(k) ==> nodes.contains_key(k)
    &&& forall|i: int, k: NodeId|
        0 <= i < m && #[trigger] in_row(nodes, ids[i], tds[i], k) ==> !now.contains_key(k)
    &&& forall|i: int, k: NodeId|
        m <= i < ids.len() && #[trigger] in_row(nodes, ids[i], tds[i], k) && nodes.contains_key(k)
            ==> now.contains_key(k) && now[k].children == nodes[k].children && now[k].parent
            == nodes[k].parent
}

/// The descendants of a row are its own nodes.
proof fn lemma_below_row(
    nodes: Nodes,
    now: Nodes,
    tbody: NodeId,
    ids: Seq<NodeId>,
    tds: Seq<Seq<NodeId>>,
    m: int,
    id: NodeId,
)
    requires
        rows_apart(nodes, tbody, ids, tds),
        dropped_up_to(nodes, now, tbody, ids, tds, m),
        0 <= m < ids.len(),
        is_below(now, ids[m], id),
    ensures
        in_row(nodes, ids[m], tds[m], id),
{
    let path = choose|path: Seq<NodeId>| #[trigger]
        leads_down(now, path) && path.len() > 0 && path.first() == ids[m] && path.last() == id;
    lemma_path_in_row(nodes, now, tbody, ids, tds, m, path, path.len() - 1);
}

proof fn lemma_path_in_row(
    nodes: Nodes,
    now: Nodes,
    tbody: NodeId,
    ids: Seq<NodeId>,
    tds: Seq<Seq<NodeId>>,
    m: int,
    path: Seq<NodeId>,
    at: int,
)
    requires
        rows_apart(nodes, tbody, ids, tds),
        dropped_up_to(nodes, now, tbody, ids, tds, m),
        0 <= m < ids.len(),
        leads_down(now, path),
        0 <= at < path.len(),
        path[0] == ids[m],
    ensures
        in_row(nodes, ids[m], tds[m], path[at]),
    decreases at,
{
    if at > 0 {
        lemma_path_in_row(nodes, now, tbody, ids, tds, m, path, at - 1);
        let up = path[at - 1];
        let id = path[at];
        assert(now.contains_key(path[at - 1]) && now[up].children.contains(path[at - 1 + 1]));
        assert(nodes.contains_key(up));
        assert(nodes[up].children.contains(id));
        if up == ids[m] {
            assert(tds[m].contains(id));
        } else if tds[m].contains(up) {
            let c = choose|c: int| 0 <= c < tds[m].len() && tds[m][c] == up;
            assert(nodes.contains_key(tds[m][c]) && nodes[tds[m][c]].children.contains(id));
        } else {
            let c = choose|c: int|
                0 <= c < tds[m].len() && nodes.contains_key(#[trigger] tds[m][c])
                    && nodes[tds[m][c]].children.contains(up);
            assert(nodes[up].children.len() == 0);
        }
    }
}

/// A row's own nodes are its descendants.
proof fn lemma_row_below(
    nodes: Nodes,
    now: Nodes,
    tbody: NodeId,
    ids: Seq<NodeId>,
    tds: Seq<Seq<NodeId>>,
    m: int,
    id: NodeId,
)
    requires
        rows_apart(nodes, tbody, ids, tds),
        dropped_up_to(nodes, now, tbody, ids, tds, m),
        0 <= m < ids.len(),
        in_row(nodes, ids[m], tds[m], id),
    ensures
        is_below(now, ids[m], id),
{
    let tr = ids[m];
    assert(in_row(nodes, ids[m], tds[m], tr));
    if id == tr {
        let path = seq![tr];
        assert(leads_down(now, path));
        assert(path.first() == tr && path.last() == id);
    } else if tds[m].contains(id) {
        let path = seq![tr, id];
        assert forall|i: int|
            #![trigger path[i]]
            0 <= i < path.len() - 1 implies now.contains_key(path[i])
            && now[path[i]].children.contains(path[i + 1]) by {
            assert(i == 0);
        }
        assert(leads_down(now, path));
        assert(path.first() == tr && path.last() == id);
    } else {
        let c = choose|c: int|
            0 <= c < tds[m].len() && nodes.contains_key(#[trigger] tds[m][c])
                && nodes[tds[m][c]].children.contains(id);
        let td = tds[m][c];
        assert(tds[m].contains(td));
        assert(in_row(nodes, ids[m], tds[m], td));
        let path = seq![tr, td, id];
        assert forall|i: int|
            #![trigger path[i]]
            0 <= i < path.len() - 1 implies now.contains_key(path[i])
            && now[path[i]].children.contains(path[i + 1]) by {
            if i == 0 {
                assert(now[tr].children.contains(td));
            } else {
                assert(i == 1);
                assert(now[td].children.contains(id));
            }
        }
        assert(leads_down(now, path));
        assert(path.first() == tr && path.last() == id);
    }
}

/// Dropping a row leaves the later rows as they were.
proof fn lemma_drop_row(
    nodes: Nodes,
    now: Nodes,
    tbody: NodeId,
    ids: Seq<NodeId>,
    tds: Seq<Seq<NodeId>>,
    m: int,
)
    requires
        rows_apart(nodes, tbody, ids, tds),
        dropped_up_to(nodes, now, tbody, ids, tds, m),
        0 <= m < ids.len(),
    ensures
        dropped_up_to(nodes, dropped(now, ids[m]), tbody, ids, tds, m + 1),
        forall|k: NodeId|
            now.contains_key(k) && !in_row(nodes, ids[m], tds[m], k) ==> #[trigger] dropped(
                now,
                ids[m],
            ).contains_key(k),
{
    let top = ids[m];
    let next = dropped(now, top);
    assert(in_row(nodes, ids[m], tds[m], top));
    assert(now.contains_key(top) && now[top].parent == Some(tbody));
    assert forall|i: int, k: NodeId|
        0 <= i < m + 1 && #[trigger] in_row(nodes, ids[i], tds[i], k) implies !next.contains_key(
        k,
    ) by {
        if i == m {
            lemma_row_below(nodes, now, tbody, ids, tds, m, k);
        }
    }
    assert forall|i: int, k: NodeId|
        m + 1 <= i < ids.len() && #[trigger] in_row(nodes, ids[i], tds[i], k)
            && nodes.contains_key(k) implies next.contains_key(k) && next[k].children
        == nodes[k].children && next[k].parent == nodes[k].parent by {
        assert(!in_row(nodes, ids[m], tds[m], k));
        if is_below(now, top, k) {
            lemma_below_row(nodes, now, tbody, ids, tds, m, k);
        }
        assert(k != tbody);
    }
    assert forall|k: NodeId|
        now.contains_key(k) && !in_row(nodes, ids[m], tds[m], k) implies #[trigger] next.contains_key(
        k,
    ) by {
        if is_below(now, top, k) {
            lemma_below_row(nodes, now, tbody, ids, tds, m, k);
        }
    }
}

/// Dropping rows takes their own nodes away and no others.
proof fn lemma_drop_rows(
    nodes: Nodes,
    tbody: NodeId,
    ids: Seq<NodeId>,
    tds: Seq<Seq<NodeId>>,
    m: int,
)
    requires
        rows_apart(nodes, tbody, ids, tds),
        0 <= m <= ids.len(),
    ensures
        dropped_up_to(nodes, all_dropped(nodes, ids.take(m)), tbody, ids, tds, m),
        forall|k: NodeId|
            nodes.contains_key(k) && (forall|i: int|
                0 <= i < m ==> !#[trigger] in_row(nodes, ids[i], tds[i], k))
                ==> #[trigger] all_dropped(nodes, ids.take(m)).contains_key(k),
    decreases m,
{
    if m == 0 {
        assert(ids.take(0) =~= Seq::empty());
    } else {
        lemma_drop_rows(nodes, tbody, ids, tds, m - 1);
        let now = all_dropped(nodes, ids.take(m - 1));
        assert(ids.take(m).drop_last() =~= ids.take(m - 1));
        assert(ids.take(m).last() == ids[m - 1]);
        lemma_drop_row(nodes, now, tbody, ids, tds, m - 1);
        assert forall|k: NodeId|
            nodes.contains_key(k) && (forall|i: int|
                0 <= i < m ==> !#[trigger] in_row(
                    nodes,
                    ids[i],
                    tds[i],
                    k,
                )) implies #[trigger] all_dropped(nodes, ids.take(m)).contains_key(k) by {
            assert(now.contains_key(k));
            assert(!in_row(nodes, ids[m - 1], tds[m - 1], k));
        }
    }
}

/// The rows of a drawn window are apart.
proof fn lemma_drawn_apart(
    before: Nodes,
    after: Nodes,
    tbody: NodeId,
    ids: Seq<NodeId>,
    tds: Seq<Seq<NodeId>>,
    pieces: Seq<Piece>,
    hidden: Seq<bool>,
)
    requires
        pieces_drawn(before, after, tbody, ids, tds, pieces, hidden),
    ensures
        rows_apart(after, tbody, ids, tds),
{
    assert forall|i: int| 0 <= i < ids.len() implies after.contains_key(#[trigger] ids[i])
        && after[ids[i]].children == tds[i] && after[ids[i]].parent == Some(tbody) by {
        assert(piece_built(after, ids[i], Some(tbody), tds[i], pieces[i], hidden));
        if pieces[i] is Spacer {
            assert(after[ids[i]].children =~= tds[i]);
        }
    }
    assert forall|i: int, c: int|
        0 <= i < ids.len() && 0 <= c < tds[i].len() implies after.contains_key(
        #[trigger] tds[i][c],
    ) && after[tds[i][c]].parent == Some(ids[i]) && after[tds[i][c]].kind == (NodeKind::Element {
        tag: "td"@,
    }) && (forall|k: NodeId| #[trigger]
        after[tds[i][c]].children.contains(k) ==> after.contains_key(k)
            && after[k].children.len() == 0 && after[k].parent == Some(tds[i][c])
            && after[k].kind is Text) by {
        assert(piece_built(after, ids[i], Some(tbody), tds[i], pieces[i], hidden));
        match pieces[i] {
            Piece::Spacer { height } => {},
            Piece::Data { slot } => {
                assert(cell_built(
                    after,
                    tds[i][c],
                    Some(ids[i]),
                    slot_cell(slot, c),
                    hidden[c],
                ));
            },
        }
    }
    assert forall|i: int| 0 <= i < ids.len() implies !#[trigger] in_row(
        after,
        ids[i],
        tds[i],
        tbody,
    ) by {}
    assert forall|i: int| 0 <= i < ids.len() implies (#[trigger] after[ids[i]]).kind == (
    NodeKind::Element { tag: "tr"@ }) by {
        assert(piece_built(after, ids[i], Some(tbody), tds[i], pieces[i], hidden));
    }
    assert("tr"@ != "td"@) by {
        reveal_strlit("tr");
        reveal_strlit("td");
        assert("tr"@[1] == 'r');
        assert("td"@[1] == 'd');
    }
    assert forall|i: int, j: int, k: NodeId|
        0 <= i < ids.len() && 0 <= j < ids.len() && i != j && #[trigger] in_row(
            after,
            ids[i],
            tds[i],
            k,
        ) implies !#[trigger] in_row(after, ids[j], tds[j], k) by {
        if in_row(after, ids[j], tds[j], k) {
            lemma_row_of(after, ids, tds, i, k);
            lemma_row_of(after, ids, tds, j, k);
            assert(false);
        }
    }
}

/// A node of a row leads back to the row.
proof fn lemma_row_of(nodes: Nodes, ids: Seq<NodeId>, tds: Seq<Seq<NodeId>>, i: int, k: NodeId)
    requires
        0 <= i < ids.len(),
        in_row(nodes, ids[i], tds[i], k),
        nodes[ids[i]].kind == (NodeKind::Element { tag: "tr"@ }),
        forall|c: int|
            0 <= c < tds[i].len() ==> nodes.contains_key(#[trigger] tds[i][c])
                && nodes[tds[i][c]].parent == Some(ids[i]) && nodes[tds[i][c]].kind == (
            NodeKind::Element { tag: "td"@ }) && (forall|t: NodeId| #[trigger]
                nodes[tds[i][c]].children.contains(t) ==> nodes.contains_key(t)
                    && nodes[t].parent == Some(tds[i][c]) && nodes[t].kind is Text),
    ensures
        nodes[k].kind == (NodeKind::Element { tag: "tr"@ }) ==> k == ids[i],
        nodes[k].kind == (NodeKind::Element { tag: "td"@ }) ==> k == ids[i] || nodes[k].parent
            == Some(ids[i]),
        nodes[k].kind is Text ==> nodes[k].parent is Some && nodes[nodes[k].parent.unwrap()].parent
            == Some(ids[i]),
        nodes[k].kind is Text || nodes[k].kind is Element,
        nodes[k].kind is Element ==> nodes[k].kind == (NodeKind::Element { tag: "tr"@ })
            || nodes[k].kind == (NodeKind::Element { tag: "td"@ }),
{
    if k != ids[i] {
        if tds[i].contains(k) {
            let c = choose|c: int| 0 <= c < tds[i].len() && tds[i][c] == k;
            assert(nodes[tds[i][c]].parent == Some(ids[i]));
            reveal_strlit("tr");
            reveal_strlit("td");
            assert("tr"@[1] == 'r');
            assert("td"@[1] == 'd');
        } else {
            let c = choose|c: int|
                0 <= c < tds[i].len() && nodes.contains_key(#[trigger] tds[i][c])
                    && nodes[tds[i][c]].children.contains(k);
            assert(nodes[k].parent == Some(tds[i][c]));
        }
    }
}

/// Some rows of rows that are apart are apart.
proof fn lemma_apart_picked(
    nodes: Nodes,
    tbody: NodeId,
    ids: Seq<NodeId>,
    tds: Seq<Seq<NodeId>>,
    ids2: Seq<NodeId>,
    tds2: Seq<Seq<NodeId>>,
    place: spec_fn(int) -> int,
)
    requires
        rows_apart(nodes, tbody, ids, tds),
        ids2.len() == tds2.len(),
        forall|i: int|
            #![trigger ids2[i]]
            #![trigger tds2[i]]
            0 <= i < ids2.len() ==> 0 <= place(i) < ids.len() && ids2[i] == ids[place(i)] && tds2[i]
                == tds[place(i)],
        forall|i: int, j: int|
            0 <= i < ids2.len() && 0 <= j < ids2.len() && i != j ==> #[trigger] place(i)
                != #[trigger] place(j),
    ensures
        rows_apart(nodes, tbody, ids2, tds2),
{
    assert forall|i: int| 0 <= i < ids2.len() implies nodes.contains_key(#[trigger] ids2[i])
        && nodes[ids2[i]].children == tds2[i] && nodes[ids2[i]].parent == Some(tbody) by {
        assert(nodes.contains_key(ids[place(i)]));
    }
    assert forall|i: int, c: int|
        0 <= i < ids2.len() && 0 <= c < tds2[i].len() implies nodes.contains_key(
        #[trigger] tds2[i][c],
    ) by {
        assert(nodes.contains_key(tds[place(i)][c]));
    }
    assert forall|i: int, c: int, k: NodeId|
        #![trigger tds2[i][c], nodes.contains_key(k)]
        0 <= i < ids2.len() && 0 <= c < tds2[i].len() && nodes[tds2[i][c]].children.contains(
            k,
        ) implies nodes.contains_key(k) && nodes[k].children.len() == 0 by {
        assert(nodes[tds[place(i)][c]].children.contains(k));
    }
    assert forall|i: int| 0 <= i < ids2.len() implies !#[trigger] in_row(
        nodes,
        ids2[i],
        tds2[i],
        tbody,
    ) by {
        assert(ids2[i] == ids[place(i)] && tds2[i] == tds[place(i)]);
        assert(!in_row(nodes, ids[place(i)], tds[place(i)], tbody));
    }
    assert forall|i: int, j: int, k: NodeId|
        0 <= i < ids2.len() && 0 <= j < ids2.len() && i != j && #[trigger] in_row(
            nodes,
            ids2[i],
            tds2[i],
            k,
        ) implies !#[trigger] in_row(nodes, ids2[j], tds2[j], k) by {
        assert(ids2[i] == ids[place(i)] && tds2[i] == tds[place(i)]);
        assert(ids2[j] == ids[place(j)] && tds2[j] == tds[place(j)]);
        assert(place(i) != place(j));
        assert(in_row(nodes, ids[place(i)], tds[place(i)], k));
        assert(!in_row(nodes, ids[place(j)], tds[place(j)], k));
    }
}

/// A body stands clear of rows that are apart.
proof fn lemma_apart_clear(
    nodes: Nodes,
    tbody: NodeId,
    ids: Seq<NodeId>,
    tds: Seq<Seq<NodeId>>,
)
    requires
        rows_apart(nodes, tbody, ids, tds),
        nodes.contains_key(tbody),
    ensures
        stands_clear(nodes, ids, tbody),
{
    assert forall|i: int| 0 <= i < ids.len() implies !is_below(
        nodes,
        #[trigger] ids[i],
        tbody,
    ) by {
        if is_below(nodes, ids[i], tbody) {
            let one = seq![ids[i]];
            let cells = seq![tds[i]];
            lemma_apart_picked(nodes, tbody, ids, tds, one, cells, |x: int| i);
            assert(dropped_up_to(nodes, nodes, tbody, one, cells, 0));
            lemma_below_row(nodes, nodes, tbody, one, cells, 0, tbody);
            assert(!in_row(nodes, one[0], cells[0], tbody));
        }
    }
}

/// Where the rows and spacers of a window, in the order in which they are
/// dropped, stand in the window.
spec fn drop_place(rows: int, top: int, i: int) -> int {
    if i < rows {
        top + i
    } else if i - rows < top {
        i - rows
    } else {
        i
    }
}

/// Clearing a window that was drawn, whatever was marked or sized since, gives
/// the nodes back that there were before.
pub(crate) proof fn lemma_cleared_again(
    before: Nodes,
    drawn: Nodes,
    after: Nodes,
    tbody: NodeId,
    w: Window,
    g: GridView,
    start: int,
    count: int,
)
    requires
        window_drawn(before, drawn, tbody, w, g, start, count),
        same_shape(drawn, after),
    ensures
        cleared(after, w).dom() == before.dom(),
        stands_clear(after, w.rows@ + w.spacers@, tbody),
{
    let top: nat = if has_top(g, start) {
        1
    } else {
        0
    };
    let bottom: nat = if has_bottom(g, start, count) {
        1
    } else {
        0
    };
    let n = w.rows@.len() as int;
    let ids = w.spacers@.take(top as int) + w.rows@ + w.spacers@.skip(top as int);
    let tds = no_cells(top) + cell_ids(w.cells@) + no_cells(bottom);
    lemma_drawn_apart(
        before,
        drawn,
        tbody,
        ids,
        tds,
        window_pieces(g, start, count),
        hidden_flags(g.table),
    );
    let ids2 = w.rows@ + w.spacers@;
    let place = |i: int| drop_place(n, top as int, i);
    let tds2 = Seq::new(ids2.len(), |i: int| tds[place(i)]);
    lemma_apart_picked(drawn, tbody, ids, tds, ids2, tds2, place);
    lemma_apart_clear(drawn, tbody, ids2, tds2);
    let m = ids2.len() as int;
    lemma_drop_rows(drawn, tbody, ids2, tds2, m);
    assert(ids2.take(m) =~= ids2);
    let left = all_dropped(drawn, ids2);
    lemma_drops_add(drawn, w.rows@, w.spacers@);
    assert(cleared(drawn, w) == left);
    assert forall|k: NodeId| left.dom().contains(k) == before.dom().contains(k) by {
        if left.contains_key(k) && !before.contains_key(k) {
            assert(drawn.contains_key(k));
            let i = choose|i: int|
                0 <= i < ids.len() && #[trigger] in_row(drawn, ids[i], tds[i], k);
            let back = if i < top {
                n + i
            } else if i < top + n {
                i - top
            } else {
                i
            };
            assert(place(back) == i);
            assert(ids2[back] == ids[i] && tds2[back] == tds[i]);
            assert(in_row(drawn, ids2[back], tds2[back], k));
        }
        if before.contains_key(k) {
            assert(drawn.contains_key(k));
            assert forall|i: int| 0 <= i < m implies !#[trigger] in_row(
                drawn,
                ids2[i],
                tds2[i],
                k,
            ) by {
                assert(ids2[i] == ids[place(i)] && tds2[i] == tds[place(i)]);
                assert(!in_row(drawn, ids[place(i)], tds[place(i)], k));
            }
            assert(left.contains_key(k));
        }
    }
    assert(left.dom() =~= before.dom());
    lemma_shape_cleared(drawn, after, w, tbody);
}

/// Attributes, characters, styles and column sizes are no part of the shape.
pub(crate) proof fn lemma_shape_kept(
    nodes: Nodes,
    id: NodeId,
    key: Seq<char>,
    value: Option<Seq<char>>,
    data: Seq<char>,
    style: BoxStyle,
    sizes: Map<NodeId, u16>,
)
    ensures
        same_shape(nodes, with_attr(nodes, id, key, value)),
        same_shape(nodes, with_data(nodes, id, data)),
        same_shape(nodes, with_style(nodes, id, style)),
        same_shape(nodes, with_columns_sized(nodes, sizes)),
{
    assert(with_attr(nodes, id, key, value).dom() =~= nodes.dom());
    assert(with_data(nodes, id, data).dom() =~= nodes.dom());
    assert(with_style(nodes, id, style).dom() =~= nodes.dom());
    assert(with_columns_sized(nodes, sizes).dom() =~= nodes.dom());
}

/// Having the same shape is transitive.
pub(crate) proof fn lemma_shape_shape(a: Nodes, b: Nodes, c: Nodes)
    requires
        same_shape(a, b),
        same_shape(b, c),
    ensures
        same_shape(a, c),
{
    assert forall|k: NodeId| #[trigger] a.contains_key(k) implies a[k].children == c[k].children
        && a[k].parent == c[k].parent by {
        assert(b.dom().contains(k));
        assert(b.contains_key(k));
    }
}

/// Marks are no part of the shape.
pub(crate) proof fn lemma_shape_marked(nodes: Nodes, marks: Seq<Mark>)
    ensures
        same_shape(nodes, all_marked(nodes, marks)),
    decreases marks.len(),
{
    if marks.len() > 0 {
        let rest = all_marked(nodes, marks.drop_last());
        let m = marks.last();
        lemma_shape_marked(nodes, marks.drop_last());
        lemma_shape_kept(
            rest,
            m.id,
            m.attr,
            if m.on {
                Some(""@)
            } else {
                None
            },
            Seq::empty(),
            no_style(),
            Map::empty(),
        );
        lemma_shape_shape(nodes, rest, marked(rest, m));
    }
}

/// Labels are no part of the shape.
pub(crate) proof fn lemma_shape_labelled(nodes: Nodes, ths: Seq<NodeId>, g: GridView)
    ensures
        same_shape(nodes, all_labelled(nodes, ths, g)),
    decreases ths.len(),
{
    if ths.len() > 0 {
        let rest = all_labelled(nodes, ths.drop_last(), g);
        let th = ths.last();
        let label = header_label(g, ths.len() - 1);
        lemma_shape_labelled(nodes, ths.drop_last(), g);
        lemma_shape_kept(
            rest,
            th,
            "data-sort"@,
            label.0,
            Seq::empty(),
            no_style(),
            Map::empty(),
        );
        let marked = with_attr(rest, th, "data-sort"@, label.0);
        lemma_shape_shape(nodes, rest, marked);
        match first_child_of(marked, th) {
            Some(text) => {
                lemma_shape_kept(marked, text, ""@, None, label.1, no_style(), Map::empty());
                lemma_shape_shape(nodes, marked, with_data(marked, text, label.1));
            },
            None => {},
        }
    }
}

/// Header widths are no part of the shape.
pub(crate) proof fn lemma_shape_widths(nodes: Nodes, ths: Seq<NodeId>, g: GridView)
    ensures
        same_shape(nodes, all_widths_set(nodes, ths, g)),
    decreases ths.len(),
{
    if ths.len() > 0 {
        let rest = all_widths_set(nodes, ths.drop_last(), g);
        let th = ths.last();
        let width = header_width(g, ths.len() - 1);
        lemma_shape_widths(nodes, ths.drop_last(), g);
        lemma_shape_kept(
            rest,
            th,
            ""@,
            None,
            Seq::empty(),
            BoxStyle { width: Some(width), ..rest[th].style },
            Map::empty(),
        );
        lemma_shape_shape(nodes, rest, with_width(rest, th, width));
    }
}

} // verus!
