//! Drawing into the document tree: the rows of a window, the header, and the
//! marks of the cursor and the selection.

use rdom_tui::{NodeId, TuiDom};
use vstd::prelude::*;

use crate::data::{cell_status, cell_text, CellValue, Row, RowView};
use crate::dom::{
    append_child, appended, create_element, create_text, dom_nodes, dom_quiet, drop_subtree,
    dropped, has_room, is_below, is_unused, leads_down, new_element, new_text, no_style, not_above,
    set_attribute, set_box, upward_closed, without_child, BoxSize, BoxStyle, NodeView, Nodes,
};
use crate::grid::{Grid, GridView};
use crate::model::TableView;

verus! {

/// Does `after` hold every node of `before` unchanged, and does none of them
/// refer to a node that came in?
pub open spec fn built_beside(before: Nodes, after: Nodes) -> bool {
    &&& forall|k: NodeId| #[trigger]
        before.contains_key(k) ==> after.contains_key(k) && after[k] == before[k]
    &&& forall|k: NodeId, n: NodeId|
        #![trigger before.contains_key(k), after.contains_key(n)]
        before.contains_key(k) && after.contains_key(n) && !before.contains_key(n)
            ==> before[k].parent != Some(n) && !before[k].children.contains(n)
}

/// The attributes of a data cell: its status, or that it is loading, and
/// whether its column is hidden.
pub open spec fn cell_attrs(cell: Option<CellValue>, hidden: bool) -> Map<Seq<char>, Seq<char>> {
    let own = match cell {
        Some(value) => match cell_status(value) {
            Some(level) => Map::empty().insert("data-vt-status"@, level.attr()),
            None => Map::empty(),
        },
        None => Map::empty().insert("data-vt-loading"@, ""@),
    };
    if hidden {
        own.insert("data-vt-hidden"@, ""@)
    } else {
        own
    }
}

/// Is `td` a data cell that shows `cell`? A loaded cell has its text as its
/// only child; a placeholder has none.
pub open spec fn cell_built(
    nodes: Nodes,
    td: NodeId,
    parent: Option<NodeId>,
    cell: Option<CellValue>,
    hidden: bool,
) -> bool {
    &&& nodes.contains_key(td)
    &&& nodes[td] == (NodeView {
        attrs: cell_attrs(cell, hidden),
        children: nodes[td].children,
        parent,
        ..new_element("td"@)
    })
    &&& match cell {
        Some(value) => nodes[td].children.len() == 1 && nodes.contains_key(nodes[td].children[0])
            && nodes[nodes[td].children[0]] == (NodeView {
            parent: Some(td),
            ..new_text(cell_text(value))
        }),
        None => nodes[td].children.len() == 0,
    }
}

/// The cell in column `c` of a row that may not be at hand.
pub open spec fn slot_cell(slot: Option<RowView>, c: int) -> Option<CellValue> {
    match slot {
        Some(row) => Some(row.cell(c)),
        None => None,
    }
}

/// Is `tr` a row of the cells `tds` that show `slot`?
pub open spec fn row_built(
    nodes: Nodes,
    tr: NodeId,
    parent: Option<NodeId>,
    tds: Seq<NodeId>,
    slot: Option<RowView>,
    hidden: Seq<bool>,
) -> bool {
    &&& nodes.contains_key(tr)
    &&& nodes[tr] == (NodeView { children: tds, parent, ..new_element("tr"@) })
    &&& tds.len() <= hidden.len()
    &&& tds.no_duplicates()
    &&& forall|c: int|
        0 <= c < tds.len() ==> cell_built(
            nodes,
            #[trigger] tds[c],
            Some(tr),
            slot_cell(slot, c),
            hidden[c],
        )
}

/// Is `id` one of the nodes of the row `tr` with the cells `tds`?
pub open spec fn in_row(nodes: Nodes, tr: NodeId, tds: Seq<NodeId>, id: NodeId) -> bool {
    id == tr || tds.contains(id) || exists|c: int|
        0 <= c < tds.len() && nodes.contains_key(#[trigger] tds[c]) && nodes[tds[c]].children.contains(
            id,
        )
}

/// A node that no other refers to stands above none.
pub(crate) proof fn lemma_not_above(nodes: Nodes, child: NodeId, parent: NodeId)
    requires
        child != parent,
        forall|k: NodeId| #[trigger] nodes.contains_key(k) ==> nodes[k].parent != Some(child),
    ensures
        not_above(nodes, child, parent),
{
    let set = Set::new(|k: NodeId| k != child);
    assert(upward_closed(nodes, set));
    assert(set.contains(parent) && !set.contains(child));
}

/// A node created beside a tree that was built beside another is so too.
pub(crate) proof fn lemma_created_beside(before: Nodes, mid: Nodes, id: NodeId, node: NodeView)
    requires
        built_beside(before, mid),
        is_unused(mid, id),
    ensures
        built_beside(before, mid.insert(id, node)),
{
    let after = mid.insert(id, node);
    assert forall|k: NodeId, n: NodeId|
        #![trigger before.contains_key(k), after.contains_key(n)]
        before.contains_key(k) && after.contains_key(n) && !before.contains_key(
            n,
        ) implies before[k].parent != Some(n) && !before[k].children.contains(n) by {
        assert(mid.contains_key(k));
        if n != id {
            assert(mid.contains_key(n));
        }
    }
}

/// A change to a node that was built beside a tree leaves the tree alone.
pub(crate) proof fn lemma_changed_beside(before: Nodes, mid: Nodes, id: NodeId, node: NodeView)
    requires
        built_beside(before, mid),
        mid.contains_key(id),
        !before.contains_key(id),
    ensures
        built_beside(before, mid.insert(id, node)),
{
    let after = mid.insert(id, node);
    assert forall|k: NodeId, n: NodeId|
        #![trigger before.contains_key(k), after.contains_key(n)]
        before.contains_key(k) && after.contains_key(n) && !before.contains_key(
            n,
        ) implies before[k].parent != Some(n) && !before[k].children.contains(n) by {
        assert(mid.contains_key(n));
    }
}

/// Building beside is transitive.
pub(crate) proof fn lemma_beside_beside(a: Nodes, b: Nodes, c: Nodes)
    requires
        built_beside(a, b),
        built_beside(b, c),
    ensures
        built_beside(a, c),
{
    assert forall|k: NodeId, n: NodeId|
        #![trigger a.contains_key(k), c.contains_key(n)]
        a.contains_key(k) && c.contains_key(n) && !a.contains_key(n) implies a[k].parent != Some(n)
        && !a[k].children.contains(n) by {
        assert(b.contains_key(k));
        if b.contains_key(n) {
        }
    }
}

/// The attributes that the library writes are different ones, and none of them
/// is `style`.
pub(crate) proof fn lemma_attribute_names()
    ensures
        "data-vt-status"@ != "style"@,
        "data-vt-loading"@ != "style"@,
        "data-vt-hidden"@ != "style"@,
        "data-rdom-spacer"@ != "style"@,
        "data-sort"@ != "style"@,
        "data-active-row"@ != "style"@,
        "data-active-col"@ != "style"@,
        "data-active-cell"@ != "style"@,
        "data-selected"@ != "style"@,
        "data-active-row"@ != "data-selected"@,
        "data-active-col"@ != "data-active-cell"@,
        "data-active-col"@ != "data-selected"@,
        "data-active-cell"@ != "data-selected"@,
{
    reveal_strlit("style");
    reveal_strlit("data-vt-status");
    reveal_strlit("data-vt-loading");
    reveal_strlit("data-vt-hidden");
    reveal_strlit("data-rdom-spacer");
    reveal_strlit("data-sort");
    reveal_strlit("data-active-row");
    reveal_strlit("data-active-col");
    reveal_strlit("data-active-cell");
    reveal_strlit("data-selected");
    assert("style"@.len() == 5);
    assert("data-vt-status"@.len() == 14);
    assert("data-vt-loading"@.len() == 15);
    assert("data-vt-hidden"@.len() == 14);
    assert("data-rdom-spacer"@.len() == 16);
    assert("data-sort"@.len() == 9);
    assert("data-active-row"@.len() == 15);
    assert("data-active-col"@.len() == 15);
    assert("data-active-cell"@.len() == 16);
    assert("data-selected"@.len() == 13);
}

/// Draw a data cell that no row has yet.
fn build_cell(dom: &mut TuiDom, cell: Option<&CellValue>, hidden: bool) -> (td: NodeId)
    requires
        dom_quiet(*old(dom)),
        has_room(dom_nodes(*old(dom)), 2),
    ensures
        dom_quiet(*final(dom)),
        built_beside(dom_nodes(*old(dom)), dom_nodes(*final(dom))),
        dom_nodes(*final(dom)).dom().finite(),
        dom_nodes(*final(dom)).dom().len() <= dom_nodes(*old(dom)).dom().len() + 2,
        !dom_nodes(*old(dom)).contains_key(td),
        cell_built(
            dom_nodes(*final(dom)),
            td,
            None,
            match cell {
                Some(value) => Some(*value),
                None => None,
            },
            hidden,
        ),
        forall|k: NodeId| #[trigger]
            dom_nodes(*final(dom)).contains_key(k) ==> dom_nodes(*old(dom)).contains_key(k) || k
                == td || dom_nodes(*final(dom))[td].children.contains(k),
        forall|k: NodeId| #[trigger]
            dom_nodes(*final(dom))[td].children.contains(k) ==> !dom_nodes(*old(dom)).contains_key(
                k,
            ),
{
    let ghost before = dom_nodes(*dom);
    proof {
        lemma_attribute_names();
    }
    let td = create_element(dom, "td");
    proof {
        lemma_created_beside(before, before, td, dom_nodes(*dom)[td]);
    }
    match cell {
        Some(value) => {
            let ghost mid = dom_nodes(*dom);
            let text = create_text(dom, value.display().as_str());
            proof {
                lemma_created_beside(before, mid, text, dom_nodes(*dom)[text]);
                lemma_not_above(dom_nodes(*dom), text, td);
            }
            let ghost mid = dom_nodes(*dom);
            append_child(dom, td, text);
            proof {
                let now = dom_nodes(*dom);
                lemma_changed_beside(before, mid, td, now[td]);
                lemma_changed_beside(before, mid.insert(td, now[td]), text, now[text]);
                assert(now[td].children =~= seq![text]);
            }
            match value.status() {
                Some(level) => {
                    let ghost mid = dom_nodes(*dom);
                    set_attribute(dom, td, "data-vt-status", level.as_attr());
                    proof {
                        lemma_changed_beside(before, mid, td, dom_nodes(*dom)[td]);
                    }
                },
                None => {},
            }
        },
        None => {
            let ghost mid = dom_nodes(*dom);
            set_attribute(dom, td, "data-vt-loading", "");
            proof {
                lemma_changed_beside(before, mid, td, dom_nodes(*dom)[td]);
            }
        },
    }
    if hidden {
        let ghost mid = dom_nodes(*dom);
        set_attribute(dom, td, "data-vt-hidden", "");
        proof {
            lemma_changed_beside(before, mid, td, dom_nodes(*dom)[td]);
        }
    }
    td
}

/// What was built beside a tree stands above none of its nodes.
pub(crate) proof fn lemma_beside_not_above(before: Nodes, now: Nodes, child: NodeId, parent: NodeId)
    requires
        built_beside(before, now),
        now.contains_key(child),
        !before.contains_key(child),
        before.contains_key(parent),
    ensures
        not_above(now, child, parent),
{
    let set = Set::new(|k: NodeId| !now.contains_key(k) || before.contains_key(k));
    assert forall|k: NodeId|
        set.contains(k) && now.contains_key(k) && now[k].parent is Some implies set.contains(
        (#[trigger] now[k]).parent.unwrap(),
    ) by {
        let p = now[k].parent.unwrap();
        if now.contains_key(p) && !before.contains_key(p) {
            assert(before[k].parent != Some(p));
        }
    }
    assert(upward_closed(now, set));
    assert(set.contains(parent) && !set.contains(child));
}

/// The mathematical value of a row that may not be at hand.
pub open spec fn maybe_row(row: Option<&Row>) -> Option<RowView> {
    match row {
        Some(row) => Some(row@),
        None => None,
    }
}

/// Draw a row that no body has yet: a cell in each column, or placeholders
/// where the row is not at hand.
fn build_row(dom: &mut TuiDom, row: Option<&Row>, hidden: &Vec<bool>) -> (r: (NodeId, Vec<NodeId>))
    requires
        dom_quiet(*old(dom)),
        has_room(dom_nodes(*old(dom)), 1 + 2 * hidden@.len()),
    ensures
        dom_quiet(*final(dom)),
        built_beside(dom_nodes(*old(dom)), dom_nodes(*final(dom))),
        dom_nodes(*final(dom)).dom().finite(),
        dom_nodes(*final(dom)).dom().len() <= dom_nodes(*old(dom)).dom().len() + 1 + 2
            * hidden@.len(),
        !dom_nodes(*old(dom)).contains_key(r.0),
        r.1@.len() == hidden@.len(),
        row_built(dom_nodes(*final(dom)), r.0, None, r.1@, maybe_row(row), hidden@),
        forall|k: NodeId| #[trigger]
            dom_nodes(*final(dom)).contains_key(k) ==> dom_nodes(*old(dom)).contains_key(k)
                || in_row(dom_nodes(*final(dom)), r.0, r.1@, k),
        forall|k: NodeId| #[trigger]
            in_row(dom_nodes(*final(dom)), r.0, r.1@, k) ==> !dom_nodes(*old(dom)).contains_key(k),
{
    let ghost before = dom_nodes(*dom);
    let tr = create_element(dom, "tr");
    proof {
        lemma_created_beside(before, before, tr, dom_nodes(*dom)[tr]);
    }
    let mut tds: Vec<NodeId> = Vec::new();
    let mut c: usize = 0;
    assert(dom_nodes(*dom)[tr].children =~= tds@);
    while c < hidden.len()
        invariant
            c <= hidden@.len(),
            tds@.len() == c,
            dom_quiet(*dom),
            has_room(before, 1 + 2 * hidden@.len()),
            built_beside(before, dom_nodes(*dom)),
            dom_nodes(*dom).dom().finite(),
            dom_nodes(*dom).dom().len() <= before.dom().len() + 1 + 2 * c,
            !before.contains_key(tr),
            row_built(dom_nodes(*dom), tr, None, tds@, maybe_row(row), hidden@),
            forall|k: NodeId| #[trigger]
                dom_nodes(*dom).contains_key(k) ==> before.contains_key(k) || in_row(
                    dom_nodes(*dom),
                    tr,
                    tds@,
                    k,
                ),
            forall|k: NodeId| #[trigger]
                in_row(dom_nodes(*dom), tr, tds@, k) ==> !before.contains_key(k),
        decreases hidden@.len() - c,
    {
        let ghost mid = dom_nodes(*dom);
        let ghost tds0 = tds@;
        let cell = match row {
            Some(row) => Some(row.cell(c)),
            None => None,
        };
        let td = build_cell(dom, cell, hidden[c]);
        let ghost mid2 = dom_nodes(*dom);
        proof {
            lemma_beside_beside(before, mid, mid2);
            let set = Set::empty().insert(tr);
            assert(upward_closed(mid2, set));
            assert(set.contains(tr) && !set.contains(td));
        }
        append_child(dom, tr, td);
        tds.push(td);
        proof {
            let now = dom_nodes(*dom);
            lemma_changed_beside(before, mid2, tr, now[tr]);
            lemma_changed_beside(before, mid2.insert(tr, now[tr]), td, now[td]);
            assert(now[tr].children =~= tds@);
            assert forall|i: int| 0 <= i < tds@.len() implies cell_built(
                now,
                #[trigger] tds@[i],
                Some(tr),
                slot_cell(maybe_row(row), i),
                hidden@[i],
            ) by {
                if i < c {
                    assert(tds@[i] == tds0[i]);
                    assert(cell_built(
                        mid,
                        tds0[i],
                        Some(tr),
                        slot_cell(maybe_row(row), i),
                        hidden@[i],
                    ));
                    assert(mid.contains_key(tds0[i]));
                }
            }
            assert forall|k: NodeId| #[trigger] now.contains_key(k) implies before.contains_key(k)
                || in_row(now, tr, tds@, k) by {
                if mid.contains_key(k) {
                    if !before.contains_key(k) {
                        assert(in_row(mid, tr, tds0, k));
                        if tds0.contains(k) {
                            let i = choose|i: int| 0 <= i < tds0.len() && tds0[i] == k;
                            assert(tds@[i] == k);
                        } else if k != tr {
                            let i = choose|i: int|
                                0 <= i < tds0.len() && mid.contains_key(#[trigger] tds0[i])
                                    && mid[tds0[i]].children.contains(k);
                            assert(tds@[i] == tds0[i]);
                            assert(mid2[tds0[i]] == mid[tds0[i]]);
                            assert(now[tds@[i]].children.contains(k));
                        }
                    }
                } else {
                    assert(mid2.contains_key(k));
                    assert(tds@[c as int] == td);
                    if k != td {
                        assert(mid2[td].children.contains(k));
                        assert(now[tds@[c as int]].children.contains(k));
                    }
                }
            }
            assert forall|k: NodeId| #[trigger] in_row(
                now,
                tr,
                tds@,
                k,
            ) implies !before.contains_key(k) by {
                if k != tr && k != td {
                    if tds@.contains(k) {
                        let i = choose|i: int| 0 <= i < tds@.len() && tds@[i] == k;
                        assert(tds0[i] == k);
                        assert(tds0.contains(k));
                        assert(in_row(mid, tr, tds0, k));
                    } else {
                        let i = choose|i: int|
                            0 <= i < tds@.len() && now.contains_key(#[trigger] tds@[i])
                                && now[tds@[i]].children.contains(k);
                        if i < c {
                            assert(tds0[i] == tds@[i]);
                            assert(cell_built(
                                mid,
                                tds0[i],
                                Some(tr),
                                slot_cell(maybe_row(row), i),
                                hidden@[i],
                            ));
                            assert(mid[tds0[i]].children.contains(k));
                            assert(in_row(mid, tr, tds0, k));
                        } else {
                            assert(mid2[td].children.contains(k));
                            assert(!mid.contains_key(k));
                        }
                    }
                }
            }
        }
        c = c + 1;
    }
    (tr, tds)
}

/// What a window consists of, from top to bottom.
pub enum Piece {
    /// Room for rows that are not drawn.
    Spacer { height: u16 },
    /// A row, or a placeholder for one.
    Data { slot: Option<RowView> },
}

/// A spacer row.
pub open spec fn spacer_node(height: u16, parent: Option<NodeId>) -> NodeView {
    NodeView {
        attrs: Map::empty().insert("data-rdom-spacer"@, ""@),
        style: BoxStyle { height: Some(BoxSize::Fixed(height)), ..no_style() },
        parent,
        ..new_element("tr"@)
    }
}

/// Is `id`, with the cells `tds`, the piece `piece`?
pub open spec fn piece_built(
    nodes: Nodes,
    id: NodeId,
    parent: Option<NodeId>,
    tds: Seq<NodeId>,
    piece: Piece,
    hidden: Seq<bool>,
) -> bool {
    match piece {
        Piece::Spacer { height } => tds.len() == 0 && nodes.contains_key(id) && nodes[id]
            == spacer_node(height, parent),
        Piece::Data { slot } => tds.len() == hidden.len() && row_built(
            nodes,
            id,
            parent,
            tds,
            slot,
            hidden,
        ),
    }
}

/// Is `after` the tree `before` with the pieces drawn as the last children of
/// `tbody`? Nothing else has changed and nothing else has come in.
pub open spec fn pieces_drawn(
    before: Nodes,
    after: Nodes,
    tbody: NodeId,
    ids: Seq<NodeId>,
    tds: Seq<Seq<NodeId>>,
    pieces: Seq<Piece>,
    hidden: Seq<bool>,
) -> bool {
    &&& before.contains_key(tbody)
    &&& after.contains_key(tbody)
    &&& after[tbody] == (NodeView {
        children: before[tbody].children + ids,
        ..before[tbody]
    })
    &&& forall|k: NodeId| #[trigger]
        before.contains_key(k) && k != tbody ==> after.contains_key(k) && after[k] == before[k]
    &&& ids.len() == pieces.len()
    &&& tds.len() == pieces.len()
    &&& ids.no_duplicates()
    &&& forall|i: int|
        0 <= i < ids.len() ==> piece_built(
            after,
            #[trigger] ids[i],
            Some(tbody),
            tds[i],
            pieces[i],
            hidden,
        )
    &&& forall|i: int, k: NodeId|
        0 <= i < ids.len() && #[trigger] in_row(after, ids[i], tds[i], k) ==> !before.contains_key(k)
    &&& forall|k: NodeId| #[trigger]
        after.contains_key(k) ==> before.contains_key(k) || exists|i: int|
            0 <= i < ids.len() && #[trigger] in_row(after, ids[i], tds[i], k)
}

/// A piece built beside a window and appended to its body is drawn.
proof fn lemma_piece_added(
    before: Nodes,
    mid: Nodes,
    mid2: Nodes,
    tbody: NodeId,
    ids: Seq<NodeId>,
    tds: Seq<Seq<NodeId>>,
    pieces: Seq<Piece>,
    hidden: Seq<bool>,
    id: NodeId,
    cells: Seq<NodeId>,
    piece: Piece,
)
    requires
        pieces_drawn(before, mid, tbody, ids, tds, pieces, hidden),
        built_beside(mid, mid2),
        piece_built(mid2, id, None, cells, piece, hidden),
        forall|k: NodeId| #[trigger]
            mid2.contains_key(k) ==> mid.contains_key(k) || in_row(mid2, id, cells, k),
        forall|k: NodeId| #[trigger] in_row(mid2, id, cells, k) ==> !mid.contains_key(k),
    ensures
        pieces_drawn(
            before,
            appended(mid2, tbody, id),
            tbody,
            ids.push(id),
            tds.push(cells),
            pieces.push(piece),
            hidden,
        ),
{
    let after = appended(mid2, tbody, id);
    let ids1 = ids.push(id);
    let tds1 = tds.push(cells);
    let pieces1 = pieces.push(piece);
    assert(in_row(mid2, id, cells, id));
    assert(!mid.contains_key(id));
    assert(after[tbody].children =~= before[tbody].children + ids1);
    // The pieces drawn before are as they were.
    assert forall|i: int, k: NodeId| 0 <= i < ids.len() && in_row(mid, ids[i], tds[i], k) && mid
        .contains_key(k) implies after[k] == mid[k] && after.contains_key(k) by {
        assert(mid2.contains_key(k) && mid2[k] == mid[k]);
        assert(k != tbody);
    }
    assert forall|i: int| 0 <= i < ids1.len() implies piece_built(
        after,
        #[trigger] ids1[i],
        Some(tbody),
        tds1[i],
        pieces1[i],
        hidden,
    ) by {
        if i < ids.len() {
            assert(ids1[i] == ids[i]);
            assert(piece_built(mid, ids[i], Some(tbody), tds[i], pieces[i], hidden));
            assert(in_row(mid, ids[i], tds[i], ids[i]));
            match pieces[i] {
                Piece::Spacer { height } => {},
                Piece::Data { slot } => {
                    assert forall|c: int| 0 <= c < tds[i].len() implies cell_built(
                        after,
                        #[trigger] tds[i][c],
                        Some(ids[i]),
                        slot_cell(slot, c),
                        hidden[c],
                    ) by {
                        let td = tds[i][c];
                        assert(cell_built(
                            mid,
                            td,
                            Some(ids[i]),
                            slot_cell(slot, c),
                            hidden[c],
                        ));
                        assert(tds[i].contains(td));
                        assert(in_row(mid, ids[i], tds[i], td));
                        if slot is Some {
                            let t = mid[td].children[0];
                            assert(mid[td].children.contains(t));
                            assert(in_row(mid, ids[i], tds[i], t));
                        }
                    }
                },
            }
        } else {
            match piece {
                Piece::Spacer { height } => {},
                Piece::Data { slot } => {
                    assert forall|c: int| 0 <= c < cells.len() implies cell_built(
                        after,
                        #[trigger] cells[c],
                        Some(id),
                        slot_cell(slot, c),
                        hidden[c],
                    ) by {
                        let td = cells[c];
                        assert(cell_built(mid2, td, Some(id), slot_cell(slot, c), hidden[c]));
                        assert(cells.contains(td));
                        assert(in_row(mid2, id, cells, td));
                        if slot is Some {
                            let t = mid2[td].children[0];
                            assert(mid2[td].children.contains(t));
                            assert(in_row(mid2, id, cells, t));
                        }
                    }
                },
            }
        }
    }
    assert forall|i: int, k: NodeId|
        0 <= i < ids1.len() && #[trigger] in_row(
            after,
            ids1[i],
            tds1[i],
            k,
        ) implies !before.contains_key(k) by {
        if i < ids.len() {
            lemma_same_row(mid, after, ids[i], tds[i], k);
        } else {
            lemma_same_row(mid2, after, id, cells, k);
            if before.contains_key(k) && k != tbody {
                assert(mid.contains_key(k));
            }
        }
    }
    assert forall|k: NodeId| #[trigger] after.contains_key(k) implies before.contains_key(k)
        || exists|i: int| 0 <= i < ids1.len() && #[trigger] in_row(
        after,
        ids1[i],
        tds1[i],
        k,
    ) by {
        if !before.contains_key(k) {
            assert(mid2.contains_key(k));
            if mid.contains_key(k) {
                let i = choose|i: int|
                    0 <= i < ids.len() && #[trigger] in_row(mid, ids[i], tds[i], k);
                lemma_same_row(mid, after, ids[i], tds[i], k);
                assert(ids1[i] == ids[i] && tds1[i] == tds[i]);
                assert(in_row(after, ids1[i], tds1[i], k));
            } else {
                lemma_same_row(mid2, after, id, cells, k);
                assert(in_row(after, ids1[ids.len() as int], tds1[ids.len() as int], k));
            }
        }
    }
    assert(ids1.no_duplicates()) by {
        assert forall|i: int| 0 <= i < ids.len() implies ids[i] != id by {
            assert(piece_built(mid, ids[i], Some(tbody), tds[i], pieces[i], hidden));
        }
    }
}

/// The nodes of a row are the same in two trees that agree on its cells.
proof fn lemma_same_row(
    a: Nodes,
    b: Nodes,
    tr: NodeId,
    tds: Seq<NodeId>,
    k: NodeId,
)
    requires
        forall|c: int|
            0 <= c < tds.len() ==> a.contains_key(#[trigger] tds[c]) && b.contains_key(tds[c])
                && a[tds[c]].children == b[tds[c]].children,
    ensures
        in_row(a, tr, tds, k) == in_row(b, tr, tds, k),
{
}

/// The tree without some nodes and their descendants, dropped one after the
/// other.
pub open spec fn all_dropped(nodes: Nodes, ids: Seq<NodeId>) -> Nodes
    decreases ids.len(),
{
    if ids.len() == 0 {
        nodes
    } else {
        dropped(all_dropped(nodes, ids.drop_last()), ids.last())
    }
}

/// Is `id` a node that stands under none of `tops`?
pub open spec fn stands_clear(nodes: Nodes, tops: Seq<NodeId>, id: NodeId) -> bool {
    nodes.contains_key(id) && forall|i: int|
        0 <= i < tops.len() ==> !is_below(nodes, #[trigger] tops[i], id)
}

/// A list of children without one of them holds no other node.
pub(crate) proof fn lemma_without_child(children: Seq<NodeId>, child: NodeId, id: NodeId)
    ensures
        without_child(children, child).contains(id) ==> children.contains(id),
    decreases children.len(),
{
    reveal(Seq::filter);
    if children.len() > 0 {
        let rest = children.drop_last();
        lemma_without_child(rest, child, id);
        let less = without_child(rest, child);
        if without_child(children, child).contains(id) {
            let j = choose|j: int|
                0 <= j < without_child(children, child).len() && without_child(children, child)[j]
                    == id;
            if j < less.len() {
                assert(less[j] == id);
                assert(less.contains(id));
                let i = choose|i: int| 0 <= i < rest.len() && rest[i] == id;
                assert(children[i] == id);
            } else {
                assert(children[children.len() - 1] == id);
            }
        }
    }
}

/// Dropping nodes puts no node under another, and keeps what stands clear.
pub(crate) proof fn lemma_drop_keeps(nodes: Nodes, top: NodeId, other: NodeId, id: NodeId)
    ensures
        is_below(dropped(nodes, top), other, id) ==> is_below(nodes, other, id),
        nodes.contains_key(id) && !is_below(nodes, top, id) ==> dropped(nodes, top).contains_key(
            id,
        ),
{
    let less = dropped(nodes, top);
    if is_below(less, other, id) {
        let path = choose|path: Seq<NodeId>| #[trigger]
            leads_down(less, path) && path.len() > 0 && path.first() == other && path.last() == id;
        assert forall|i: int|
            #![trigger path[i]]
            0 <= i < path.len() - 1 implies nodes.contains_key(path[i])
            && nodes[path[i]].children.contains(path[i + 1]) by {
            assert(less.contains_key(path[i]) && less[path[i]].children.contains(path[i + 1]));
            if nodes.contains_key(top) && nodes[top].parent == Some(path[i]) {
                lemma_without_child(nodes[path[i]].children, top, path[i + 1]);
            }
        }
        assert(leads_down(nodes, path));
    }
}

/// Dropping nodes leaves no more nodes than there were.
pub(crate) proof fn lemma_drop_shrinks(nodes: Nodes, top: NodeId)
    requires
        nodes.dom().finite(),
    ensures
        dropped(nodes, top).dom().finite(),
        dropped(nodes, top).dom().len() <= nodes.dom().len(),
{
    assert(dropped(nodes, top).dom().subset_of(nodes.dom()));
    vstd::set_lib::lemma_len_subset(dropped(nodes, top).dom(), nodes.dom());
}

/// Drop some nodes and their descendants.
pub fn drop_all(dom: &mut TuiDom, ids: &Vec<NodeId>)
    requires
        dom_quiet(*old(dom)),
    ensures
        dom_quiet(*final(dom)),
        dom_nodes(*final(dom)) == all_dropped(dom_nodes(*old(dom)), ids@),
{
    let ghost before = dom_nodes(*dom);
    let mut i: usize = 0;
    assert(ids@.take(0) =~= Seq::empty());
    while i < ids.len()
        invariant
            i <= ids@.len(),
            dom_quiet(*dom),
            dom_nodes(*dom) == all_dropped(before, ids@.take(i as int)),
        decreases ids@.len() - i,
    {
        drop_subtree(dom, ids[i]);
        assert(ids@.take(i + 1).drop_last() =~= ids@.take(i as int));
        i = i + 1;
    }
    assert(ids@.take(ids@.len() as int) =~= ids@);
}

/// Dropping nodes keeps what stands clear of them, and the rest in its place.
pub(crate) proof fn lemma_all_drop_keeps(
    nodes: Nodes,
    ids: Seq<NodeId>,
    others: Seq<NodeId>,
    id: NodeId,
)
    requires
        stands_clear(nodes, ids, id),
        stands_clear(nodes, others, id),
    ensures
        all_dropped(nodes, ids).contains_key(id),
        stands_clear(all_dropped(nodes, ids), others, id),
        nodes.dom().finite() ==> all_dropped(nodes, ids).dom().finite() && all_dropped(
            nodes,
            ids,
        ).dom().len() <= nodes.dom().len(),
    decreases ids.len(),
{
    if ids.len() > 0 {
        let rest = ids.drop_last();
        let top = ids.last();
        let tops = seq![top];
        assert forall|i: int| 0 <= i < rest.len() implies !is_below(
            nodes,
            #[trigger] rest[i],
            id,
        ) by {
            assert(rest[i] == ids[i]);
        }
        assert(!is_below(nodes, ids[ids.len() - 1], id));
        lemma_all_drop_keeps(nodes, rest, others, id);
        lemma_all_drop_keeps(nodes, rest, tops, id);
        let mid = all_dropped(nodes, rest);
        assert(!is_below(mid, tops[0], id));
        lemma_drop_keeps(mid, top, top, id);
        assert forall|i: int| 0 <= i < others.len() implies !is_below(
            all_dropped(nodes, ids),
            #[trigger] others[i],
            id,
        ) by {
            lemma_drop_keeps(mid, top, others[i], id);
        }
        if nodes.dom().finite() {
            lemma_drop_shrinks(mid, top);
        }
    }
}

/// Draw a spacer that no body has yet.
fn build_spacer(dom: &mut TuiDom, rows: usize) -> (tr: NodeId)
    requires
        dom_quiet(*old(dom)),
        has_room(dom_nodes(*old(dom)), 1),
    ensures
        dom_quiet(*final(dom)),
        is_unused(dom_nodes(*old(dom)), tr),
        dom_nodes(*final(dom)) == dom_nodes(*old(dom)).insert(
            tr,
            spacer_node(spacer_height(rows as int), None),
        ),
{
    let height: u16 = if rows < 0xffff {
        rows as u16
    } else {
        0xffff
    };
    proof {
        lemma_attribute_names();
    }
    let tr = create_element(dom, "tr");
    set_box(dom, tr, height, false);
    set_attribute(dom, tr, "data-rdom-spacer", "");
    assert(dom_nodes(*dom)[tr] == spacer_node(spacer_height(rows as int), None));
    assert(dom_nodes(*dom) =~= dom_nodes(*old(dom)).insert(
        tr,
        spacer_node(spacer_height(rows as int), None),
    ));
    tr
}

/// The height of a spacer that stands for `rows` rows.
pub open spec fn spacer_height(rows: int) -> u16 {
    if rows < 0xffff {
        rows as u16
    } else {
        0xffff
    }
}

/// Draw a spacer for `rows` rows as the last child of `tbody`.
fn draw_spacer(
    dom: &mut TuiDom,
    tbody: NodeId,
    rows: usize,
    before: Ghost<Nodes>,
    ids: Ghost<Seq<NodeId>>,
    tds: Ghost<Seq<Seq<NodeId>>>,
    pieces: Ghost<Seq<Piece>>,
    hidden: Ghost<Seq<bool>>,
) -> (tr: NodeId)
    requires
        dom_quiet(*old(dom)),
        has_room(dom_nodes(*old(dom)), 1),
        pieces_drawn(before@, dom_nodes(*old(dom)), tbody, ids@, tds@, pieces@, hidden@),
    ensures
        dom_quiet(*final(dom)),
        dom_nodes(*final(dom)).dom().finite(),
        dom_nodes(*final(dom)).dom().len() == dom_nodes(*old(dom)).dom().len() + 1,
        pieces_drawn(
            before@,
            dom_nodes(*final(dom)),
            tbody,
            ids@.push(tr),
            tds@.push(Seq::empty()),
            pieces@.push(Piece::Spacer { height: spacer_height(rows as int) }),
            hidden@,
        ),
{
    let ghost mid = dom_nodes(*dom);
    let tr = build_spacer(dom, rows);
    let ghost mid2 = dom_nodes(*dom);
    let ghost piece = Piece::Spacer { height: spacer_height(rows as int) };
    proof {
        lemma_created_beside(mid, mid, tr, mid2[tr]);
        lemma_beside_not_above(mid, mid2, tr, tbody);
    }
    append_child(dom, tbody, tr);
    proof {
        lemma_piece_added(
            before@,
            mid,
            mid2,
            tbody,
            ids@,
            tds@,
            pieces@,
            hidden@,
            tr,
            Seq::empty(),
            piece,
        );
        assert(dom_nodes(*dom).dom() =~= mid.dom().insert(tr));
    }
    tr
}

/// Draw a row, or a placeholder for one, as the last child of `tbody`.
fn draw_row(
    dom: &mut TuiDom,
    tbody: NodeId,
    row: Option<&Row>,
    hidden: &Vec<bool>,
    before: Ghost<Nodes>,
    ids: Ghost<Seq<NodeId>>,
    tds: Ghost<Seq<Seq<NodeId>>>,
    pieces: Ghost<Seq<Piece>>,
) -> (r: (NodeId, Vec<NodeId>))
    requires
        dom_quiet(*old(dom)),
        has_room(dom_nodes(*old(dom)), 1 + 2 * hidden@.len()),
        pieces_drawn(before@, dom_nodes(*old(dom)), tbody, ids@, tds@, pieces@, hidden@),
    ensures
        dom_quiet(*final(dom)),
        dom_nodes(*final(dom)).dom().finite(),
        dom_nodes(*final(dom)).dom().len() <= dom_nodes(*old(dom)).dom().len() + 1 + 2
            * hidden@.len(),
        pieces_drawn(
            before@,
            dom_nodes(*final(dom)),
            tbody,
            ids@.push(r.0),
            tds@.push(r.1@),
            pieces@.push(Piece::Data { slot: maybe_row(row) }),
            hidden@,
        ),
{
    let ghost mid = dom_nodes(*dom);
    let (tr, cells) = build_row(dom, row, hidden);
    let ghost mid2 = dom_nodes(*dom);
    let ghost piece = Piece::Data { slot: maybe_row(row) };
    proof {
        lemma_beside_not_above(mid, mid2, tr, tbody);
    }
    append_child(dom, tbody, tr);
    proof {
        lemma_piece_added(
            before@,
            mid,
            mid2,
            tbody,
            ids@,
            tds@,
            pieces@,
            hidden@,
            tr,
            cells@,
            piece,
        );
        assert(dom_nodes(*dom).dom() =~= mid2.dom());
    }
    (tr, cells)
}

/// The nodes of a drawn window.
pub struct Window {
    /// The row elements.
    pub rows: Vec<NodeId>,
    /// The cells of each row, in column order.
    pub cells: Vec<Vec<NodeId>>,
    /// The spacers, the one on top first.
    pub spacers: Vec<NodeId>,
}

/// The cells of some rows.
pub open spec fn cell_ids(cells: Seq<Vec<NodeId>>) -> Seq<Seq<NodeId>> {
    Seq::new(cells.len(), |i: int| cells[i]@)
}

/// `n` rows without cells.
pub open spec fn no_cells(n: nat) -> Seq<Seq<NodeId>> {
    Seq::new(n, |i: int| Seq::empty())
}

/// Which columns are hidden.
pub open spec fn hidden_flags(table: TableView) -> Seq<bool> {
    Seq::new(table.columns.len(), |c: int| table.hidden.contains(c as usize))
}

/// The number of rows in the window of `count` rows from `start`.
pub open spec fn span(g: GridView, start: int, count: int) -> nat {
    if start < g.window_end(start, count) {
        (g.window_end(start, count) - start) as nat
    } else {
        0
    }
}

/// Is there a spacer above the window?
pub open spec fn has_top(g: GridView, start: int) -> bool {
    g.scroll_mode && start > 0
}

/// Is there a spacer below the window?
pub open spec fn has_bottom(g: GridView, start: int, count: int) -> bool {
    g.scroll_mode && g.window_end(start, count) < g.buffer.total
}

/// What is drawn for the window of `count` rows from `start`: its rows, and
/// where the body scrolls, spacers for those above and below it.
pub open spec fn window_pieces(g: GridView, start: int, count: int) -> Seq<Piece> {
    let top = if has_top(g, start) {
        seq![Piece::Spacer { height: spacer_height(start) }]
    } else {
        Seq::empty()
    };
    let rows = Seq::new(
        span(g, start, count),
        |i: int| Piece::Data { slot: g.buffer.row_at(start + i) },
    );
    let bottom = if has_bottom(g, start, count) {
        seq![
            Piece::Spacer {
                height: spacer_height(g.buffer.total - g.window_end(start, count)),
            },
        ]
    } else {
        Seq::empty()
    };
    top + rows + bottom
}

/// At most how many nodes drawing the window takes.
pub open spec fn window_nodes(g: GridView, start: int, count: int) -> nat {
    2 + span(g, start, count) * (1 + 2 * g.table.columns.len())
}

/// Is `after` the tree `before` with the window of `count` rows from `start`
/// drawn as the last children of `tbody`?
pub open spec fn window_drawn(
    before: Nodes,
    after: Nodes,
    tbody: NodeId,
    w: Window,
    g: GridView,
    start: int,
    count: int,
) -> bool {
    let top: nat = if has_top(g, start) {
        1
    } else {
        0
    };
    let bottom: nat = if has_bottom(g, start, count) {
        1
    } else {
        0
    };
    &&& w.rows@.len() == span(g, start, count)
    &&& w.cells@.len() == span(g, start, count)
    &&& w.spacers@.len() == top + bottom
    &&& pieces_drawn(
        before,
        after,
        tbody,
        w.spacers@.take(top as int) + w.rows@ + w.spacers@.skip(top as int),
        no_cells(top) + cell_ids(w.cells@) + no_cells(bottom),
        window_pieces(g, start, count),
        hidden_flags(g.table),
    )
}

/// Which columns are hidden.
fn list_hidden(grid: &Grid) -> (r: Vec<bool>)
    ensures
        r@ == hidden_flags(grid@.table),
{
    let cols: usize = grid.model.columns().len();
    let mut out: Vec<bool> = Vec::new();
    let mut c: usize = 0;
    while c < cols
        invariant
            c <= cols == grid@.table.columns.len(),
            out@ == hidden_flags(grid@.table).take(c as int),
        decreases cols - c,
    {
        out.push(grid.model.is_column_hidden(c));
        c = c + 1;
        assert(out@ =~= hidden_flags(grid@.table).take(c as int));
    }
    assert(out@ =~= hidden_flags(grid@.table));
    out
}

/// Draw the window of `count` rows from `start` as the last children of
/// `tbody`.
pub fn draw_window(
    dom: &mut TuiDom,
    tbody: NodeId,
    grid: &Grid,
    start: usize,
    count: usize,
) -> (w: Window)
    requires
        dom_quiet(*old(dom)),
        dom_nodes(*old(dom)).contains_key(tbody),
        has_room(dom_nodes(*old(dom)), window_nodes(grid@, start as int, count as int)),
    ensures
        dom_quiet(*final(dom)),
        window_drawn(
            dom_nodes(*old(dom)),
            dom_nodes(*final(dom)),
            tbody,
            w,
            grid@,
            start as int,
            count as int,
        ),
        dom_nodes(*final(dom)).dom().finite(),
        dom_nodes(*final(dom)).dom().len() <= dom_nodes(*old(dom)).dom().len() + window_nodes(
            grid@,
            start as int,
            count as int,
        ),
{
    let total: usize = grid.buffer.total();
    let end: usize = grid.window_end(start, count);
    let hidden = list_hidden(grid);
    let ghost before = dom_nodes(*dom);
    let ghost flags = hidden_flags(grid@.table);
    let ghost step: int = (1 + 2 * flags.len()) as int;
    let ghost rows_wanted: int = span(grid@, start as int, count as int) as int;
    let ghost mut ids: Seq<NodeId> = Seq::empty();
    let ghost mut tds: Seq<Seq<NodeId>> = Seq::empty();
    let ghost mut pieces: Seq<Piece> = Seq::empty();
    let mut spacers: Vec<NodeId> = Vec::new();
    proof {
        assert(before[tbody].children + ids =~= before[tbody].children);
        assert(pieces_drawn(before, before, tbody, ids, tds, pieces, flags));
        assert(rows_wanted * step >= 0) by (nonlinear_arith)
            requires
                rows_wanted >= 0,
                step >= 1,
        ;
    }
    if grid.scroll_mode && start > 0 {
        let sp = draw_spacer(
            dom,
            tbody,
            start,
            Ghost(before),
            Ghost(ids),
            Ghost(tds),
            Ghost(pieces),
            Ghost(flags),
        );
        spacers.push(sp);
        proof {
            ids = ids.push(sp);
            tds = tds.push(Seq::empty());
            pieces = pieces.push(Piece::Spacer { height: spacer_height(start as int) });
        }
    }
    let ghost top_ids = ids;
    let ghost top_tds = tds;
    let ghost top_pieces = pieces;
    let mut rows: Vec<NodeId> = Vec::new();
    let mut cells: Vec<Vec<NodeId>> = Vec::new();
    let mut vi: usize = start;
    assert(ids =~= top_ids + rows@);
    assert(tds =~= top_tds + cell_ids(cells@));
    assert(pieces =~= top_pieces + Seq::new(
        0,
        |i: int| Piece::Data { slot: grid@.buffer.row_at(start + i) },
    ));
    while vi < end
        invariant
            end == grid@.window_end(start as int, count as int),
            rows_wanted == span(grid@, start as int, count as int),
            start < end ==> start <= vi <= end,
            start >= end ==> vi == start,
            rows@.len() == vi - start,
            cells@.len() == vi - start,
            dom_quiet(*dom),
            hidden@ == flags,
            step == 1 + 2 * flags.len(),
            before.dom().len() + 2 + rows_wanted * step <= u32::MAX,
            dom_nodes(*dom).dom().finite(),
            dom_nodes(*dom).dom().len() <= before.dom().len() + 1 + (vi - start) * step,
            ids == top_ids + rows@,
            tds == top_tds + cell_ids(cells@),
            pieces == top_pieces + Seq::new(
                (vi - start) as nat,
                |i: int| Piece::Data { slot: grid@.buffer.row_at(start + i) },
            ),
            pieces_drawn(before, dom_nodes(*dom), tbody, ids, tds, pieces, flags),
        decreases end - vi,
    {
        let ghost done: int = vi - start;
        proof {
            assert((done + 1) * step == done * step + step) by (nonlinear_arith);
            assert((done + 1) * step <= rows_wanted * step) by (nonlinear_arith)
                requires
                    done + 1 <= rows_wanted,
                    step >= 1,
            ;
        }
        let row = grid.buffer.row_at(vi);
        let (tr, row_cells) = draw_row(
            dom,
            tbody,
            row,
            &hidden,
            Ghost(before),
            Ghost(ids),
            Ghost(tds),
            Ghost(pieces),
        );
        proof {
            ids = ids.push(tr);
            tds = tds.push(row_cells@);
            pieces = pieces.push(Piece::Data { slot: maybe_row(row) });
        }
        rows.push(tr);
        cells.push(row_cells);
        vi = vi + 1;
        assert(ids =~= top_ids + rows@);
        assert(tds =~= top_tds + cell_ids(cells@));
        assert(maybe_row(row) == grid@.buffer.row_at(start + done));
        assert(pieces =~= top_pieces + Seq::new(
            (vi - start) as nat,
            |i: int| Piece::Data { slot: grid@.buffer.row_at(start + i) },
        ));
    }
    let ghost top: nat = if has_top(grid@, start as int) {
        1
    } else {
        0
    };
    if grid.scroll_mode && end < total {
        let sp = draw_spacer(
            dom,
            tbody,
            total - end,
            Ghost(before),
            Ghost(ids),
            Ghost(tds),
            Ghost(pieces),
            Ghost(flags),
        );
        spacers.push(sp);
        proof {
            ids = ids.push(sp);
            tds = tds.push(Seq::empty());
            pieces = pieces.push(Piece::Spacer { height: spacer_height(total - end) });
        }
    }
    proof {
        let bottom: nat = if has_bottom(grid@, start as int, count as int) {
            1
        } else {
            0
        };
        assert(ids =~= spacers@.take(top as int) + rows@ + spacers@.skip(top as int));
        assert(tds =~= no_cells(top) + cell_ids(cells@) + no_cells(bottom));
        assert(pieces =~= window_pieces(grid@, start as int, count as int));
    }
    Window { rows, cells, spacers }
}

} // verus!
