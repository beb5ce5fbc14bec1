//! Trees that gain or lose nodes: what is under a node, and what dropping leaves,
//! in the greater tree and in the lesser one.

use rdom_tui::NodeId;
use vstd::prelude::*;

use crate::clear::cleared;
use crate::dom::{
    dropped, fixed_width, is_below, is_row_group, leads_down, without_child, Nodes,
};
use crate::draw::{
    all_dropped, cell_built, cell_ids, has_bottom, has_top, hidden_flags, in_row, no_cells,
    piece_built, slot_cell, window_drawn, window_pieces, Piece, Window,
};
use crate::grid::GridView;

verus! {

/// Does `big` hold the nodes of `small` under the parents and with the children
/// that they have there, but for children that are new, and have the new nodes
/// only new children?
pub open spec fn extends(small: Nodes, big: Nodes) -> bool {
    &&& forall|k: NodeId| #[trigger]
        small.contains_key(k) ==> big.contains_key(k) && big[k].parent == small[k].parent
    &&& forall|k: NodeId, c: NodeId|
        small.contains_key(k) && small.contains_key(c) && #[trigger] small[k].children.contains(c)
            ==> big[k].children.contains(c)
    &&& forall|k: NodeId, c: NodeId|
        small.contains_key(k) && #[trigger] big[k].children.contains(c)
            ==> small[k].children.contains(c) || !small.contains_key(c)
    &&& forall|k: NodeId, c: NodeId|
        big.contains_key(k) && !small.contains_key(k) && #[trigger] big[k].children.contains(c)
            ==> !small.contains_key(c)
}

/// Is each node of `big` that is not in `small` in `bigger` and not in `smaller`?
pub open spec fn no_more_new(small: Nodes, big: Nodes, smaller: Nodes, bigger: Nodes) -> bool {
    forall|k: NodeId| #[trigger]
        big.contains_key(k) && !small.contains_key(k) ==> bigger.contains_key(k)
            && !smaller.contains_key(k)
}

/// A path that ends at a node of the lesser tree has only such nodes.
proof fn lemma_path_was(small: Nodes, big: Nodes, path: Seq<NodeId>, at: int)
    requires
        extends(small, big),
        leads_down(big, path),
        0 <= at < path.len(),
        small.contains_key(path.last()),
    ensures
        small.contains_key(path[at]),
    decreases path.len() - at,
{
    if at < path.len() - 1 {
        lemma_path_was(small, big, path, at + 1);
        assert(big.contains_key(path[at]) && big[path[at]].children.contains(path[at + 1]));
    }
}

/// A node of the lesser tree is under the same nodes in both.
pub(crate) proof fn lemma_extends_below(small: Nodes, big: Nodes, top: NodeId, id: NodeId)
    requires
        extends(small, big),
        small.contains_key(id),
    ensures
        is_below(big, top, id) == is_below(small, top, id),
{
    if is_below(big, top, id) {
        let path = choose|path: Seq<NodeId>| #[trigger]
            leads_down(big, path) && path.len() > 0 && path.first() == top && path.last() == id;
        assert forall|i: int|
            #![trigger path[i]]
            0 <= i < path.len() - 1 implies small.contains_key(path[i])
            && small[path[i]].children.contains(path[i + 1]) by {
            lemma_path_was(small, big, path, i);
            lemma_path_was(small, big, path, i + 1);
            assert(big.contains_key(path[i]) && big[path[i]].children.contains(path[i + 1]));
        }
        assert(leads_down(small, path));
    }
    if is_below(small, top, id) {
        let path = choose|path: Seq<NodeId>| #[trigger]
            leads_down(small, path) && path.len() > 0 && path.first() == top && path.last() == id;
        assert forall|i: int|
            #![trigger path[i]]
            0 <= i < path.len() - 1 implies big.contains_key(path[i])
            && big[path[i]].children.contains(path[i + 1]) by {
            assert(small.contains_key(path[i]) && small[path[i]].children.contains(path[i + 1]));
            if i + 1 < path.len() - 1 {
                assert(small.contains_key(path[i + 1]));
            }
        }
        assert(leads_down(big, path));
    }
}

/// Under a new node there are only new nodes.
pub(crate) proof fn lemma_below_new(small: Nodes, big: Nodes, top: NodeId, id: NodeId)
    requires
        extends(small, big),
        small.contains_key(id),
        !small.contains_key(top),
    ensures
        !is_below(big, top, id),
{
    lemma_extends_below(small, big, top, id);
    if is_below(small, top, id) {
        let path = choose|path: Seq<NodeId>| #[trigger]
            leads_down(small, path) && path.len() > 0 && path.first() == top && path.last() == id;
        if path.len() > 1 {
            assert(small.contains_key(path[0]));
        }
    }
}

/// A list of children without one of them holds the others.
proof fn lemma_without(children: Seq<NodeId>, child: NodeId, id: NodeId)
    ensures
        without_child(children, child).contains(id) == (children.contains(id) && id != child),
    decreases children.len(),
{
    reveal(Seq::filter);
    let less = without_child(children, child);
    if children.len() == 0 {
        assert(less.len() == 0);
    } else {
        let rest = children.drop_last();
        let last = children.last();
        lemma_without(rest, child, id);
        let less_rest = without_child(rest, child);
        assert(less == if last != child {
            less_rest.push(last)
        } else {
            less_rest
        });
        assert(children =~= rest.push(last));
        lemma_pushed_contains(rest, last, id);
        lemma_pushed_contains(less_rest, last, id);
    }
}

proof fn lemma_pushed_contains(s: Seq<NodeId>, last: NodeId, id: NodeId)
    ensures
        s.push(last).contains(id) == (s.contains(id) || id == last),
{
    let t = s.push(last);
    if s.contains(id) {
        let i = choose|i: int| 0 <= i < s.len() && s[i] == id;
        assert(t[i] == id);
    }
    if id == last {
        assert(t[s.len() as int] == id);
    }
    if t.contains(id) {
        let i = choose|i: int| 0 <= i < t.len() && t[i] == id;
        if i < s.len() {
            assert(s[i] == id);
        }
    }
}

/// What follows a child into a tree without it.
proof fn lemma_dropped_children(nodes: Nodes, top: NodeId, k: NodeId, c: NodeId)
    requires
        dropped(nodes, top).contains_key(k),
        dropped(nodes, top).contains_key(c),
    ensures
        dropped(nodes, top)[k].children.contains(c) == nodes[k].children.contains(c),
{
    if nodes.contains_key(top) {
        let path = seq![top];
        assert(leads_down(nodes, path));
        assert(path.first() == top && path.last() == top);
        assert(is_below(nodes, top, top));
        lemma_without(nodes[k].children, top, c);
    }
}

/// Dropping a node from both leaves the greater tree the greater, by no other
/// nodes than before.
pub(crate) proof fn lemma_extends_dropped(small: Nodes, big: Nodes, top: NodeId)
    requires
        extends(small, big),
    ensures
        extends(dropped(small, top), dropped(big, top)),
        no_more_new(dropped(small, top), dropped(big, top), small, big),
{
    let s = dropped(small, top);
    let b = dropped(big, top);
    assert forall|k: NodeId| #[trigger] small.contains_key(k) implies s.contains_key(k)
        == b.contains_key(k) by {
        lemma_extends_below(small, big, top, k);
        if !small.contains_key(top) {
            lemma_below_new(small, big, top, k);
        }
    }
    assert forall|k: NodeId| #[trigger] s.contains_key(k) implies b.contains_key(k)
        && b[k].parent == s[k].parent by {
        assert(small.contains_key(k));
    }
    assert forall|k: NodeId, c: NodeId|
        s.contains_key(k) && s.contains_key(c) && #[trigger] s[k].children.contains(
            c,
        ) implies b[k].children.contains(c) by {
        assert(small.contains_key(k) && small.contains_key(c));
        lemma_dropped_children(small, top, k, c);
        assert(small[k].children.contains(c));
        lemma_dropped_children(big, top, k, c);
    }
    assert forall|k: NodeId, c: NodeId|
        s.contains_key(k) && #[trigger] b[k].children.contains(c) implies s[k].children.contains(c)
        || !s.contains_key(c) by {
        assert(small.contains_key(k));
        if s.contains_key(c) {
            assert(small.contains_key(c));
            assert(b.contains_key(c));
            lemma_dropped_children(big, top, k, c);
            assert(big[k].children.contains(c));
            lemma_dropped_children(small, top, k, c);
        }
    }
    assert forall|k: NodeId, c: NodeId|
        b.contains_key(k) && !s.contains_key(k) && #[trigger] b[k].children.contains(
            c,
        ) implies !s.contains_key(c) by {
        assert(!small.contains_key(k));
        if s.contains_key(c) {
            assert(small.contains_key(c));
            assert(b.contains_key(c));
            lemma_dropped_children(big, top, k, c);
            assert(big[k].children.contains(c));
        }
    }
}

/// Dropping some nodes from both.
pub(crate) proof fn lemma_extends_all_dropped(small: Nodes, big: Nodes, ids: Seq<NodeId>)
    requires
        extends(small, big),
    ensures
        extends(all_dropped(small, ids), all_dropped(big, ids)),
        no_more_new(all_dropped(small, ids), all_dropped(big, ids), small, big),
    decreases ids.len(),
{
    if ids.len() > 0 {
        let rest = ids.drop_last();
        lemma_extends_all_dropped(small, big, rest);
        lemma_extends_dropped(all_dropped(small, rest), all_dropped(big, rest), ids.last());
    }
}

/// Clearing a window from both leaves the greater tree the greater, by no other
/// nodes than before.
pub(crate) proof fn lemma_extends_cleared(small: Nodes, big: Nodes, w: Window)
    requires
        extends(small, big),
    ensures
        extends(cleared(small, w), cleared(big, w)),
        no_more_new(cleared(small, w), cleared(big, w), small, big),
{
    lemma_extends_all_dropped(small, big, w.rows@);
    lemma_extends_all_dropped(all_dropped(small, w.rows@), all_dropped(big, w.rows@), w.spacers@);
}

/// A tree is an extension of what dropping a node leaves of it.
pub(crate) proof fn lemma_dropped_extends(nodes: Nodes, top: NodeId)
    ensures
        extends(dropped(nodes, top), nodes),
{
    let less = dropped(nodes, top);
    if nodes.contains_key(top) {
        assert forall|k: NodeId, c: NodeId|
            less.contains_key(k) && less.contains_key(c) && #[trigger] less[k].children.contains(
                c,
            ) implies nodes[k].children.contains(c) by {
            lemma_dropped_children(nodes, top, k, c);
        }
        assert forall|k: NodeId, c: NodeId|
            less.contains_key(k) && #[trigger] nodes[k].children.contains(
                c,
            ) implies less[k].children.contains(c) || !less.contains_key(c) by {
            if less.contains_key(c) {
                lemma_dropped_children(nodes, top, k, c);
            }
        }
        assert forall|k: NodeId, c: NodeId|
            nodes.contains_key(k) && !less.contains_key(k) && #[trigger] nodes[k].children.contains(
                c,
            ) implies !less.contains_key(c) by {
            let path = choose|path: Seq<NodeId>| #[trigger]
                leads_down(nodes, path) && path.len() > 0 && path.first() == top && path.last()
                    == k;
            let longer = path.push(c);
            assert forall|i: int|
                #![trigger longer[i]]
                0 <= i < longer.len() - 1 implies nodes.contains_key(longer[i])
                && nodes[longer[i]].children.contains(longer[i + 1]) by {
                assert(longer[i] == path[i]);
                if i + 1 < path.len() {
                    assert(longer[i + 1] == path[i + 1]);
                } else {
                    assert(path[i] == path.last());
                }
            }
            assert(leads_down(nodes, longer));
            assert(longer.first() == top && longer.last() == c);
            assert(is_below(nodes, top, c));
        }
    }
}

/// Dropping nodes brings none in.
pub(crate) proof fn lemma_cleared_within(nodes: Nodes, w: Window)
    ensures
        cleared(nodes, w).dom().subset_of(nodes.dom()),
{
    lemma_all_dropped_within(nodes, w.rows@);
    lemma_all_dropped_within(all_dropped(nodes, w.rows@), w.spacers@);
}

proof fn lemma_all_dropped_within(nodes: Nodes, ids: Seq<NodeId>)
    ensures
        all_dropped(nodes, ids).dom().subset_of(nodes.dom()),
    decreases ids.len(),
{
    if ids.len() > 0 {
        lemma_all_dropped_within(nodes, ids.drop_last());
    }
}

/// Does `after` hold the nodes of `before` and at most `more` others?
pub open spec fn grown_by(before: Set<NodeId>, after: Set<NodeId>, more: nat) -> bool {
    before.subset_of(after) && after.finite() && after.len() <= before.len() + more
}

/// A tree that grows by some nodes grows by no more of them when a window is
/// cleared from it.
pub(crate) proof fn lemma_cleared_grows(small: Nodes, big: Nodes, w: Window, more: nat)
    requires
        extends(small, big),
        small.dom().finite(),
        big.dom().finite(),
        big.dom().len() <= small.dom().len() + more,
    ensures
        grown_by(cleared(small, w).dom(), cleared(big, w).dom(), more),
{
    lemma_extends_cleared(small, big, w);
    lemma_cleared_within(small, w);
    lemma_cleared_within(big, w);
    let s = cleared(small, w).dom();
    let b = cleared(big, w).dom();
    let new = big.dom().difference(small.dom());
    assert(s.subset_of(b)) by {
        assert forall|k: NodeId| s.contains(k) implies b.contains(k) by {
            assert(cleared(small, w).contains_key(k));
        }
    }
    assert(small.dom().subset_of(big.dom())) by {
        assert forall|k: NodeId| small.dom().contains(k) implies big.dom().contains(k) by {
            assert(small.contains_key(k));
        }
    }
    vstd::set_lib::lemma_len_subset(s, small.dom());
    vstd::set_lib::lemma_len_subset(b, big.dom());
    vstd::set_lib::lemma_len_subset(new, big.dom());
    assert(b.subset_of(s.union(new))) by {
        assert forall|k: NodeId| b.contains(k) implies s.union(new).contains(k) by {
            assert(cleared(big, w).contains_key(k));
        }
    }
    assert(new.union(small.dom()) =~= big.dom());
    vstd::set_lib::lemma_set_disjoint_lens(new, small.dom());
    vstd::set_lib::lemma_len_subset(b, s.union(new));
    vstd::set_lib::lemma_len_union(s, new);
}

pub(crate) proof fn lemma_row_tags()
    ensures
        "tr"@ != "td"@,
        "tr"@ != "tbody"@,
        "tr"@ != "thead"@,
        "tr"@ != "tfoot"@,
        "td"@ != "tbody"@,
        "td"@ != "thead"@,
        "td"@ != "tfoot"@,
{
    reveal_strlit("tr");
    reveal_strlit("td");
    reveal_strlit("tbody");
    reveal_strlit("thead");
    reveal_strlit("tfoot");
    assert("tr"@.len() == 2 && "td"@.len() == 2);
    assert("tr"@[1] == 'r' && "td"@[1] == 'd');
    assert("tbody"@.len() == 5 && "thead"@.len() == 5 && "tfoot"@.len() == 5);
}

/// What came in with a window is a row, a cell or a text, and asks for no width.
pub(crate) proof fn lemma_drawn_node(
    base: Nodes,
    drawn: Nodes,
    tbody: NodeId,
    w: Window,
    g: GridView,
    start: int,
    count: int,
    k: NodeId,
)
    requires
        window_drawn(base, drawn, tbody, w, g, start, count),
        drawn.contains_key(k),
        !base.contains_key(k),
    ensures
        !is_row_group(drawn, k),
        fixed_width(drawn, k) is None,
        forall|c: NodeId| #[trigger]
            drawn[k].children.contains(c) ==> drawn.contains_key(c) && !base.contains_key(c),
{
    lemma_row_tags();
    let top: nat = if has_top(g, start) {
        1
    } else {
        0
    };
    let bottom: nat = if has_bottom(g, start, count) {
        1
    } else {
        0
    };
    let ids = w.spacers@.take(top as int) + w.rows@ + w.spacers@.skip(top as int);
    let tds = no_cells(top) + cell_ids(w.cells@) + no_cells(bottom);
    let pieces = window_pieces(g, start, count);
    let hidden = hidden_flags(g.table);
    let i = choose|i: int| 0 <= i < ids.len() && #[trigger] in_row(drawn, ids[i], tds[i], k);
    assert(piece_built(drawn, ids[i], Some(tbody), tds[i], pieces[i], hidden));
    match pieces[i] {
        Piece::Spacer { height } => {
            assert(k == ids[i]);
        },
        Piece::Data { slot } => {
            if k == ids[i] {
                assert forall|c: NodeId| #[trigger] drawn[k].children.contains(
                    c,
                ) implies drawn.contains_key(c) && !base.contains_key(c) by {
                    let j = choose|j: int| 0 <= j < tds[i].len() && tds[i][j] == c;
                    assert(cell_built(
                        drawn,
                        tds[i][j],
                        Some(ids[i]),
                        slot_cell(slot, j),
                        hidden[j],
                    ));
                    assert(in_row(drawn, ids[i], tds[i], c));
                }
            } else if tds[i].contains(k) {
                let j = choose|j: int| 0 <= j < tds[i].len() && tds[i][j] == k;
                assert(cell_built(drawn, tds[i][j], Some(ids[i]), slot_cell(slot, j), hidden[j]));
                assert forall|c: NodeId| #[trigger] drawn[k].children.contains(
                    c,
                ) implies drawn.contains_key(c) && !base.contains_key(c) by {
                    assert(drawn[tds[i][j]].children.contains(c));
                    assert(in_row(drawn, ids[i], tds[i], c));
                }
            } else {
                let j = choose|j: int|
                    0 <= j < tds[i].len() && drawn.contains_key(#[trigger] tds[i][j])
                        && drawn[tds[i][j]].children.contains(k);
                assert(cell_built(drawn, tds[i][j], Some(ids[i]), slot_cell(slot, j), hidden[j]));
                assert(drawn[tds[i][j]].children[0] == k);
            }
        },
    }
}

/// A tree with a window drawn is an extension of the tree without it.
pub(crate) proof fn lemma_drawn_extends(
    base: Nodes,
    drawn: Nodes,
    tbody: NodeId,
    w: Window,
    g: GridView,
    start: int,
    count: int,
)
    requires
        window_drawn(base, drawn, tbody, w, g, start, count),
    ensures
        extends(base, drawn),
{
    let top: nat = if has_top(g, start) {
        1
    } else {
        0
    };
    let bottom: nat = if has_bottom(g, start, count) {
        1
    } else {
        0
    };
    let ids = w.spacers@.take(top as int) + w.rows@ + w.spacers@.skip(top as int);
    let tds = no_cells(top) + cell_ids(w.cells@) + no_cells(bottom);
    let kids = base[tbody].children;
    assert forall|k: NodeId| #[trigger] base.contains_key(k) implies drawn.contains_key(k)
        && drawn[k].parent == base[k].parent && (k != tbody ==> drawn[k] == base[k]) by {}
    assert forall|k: NodeId, c: NodeId|
        base.contains_key(k) && base.contains_key(c) && #[trigger] base[k].children.contains(
            c,
        ) implies drawn[k].children.contains(c) by {
        if k == tbody {
            let i = choose|i: int| 0 <= i < kids.len() && kids[i] == c;
            assert((kids + ids)[i] == c);
        }
    }
    assert forall|k: NodeId, c: NodeId|
        base.contains_key(k) && #[trigger] drawn[k].children.contains(
            c,
        ) implies base[k].children.contains(c) || !base.contains_key(c) by {
        if k == tbody {
            let i = choose|i: int| 0 <= i < (kids + ids).len() && (kids + ids)[i] == c;
            if i < kids.len() {
                assert(kids[i] == c);
            } else {
                let j = i - kids.len();
                assert(ids[j] == c);
                assert(in_row(drawn, ids[j], tds[j], c));
            }
        }
    }
    assert forall|k: NodeId, c: NodeId|
        drawn.contains_key(k) && !base.contains_key(k) && #[trigger] drawn[k].children.contains(
            c,
        ) implies !base.contains_key(c) by {
        lemma_drawn_node(base, drawn, tbody, w, g, start, count, k);
    }
}

} // verus!
