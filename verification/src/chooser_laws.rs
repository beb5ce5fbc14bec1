//! What holds of the column chooser.

use rdom_tui::NodeId;
use vstd::prelude::*;

use crate::chooser::menu_opened;
use crate::columns::{hide_step, menu_synced, relaid};
use crate::dom::{
    closed_below, dropped, has_attr, is_below, is_element, leads_down, without_child, Nodes,
};
use crate::grid::GridView;
use crate::input::{action_of, key_step, KeyAction};
use crate::marks::{all_marked, marked, Mark};
use crate::menu::{
    in_item, item_built, item_marks, items_synced, menu_drawn, open_marks, Menu,
};
use crate::selection::SelectionMode;
use crate::view::{header_cells, refreshed, VirtualTableView};
use crate::view_laws::{lemma_marks_keep, lemma_unmarked};

verus! {

/// A path down from the panel of a chooser never leads to a node that was there
/// before.
proof fn lemma_panel_path(
    before: Nodes,
    after: Nodes,
    chip: NodeId,
    m: Menu,
    g: GridView,
    path: Seq<NodeId>,
    at: int,
)
    requires
        menu_drawn(before, after, chip, m.node, m.items@, m.boxes@, m.texts@, g),
        leads_down(after, path),
        path.len() > 0,
        path.first() == m.node,
        0 <= at < path.len(),
    ensures
        !before.contains_key(path[at]),
    decreases at,
{
    if at > 0 {
        lemma_panel_path(before, after, chip, m, g, path, at - 1);
        let up = path[at - 1];
        assert(after.contains_key(up) && after[up].children.contains(path[at]));
        if up == m.node {
            let i = choose|i: int| 0 <= i < m.items@.len() && m.items@[i] == path[at];
            assert(in_item(m.items@[i], m.boxes@[i], m.texts@[i], path[at]));
        } else {
            let i = choose|i: int|
                0 <= i < m.items@.len() && #[trigger] in_item(
                    m.items@[i],
                    m.boxes@[i],
                    m.texts@[i],
                    up,
                );
            assert(item_built(
                after,
                m.items@[i],
                m.boxes@[i],
                m.texts@[i],
                Some(m.node),
                g.table.columns[i],
                i,
                g.table.hidden.contains(i as usize),
            ));
            assert(in_item(m.items@[i], m.boxes@[i], m.texts@[i], path[at]));
        }
    }
}

/// Everything that came in with a chooser is under its panel.
proof fn lemma_panel_below(
    before: Nodes,
    after: Nodes,
    chip: NodeId,
    m: Menu,
    g: GridView,
    k: NodeId,
)
    requires
        menu_drawn(before, after, chip, m.node, m.items@, m.boxes@, m.texts@, g),
        after.contains_key(k),
    ensures
        is_below(after, m.node, k) == !before.contains_key(k),
{
    if is_below(after, m.node, k) {
        let path = choose|path: Seq<NodeId>| #[trigger]
            leads_down(after, path) && path.len() > 0 && path.first() == m.node && path.last()
                == k;
        lemma_panel_path(before, after, chip, m, g, path, path.len() - 1);
    }
    if !before.contains_key(k) {
        if k == m.node {
            let path = seq![k];
            assert(leads_down(after, path));
            assert(path.first() == m.node && path.last() == k);
        } else {
            let i = choose|i: int|
                0 <= i < m.items@.len() && #[trigger] in_item(
                    m.items@[i],
                    m.boxes@[i],
                    m.texts@[i],
                    k,
                );
            let item = m.items@[i];
            assert(item_built(
                after,
                item,
                m.boxes@[i],
                m.texts@[i],
                Some(m.node),
                g.table.columns[i],
                i,
                g.table.hidden.contains(i as usize),
            ));
            assert(after[m.node].children.contains(item));
            if k == item {
                let path = seq![m.node, item];
                assert(leads_down(after, path));
                assert(path.first() == m.node && path.last() == k);
            } else {
                let path = seq![m.node, item, k];
                let kids = after[item].children;
                assert(kids[0] == m.boxes@[i] && kids[1] == m.texts@[i]);
                assert(kids.contains(k));
                assert(leads_down(after, path));
                assert(path.first() == m.node && path.last() == k);
            }
        }
    }
}

/// Marks change nothing of a node but the attributes they are of, and none of a
/// node that they are not of.
proof fn lemma_marks_elsewhere(nodes: Nodes, marks: Seq<Mark>, id: NodeId)
    requires
        forall|i: int| 0 <= i < marks.len() ==> (#[trigger] marks[i]).id != id,
    ensures
        all_marked(nodes, marks).contains_key(id) == nodes.contains_key(id),
        nodes.contains_key(id) ==> all_marked(nodes, marks)[id] == nodes[id],
    decreases marks.len(),
{
    if marks.len() > 0 {
        assert(marks.last() == marks[marks.len() - 1]);
        lemma_marks_elsewhere(nodes, marks.drop_last(), id);
    }
}

/// Marking the chip and the table.
pub(crate) proof fn lemma_open_marked(nodes: Nodes, chip: NodeId, table: NodeId, on: bool)
    ensures
        all_marked(nodes, open_marks(chip, table, on)) == marked(
            marked(nodes, Mark { id: chip, attr: "data-vt-menu-open"@, on }),
            Mark { id: table, attr: "data-vt-menu-open"@, on },
        ),
{
    let marks = open_marks(chip, table, on);
    let one = seq![marks[0]];
    assert(marks.drop_last() =~= one);
    assert(one.drop_last() =~= Seq::<Mark>::empty());
    assert(all_marked(nodes, Seq::empty()) == nodes);
    assert(all_marked(nodes, one) == marked(nodes, marks[0]));
}

/// Closing the chooser undoes opening it: the tree is again as it was, where
/// chip and table did not already carry the mark of an open chooser.
pub proof fn closing_undoes_opening(
    n0: Nodes,
    n1: Nodes,
    v: VirtualTableView,
    m: Menu,
    chip: NodeId,
    table: NodeId,
)
    requires
        menu_opened(n0, n1, v, m),
        v.chip == Some(chip),
        v.frame matches Some(f) && f.table == table,
        closed_below(n0),
        !has_attr(n0, chip, "data-vt-menu-open"@),
        !has_attr(n0, table, "data-vt-menu-open"@),
        n0.contains_key(table),
    ensures
        all_marked(dropped(n1, m.node), open_marks(chip, table, false)) == n0,
{
    let g = v.grid@;
    let drawn = choose|drawn: Nodes| #[trigger]
        menu_drawn(n0, drawn, chip, m.node, m.items@, m.boxes@, m.texts@, g) && n1 == all_marked(
            all_marked(drawn, open_marks(chip, table, true)),
            item_marks(m.items@, 0),
        );
    let opened = all_marked(drawn, open_marks(chip, table, true));
    let marks = item_marks(m.items@, 0);
    lemma_open_marked(drawn, chip, table, true);
    assert forall|k: NodeId| n0.contains_key(k) implies n1.contains_key(k) && #[trigger] n1[k]
        == opened[k] by {
        assert(drawn.contains_key(k));
        assert forall|i: int| 0 <= i < marks.len() implies (#[trigger] marks[i]).id != k by {
            assert(in_item(m.items@[i], m.boxes@[i], m.texts@[i], m.items@[i]));
        }
        lemma_marks_elsewhere(opened, marks, k);
    }
    assert forall|k: NodeId| #[trigger] n1.contains_key(k) == drawn.contains_key(k) by {
        lemma_marks_keep(opened, marks, k);
    }
    let left = dropped(n1, m.node);
    assert forall|k: NodeId| n1.contains_key(k) implies is_below(n1, m.node, k)
        == !#[trigger] n0.contains_key(k) by {
        lemma_panel_below(n0, drawn, chip, m, g, k);
        lemma_same_below(drawn, n1, opened, marks, chip, table, m.node, k);
    }
    lemma_marks_keep(opened, marks, m.node);
    assert(n1.contains_key(m.node));
    assert(n1[m.node].parent == Some(chip));
    assert forall|k: NodeId| #[trigger] left.contains_key(k) == n0.contains_key(k) by {
        if n0.contains_key(k) {
            assert(drawn.contains_key(k));
        }
    }
    let end = all_marked(left, open_marks(chip, table, false));
    lemma_open_marked(left, chip, table, false);
    assert forall|k: NodeId| n0.contains_key(k) implies #[trigger] end[k] == n0[k] by {
        assert(drawn.contains_key(k));
        assert(n1[k] == opened[k]);
        if k == chip {
            assert(without_child(drawn[chip].children, m.node) == n0[chip].children) by {
                lemma_last_child_out(n0[chip].children, m.node);
            }
        }
        assert(end[k].attrs =~= n0[k].attrs);
    }
    assert(end =~= n0);
}

/// Leaving a child out, from the last child down.
proof fn lemma_without_last(children: Seq<NodeId>, child: NodeId)
    requires
        children.len() > 0,
    ensures
        without_child(children, child) == (if children.last() != child {
            without_child(children.drop_last(), child).push(children.last())
        } else {
            without_child(children.drop_last(), child)
        }),
{
    reveal(Seq::filter);
}

/// Leaving out what is no child.
proof fn lemma_without_stranger(children: Seq<NodeId>, child: NodeId)
    requires
        !children.contains(child),
    ensures
        without_child(children, child) == children,
    decreases children.len(),
{
    if children.len() == 0 {
        reveal(Seq::filter);
        assert(without_child(children, child) =~= children);
    } else {
        let rest = children.drop_last();
        assert(!rest.contains(child)) by {
            if rest.contains(child) {
                let i = choose|i: int| 0 <= i < rest.len() && rest[i] == child;
                assert(children[i] == child);
            }
        }
        lemma_without_stranger(rest, child);
        lemma_without_last(children, child);
        assert(children.last() == children[children.len() - 1]);
        assert(children.contains(children.last()));
        assert(rest.push(children.last()) =~= children);
    }
}

/// Taking the last child out again.
proof fn lemma_last_child_out(children: Seq<NodeId>, child: NodeId)
    requires
        !children.contains(child),
    ensures
        without_child(children.push(child), child) == children,
{
    let all = children.push(child);
    lemma_without_stranger(children, child);
    lemma_without_last(all, child);
    assert(all.drop_last() =~= children);
}

/// Marks put nothing under anything.
proof fn lemma_same_below(
    drawn: Nodes,
    n1: Nodes,
    opened: Nodes,
    marks: Seq<Mark>,
    chip: NodeId,
    table: NodeId,
    top: NodeId,
    k: NodeId,
)
    requires
        opened == all_marked(drawn, open_marks(chip, table, true)),
        n1 == all_marked(opened, marks),
    ensures
        is_below(n1, top, k) == is_below(drawn, top, k),
{
    assert forall|x: NodeId| #[trigger] n1.contains_key(x) == drawn.contains_key(x) && (
    drawn.contains_key(x) ==> n1[x].children == drawn[x].children) by {
        lemma_marks_keep(drawn, open_marks(chip, table, true), x);
        lemma_marks_keep(opened, marks, x);
    }
    assert forall|x: NodeId| #[trigger] drawn.contains_key(x) implies n1.contains_key(x)
        && n1[x].children == drawn[x].children by {
        assert(n1.contains_key(x) == drawn.contains_key(x));
    }
    if is_below(n1, top, k) {
        let path = choose|path: Seq<NodeId>| #[trigger]
            leads_down(n1, path) && path.len() > 0 && path.first() == top && path.last() == k;
        assert(leads_down(drawn, path)) by {
            assert forall|i: int|
                #![trigger path[i]]
                0 <= i < path.len() - 1 implies drawn.contains_key(path[i])
                && drawn[path[i]].children.contains(path[i + 1]) by {
                assert(n1.contains_key(path[i]));
            }
        }
    }
    if is_below(drawn, top, k) {
        let path = choose|path: Seq<NodeId>| #[trigger]
            leads_down(drawn, path) && path.len() > 0 && path.first() == top && path.last() == k;
        assert(leads_down(n1, path)) by {
            assert forall|i: int|
                #![trigger path[i]]
                0 <= i < path.len() - 1 implies n1.contains_key(path[i])
                && n1[path[i]].children.contains(path[i + 1]) by {
                assert(drawn.contains_key(path[i]));
            }
        }
    }
}

/// An open chooser lists the columns, each under its header, with its checkbox
/// checked exactly if the column is shown.
pub proof fn the_chooser_shows_which_columns_are_shown(
    n0: Nodes,
    n1: Nodes,
    v: VirtualTableView,
    m: Menu,
    i: int,
)
    requires
        menu_opened(n0, n1, v, m),
        0 <= i < m.items@.len(),
    ensures
        n1.contains_key(m.items@[i]),
        n1[m.items@[i]].parent == Some(m.node),
        n1[m.items@[i]].children == seq![m.boxes@[i], m.texts@[i]],
        has_attr(n1, m.boxes@[i], "checked"@) == !v.grid@.table.hidden.contains(i as usize),
        n1.contains_key(m.texts@[i]),
        n1[m.texts@[i]].data == v.grid@.table.columns[i].header@,
{
    let g = v.grid@;
    let chip = v.chip.unwrap();
    let table = v.frame.unwrap().table;
    let drawn = choose|drawn: Nodes| #[trigger]
        menu_drawn(n0, drawn, chip, m.node, m.items@, m.boxes@, m.texts@, g) && n1 == all_marked(
            all_marked(drawn, open_marks(chip, table, true)),
            item_marks(m.items@, 0),
        );
    let first = open_marks(chip, table, true);
    let second = item_marks(m.items@, 0);
    let opened = all_marked(drawn, first);
    assert(item_built(
        drawn,
        m.items@[i],
        m.boxes@[i],
        m.texts@[i],
        Some(m.node),
        g.table.columns[i],
        i,
        g.table.hidden.contains(i as usize),
    ));
    lemma_checked_name();
    lemma_unmarked(drawn, first, m.boxes@[i], "checked"@);
    lemma_unmarked(opened, second, m.boxes@[i], "checked"@);
    lemma_marks_keep(drawn, first, m.items@[i]);
    lemma_marks_keep(opened, second, m.items@[i]);
    lemma_marks_keep(drawn, first, m.texts@[i]);
    lemma_marks_keep(opened, second, m.texts@[i]);
}

proof fn lemma_checked_name()
    ensures
        "checked"@ != "data-vt-menu-open"@,
        "checked"@ != "data-vt-menu-active"@,
        "checked"@ != "type"@,
{
    reveal_strlit("checked");
    reveal_strlit("data-vt-menu-open");
    reveal_strlit("data-vt-menu-active");
    reveal_strlit("type");
    assert("checked"@.len() == 7);
    assert("data-vt-menu-open"@.len() == 17);
    assert("data-vt-menu-active"@.len() == 19);
    assert("type"@.len() == 4);
}

/// When columns are hidden, shown or moved, the checkboxes of an open chooser
/// come to show it.
pub proof fn checkboxes_follow_the_columns(
    nodes: Nodes,
    m: Menu,
    g: GridView,
    i: int,
)
    requires
        0 <= i < m.boxes@.len(),
        m.boxes@.no_duplicates(),
        m.texts@.len() == m.boxes@.len(),
        forall|j: int| 0 <= j < m.boxes@.len() ==> is_element(nodes, #[trigger] m.boxes@[j]),
        forall|j: int|
            0 <= j < m.texts@.len() ==> nodes.contains_key(#[trigger] m.texts@[j])
                && nodes[m.texts@[j]].kind is Text,
    ensures
        has_attr(menu_synced(nodes, Some(m), g), m.boxes@[i], "checked"@)
            == !g.table.hidden.contains(i as usize),
{
    lemma_synced(nodes, m.boxes@, m.texts@, g, m.boxes@.len(), i);
}

proof fn lemma_synced(
    nodes: Nodes,
    boxes: Seq<NodeId>,
    texts: Seq<NodeId>,
    g: GridView,
    n: nat,
    i: int,
)
    requires
        0 <= i < boxes.len(),
        n <= boxes.len(),
        texts.len() == boxes.len(),
        boxes.no_duplicates(),
        forall|j: int| 0 <= j < boxes.len() ==> is_element(nodes, #[trigger] boxes[j]),
        forall|j: int|
            0 <= j < texts.len() ==> nodes.contains_key(#[trigger] texts[j])
                && nodes[texts[j]].kind is Text,
    ensures
        is_element(items_synced(nodes, boxes, texts, g, n), boxes[i]),
        forall|j: int|
            0 <= j < texts.len() ==> items_synced(nodes, boxes, texts, g, n).contains_key(
                #[trigger] texts[j],
            ) && items_synced(nodes, boxes, texts, g, n)[texts[j]].kind is Text,
        i < n ==> has_attr(items_synced(nodes, boxes, texts, g, n), boxes[i], "checked"@)
            == !g.table.hidden.contains(i as usize),
    decreases n,
{
    if n > 0 {
        lemma_synced(nodes, boxes, texts, g, (n - 1) as nat, i);
        lemma_synced(nodes, boxes, texts, g, (n - 1) as nat, n - 1);
        let rest = items_synced(nodes, boxes, texts, g, (n - 1) as nat);
        assert(rest.contains_key(texts[n - 1]) && rest[texts[n - 1]].kind is Text);
    }
}

/// An open chooser owns the keyboard: no key moves the cursor, changes the
/// selection or scrolls the body.
pub proof fn an_open_chooser_owns_the_keyboard(
    v0: VirtualTableView,
    n0: Nodes,
    v1: VirtualTableView,
    n1: Nodes,
    mode: SelectionMode,
    key: Seq<char>,
    shift: bool,
    ctrl: bool,
    scroll_to: Option<usize>,
)
    requires
        v0.wf(),
        v0.menu is Some,
        key_step(v0, n0, v1, n1, action_of(true, mode, key, shift, ctrl), scroll_to),
    ensures
        v1.grid@.cursor == v0.grid@.cursor,
        v1.grid@.selection == v0.grid@.selection,
        scroll_to is None,
{
    let m = v0.menu.unwrap();
    if action_of(true, mode, key, shift, ctrl) == KeyAction::MenuActivate {
        let hidden = !v0.grid@.table.hidden.contains(m.cursor);
        assert(hide_step(v0, n0, v1, n1, m.cursor, hidden));
        if !(hidden && v0.grid@.last_visible(m.cursor)) {
            let g1 = v0.grid@.after_hide(m.cursor, hidden);
            let ths = header_cells(v0.frame);
            let flagged = if m.cursor < ths.len() {
                marked(
                    n0,
                    Mark { id: ths[m.cursor as int], attr: "data-vt-hidden"@, on: hidden },
                )
            } else {
                n0
            };
            let n = menu_synced(flagged, v0.menu, g1);
            assert(relaid(v0, n, v1, n1, g1));
            let g2 = choose|g2: GridView| #[trigger]
                refreshed(
                    n,
                    n1,
                    v0.frame,
                    v0.window,
                    v1.window,
                    g1,
                    g2,
                    v0.window.rows@.len() as usize,
                ) && v1.grid@ == g2.noted();
        }
    }
}

/// Without a selection mode a key navigates or is ignored, and with shift it is
/// ignored.
pub proof fn selection_keys_need_a_mode(key: Seq<char>, shift: bool, ctrl: bool)
    ensures
        ({
            let action = action_of(false, SelectionMode::Off, key, shift, ctrl);
            &&& action is Ignore || action is Navigate
            &&& shift ==> action is Ignore
        }),
{
}

} // verus!
