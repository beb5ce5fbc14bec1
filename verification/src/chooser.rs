//! The column chooser of a view: opening and closing its panel, moving its
//! highlight, and showing or hiding the columns that it lists.

use rdom_tui::{NodeId, TuiDom};
use vstd::prelude::*;

use crate::clear::{cleared, lemma_shape_kept, lemma_shape_marked, lemma_shape_shape, same_shape};
use crate::columns::{hide_step, menu_synced};
use crate::dom::{
    column_sizes, dom_nodes, dom_quiet, drop_subtree, dropped, has_room, is_below, no_style,
    size_columns, with_columns_sized, Nodes,
};
use crate::draw::lemma_drop_keeps;
use crate::grow::{
    extends, grown_by, lemma_below_new, lemma_cleared_grows, lemma_dropped_extends,
    lemma_extends_below, lemma_extends_cleared,
};
use crate::marks::all_marked;
use crate::menu::{
    chip_drawn, draw_chip, draw_menu, in_item, item_built, item_marks, mark_items, mark_open,
    menu_drawn, open_marks, Menu,
};
use crate::view::{lemma_shape_ready, stays_attached, stays_ready, VirtualTableView};

verus! {

/// A view of a tree to which new nodes came, and whose attributes and sizes
/// changed since, is attached if it was, and the tree without its rows grew by no
/// more nodes.
proof fn lemma_extended(
    before: Nodes,
    drawn: Nodes,
    after: Nodes,
    v0: VirtualTableView,
    v1: VirtualTableView,
    more: nat,
)
    requires
        extends(before, drawn),
        same_shape(drawn, after),
        before.dom().finite(),
        drawn.dom().finite(),
        drawn.dom().len() <= before.dom().len() + more,
        v1.frame == v0.frame,
        v1.window == v0.window,
        v1.menu matches Some(m1) ==> match v0.menu {
            Some(m0) => m0.node == m1.node,
            None => !before.contains_key(m1.node),
        },
    ensures
        v0.attached(before) ==> v1.attached(after),
        v0.frame is Some ==> grown_by(
            cleared(before, v0.window).dom(),
            cleared(after, v1.window).dom(),
            more,
        ),
{
    lemma_shape_ready(drawn, after, v1, v1);
    lemma_cleared_grows(before, drawn, v0.window, more);
    match v0.frame {
        Some(f) => {
            if v0.attached(before) {
                let tops = v0.window.rows@ + v0.window.spacers@;
                assert forall|i: int| 0 <= i < tops.len() implies !is_below(
                    drawn,
                    #[trigger] tops[i],
                    f.tbody,
                ) by {
                    lemma_extends_below(before, drawn, tops[i], f.tbody);
                }
                if v1.menu is Some {
                    let panel = v1.menu.unwrap().node;
                    if v0.menu is Some {
                        lemma_extends_below(before, drawn, panel, f.tbody);
                    } else {
                        lemma_below_new(before, drawn, panel, f.tbody);
                    }
                }
                assert(v1.attached(drawn));
            }
        },
        None => {},
    }
}

/// What enabling the chooser does to the tree.
pub open spec fn chip_added(n0: Nodes, n1: Nodes, v: VirtualTableView, chip: NodeId) -> bool {
    match v.frame {
        Some(f) => exists|drawn: Nodes| #[trigger]
            chip_drawn(n0, drawn, f.header_tr, chip) && n1 == with_columns_sized(
                drawn,
                column_sizes(drawn, f.table),
            ),
        None => false,
    }
}

/// What opening the chooser does to the tree.
pub open spec fn menu_opened(n0: Nodes, n1: Nodes, v0: VirtualTableView, m: Menu) -> bool {
    match (v0.frame, v0.chip) {
        (Some(f), Some(chip)) => exists|drawn: Nodes| #[trigger]
            menu_drawn(n0, drawn, chip, m.node, m.items@, m.boxes@, m.texts@, v0.grid@) && n1
                == all_marked(
                all_marked(drawn, open_marks(chip, f.table, true)),
                item_marks(m.items@, 0),
            ),
        _ => false,
    }
}

/// The item that is highlighted after moving the highlight by `delta`.
pub open spec fn moved_highlight(cursor: usize, delta: int, items: nat) -> int {
    if items == 0 || cursor + delta < 0 {
        0
    } else if cursor + delta >= items {
        items - 1
    } else {
        cursor + delta
    }
}

impl VirtualTableView {
    /// Draw the chip of the column chooser at the end of the header. Nothing
    /// happens before the table is mounted or if there is a chip.
    pub fn enable_column_actions(&mut self, dom: &mut TuiDom)
        requires
            old(self).wf(),
            dom_quiet(*old(dom)),
            old(self).chip is None && old(self).frame is Some ==> dom_nodes(
                *old(dom),
            ).contains_key(old(self).frame.unwrap().header_tr) && has_room(
                dom_nodes(*old(dom)),
                2,
            ),
        ensures
            final(self).wf(),
            dom_quiet(*final(dom)),
            final(self).grid == old(self).grid,
            final(self).frame == old(self).frame,
            final(self).window == old(self).window,
            final(self).mouse_drag == old(self).mouse_drag,
            final(self).menu == old(self).menu,
            old(self).attached(dom_nodes(*old(dom))) ==> final(self).attached(
                dom_nodes(*final(dom)),
            ),
            old(self).chip is None && old(self).frame is Some ==> grown_by(
                cleared(dom_nodes(*old(dom)), old(self).window).dom(),
                cleared(dom_nodes(*final(dom)), final(self).window).dom(),
                2,
            ),
            (if old(self).chip is None && old(self).frame is Some {
                final(self).chip matches Some(chip) && chip_added(
                    dom_nodes(*old(dom)),
                    dom_nodes(*final(dom)),
                    *old(self),
                    chip,
                )
            } else {
                final(self).chip == old(self).chip && dom_nodes(*final(dom)) == dom_nodes(
                    *old(dom),
                )
            }),
    {
        if self.chip.is_some() {
            return;
        }
        let (header_tr, table) = match &self.frame {
            Some(f) => (f.header_tr, f.table),
            None => {
                return;
            },
        };
        let ghost n0 = dom_nodes(*dom);
        let chip = draw_chip(dom, header_tr);
        let ghost drawn = dom_nodes(*dom);
        size_columns(dom, table);
        self.chip = Some(chip);
        proof {
            assert(chip_drawn(n0, drawn, header_tr, chip));
            lemma_shape_kept(
                drawn,
                table,
                ""@,
                None,
                ""@,
                no_style(),
                column_sizes(drawn, table),
            );
            lemma_chip_added(n0, drawn, header_tr, chip);
            lemma_extended(n0, drawn, dom_nodes(*dom), *old(self), *self, 2);
        }
    }

    /// Whether the chooser is open.
    pub fn is_column_menu_open(&self) -> (r: bool)
        ensures
            r == self.menu is Some,
    {
        self.menu.is_some()
    }

    /// Open the chooser: every column is listed, and the first item is
    /// highlighted. Nothing happens if it is open or if there is no chip.
    pub fn open_column_menu(&mut self, dom: &mut TuiDom)
        requires
            old(self).wf(),
            dom_quiet(*old(dom)),
            old(self).menu is None && old(self).chip is Some ==> dom_nodes(
                *old(dom),
            ).contains_key(old(self).chip.unwrap()) && has_room(
                dom_nodes(*old(dom)),
                1 + 3 * old(self).grid@.table.columns.len(),
            ),
        ensures
            final(self).wf(),
            dom_quiet(*final(dom)),
            final(self).grid == old(self).grid,
            final(self).frame == old(self).frame,
            final(self).window == old(self).window,
            final(self).mouse_drag == old(self).mouse_drag,
            final(self).chip == old(self).chip,
            stays_attached(
                *old(self),
                dom_nodes(*old(dom)),
                *final(self),
                dom_nodes(*final(dom)),
            ),
            (if old(self).menu is None && old(self).chip is Some {
                final(self).menu matches Some(m) && m.cursor == 0 && m.items@.len() == old(self).grid@.table.columns.len() && menu_opened(
                    dom_nodes(*old(dom)),
                    dom_nodes(*final(dom)),
                    *old(self),
                    m,
                )
            } else {
                final(self).menu == old(self).menu && dom_nodes(*final(dom)) == dom_nodes(
                    *old(dom),
                )
            }),
    {
        if self.menu.is_some() {
            return;
        }
        let (chip, table) = match (self.chip, &self.frame) {
            (Some(chip), Some(f)) => (chip, f.table),
            _ => {
                return;
            },
        };
        let ghost n0 = dom_nodes(*dom);
        let m = draw_menu(dom, &self.grid, chip);
        let ghost drawn = dom_nodes(*dom);
        mark_open(dom, chip, table, true);
        let ghost n2 = dom_nodes(*dom);
        mark_items(dom, &m);
        proof {
            assert(menu_drawn(
                n0,
                drawn,
                chip,
                m.node,
                m.items@,
                m.boxes@,
                m.texts@,
                self.grid@,
            ));
            lemma_shape_marked(drawn, open_marks(chip, table, true));
            lemma_shape_marked(n2, item_marks(m.items@, 0));
            lemma_shape_shape(drawn, n2, dom_nodes(*dom));
            lemma_menu_added(n0, drawn, chip, m, *self);
        }
        self.menu = Some(m);
        proof {
            lemma_extended(
                n0,
                drawn,
                dom_nodes(*dom),
                *old(self),
                *self,
                1 + 3 * self.grid@.table.columns.len(),
            );
        }
    }

    /// Close the chooser; the chip stays.
    pub fn close_column_menu(&mut self, dom: &mut TuiDom)
        requires
            old(self).wf(),
            dom_quiet(*old(dom)),
        ensures
            final(self).wf(),
            dom_quiet(*final(dom)),
            final(self).grid == old(self).grid,
            final(self).frame == old(self).frame,
            final(self).window == old(self).window,
            final(self).mouse_drag == old(self).mouse_drag,
            final(self).chip == old(self).chip,
            final(self).menu is None,
            stays_attached(
                *old(self),
                dom_nodes(*old(dom)),
                *final(self),
                dom_nodes(*final(dom)),
            ),
            (match (old(self).menu, old(self).frame, old(self).chip) {
                (Some(m), Some(f), Some(chip)) => dom_nodes(*final(dom)) == all_marked(
                    dropped(dom_nodes(*old(dom)), m.node),
                    open_marks(chip, f.table, false),
                ),
                _ => dom_nodes(*final(dom)) == dom_nodes(*old(dom)),
            }),
    {
        let (node, chip, table) = match (&self.menu, self.chip, &self.frame) {
            (Some(m), Some(chip), Some(f)) => (m.node, chip, f.table),
            _ => {
                self.menu = None;
                return;
            },
        };
        let ghost n0 = dom_nodes(*dom);
        drop_subtree(dom, node);
        let ghost n1 = dom_nodes(*dom);
        mark_open(dom, chip, table, false);
        self.menu = None;
        proof {
            lemma_shape_marked(n1, open_marks(chip, table, false));
            lemma_dropped_extends(n0, node);
            lemma_extends_cleared(n1, n0, self.window);
            lemma_shape_ready(n1, dom_nodes(*dom), *self, *self);
            assert forall|k: NodeId| cleared(n1, self.window).dom().contains(k) implies cleared(
                n0,
                self.window,
            ).dom().contains(k) by {
                assert(cleared(n1, self.window).contains_key(k));
            }
            match &self.frame {
                Some(f) => {
                    if old(self).attached(n0) {
                        lemma_drop_keeps(n0, node, node, f.tbody);
                        let tops = self.window.rows@ + self.window.spacers@;
                        assert forall|i: int| 0 <= i < tops.len() implies !is_below(
                            n1,
                            #[trigger] tops[i],
                            f.tbody,
                        ) by {
                            lemma_drop_keeps(n0, node, tops[i], f.tbody);
                        }
                        assert(self.attached(n1));
                    }
                },
                None => {},
            }
        }
    }

    /// Move the highlight of an open chooser by `delta` items, limited to its
    /// items.
    pub fn menu_highlight_move(&mut self, dom: &mut TuiDom, delta: isize)
        requires
            old(self).wf(),
            dom_quiet(*old(dom)),
        ensures
            final(self).wf(),
            dom_quiet(*final(dom)),
            final(self).grid == old(self).grid,
            final(self).frame == old(self).frame,
            final(self).window == old(self).window,
            final(self).mouse_drag == old(self).mouse_drag,
            final(self).chip == old(self).chip,
            stays_attached(
                *old(self),
                dom_nodes(*old(dom)),
                *final(self),
                dom_nodes(*final(dom)),
            ),
            (match old(self).menu {
                Some(m) => final(self).menu == Some(
                    Menu {
                        cursor: moved_highlight(m.cursor, delta as int, m.items@.len()) as usize,
                        ..m
                    },
                ) && dom_nodes(*final(dom)) == all_marked(
                    dom_nodes(*old(dom)),
                    item_marks(
                        m.items@,
                        moved_highlight(m.cursor, delta as int, m.items@.len()) as usize,
                    ),
                ),
                None => final(self).menu is None && dom_nodes(*final(dom)) == dom_nodes(
                    *old(dom),
                ),
            }),
    {
        let ghost n0 = dom_nodes(*dom);
        match self.menu.take() {
            Some(m) => {
                let count: usize = m.items.len();
                let cursor: usize = if count == 0 {
                    0
                } else if delta >= 0 {
                    let step: usize = delta as usize;
                    if step < count && m.cursor < count - step {
                        m.cursor + step
                    } else {
                        count - 1
                    }
                } else {
                    let step: usize = (-(delta + 1)) as usize;
                    if m.cursor <= step {
                        0
                    } else {
                        let at: usize = m.cursor - step - 1;
                        if at < count {
                            at
                        } else {
                            count - 1
                        }
                    }
                };
                let m = Menu {
                    node: m.node,
                    items: m.items,
                    boxes: m.boxes,
                    texts: m.texts,
                    cursor,
                };
                mark_items(dom, &m);
                proof {
                    lemma_shape_marked(n0, item_marks(m.items@, m.cursor));
                }
                self.menu = Some(m);
                proof {
                    lemma_shape_ready(n0, dom_nodes(*dom), *old(self), *self);
                }
            },
            None => {},
        }
    }

    /// Show the highlighted column of an open chooser if it is hidden, and hide
    /// it if it is shown. The last visible column stays.
    pub fn menu_activate(&mut self, dom: &mut TuiDom)
        requires
            old(self).wf(),
            old(self).ready(*old(dom), old(self).window.rows@.len() as int),
            old(self).grid@.buffer.epoch < u64::MAX,
        ensures
            final(self).wf(),
            stays_ready(*old(self), *old(dom), *final(self), *final(dom)),
            (match old(self).menu {
                Some(m) => hide_step(
                    *old(self),
                    dom_nodes(*old(dom)),
                    *final(self),
                    dom_nodes(*final(dom)),
                    m.cursor,
                    !old(self).grid@.table.hidden.contains(m.cursor),
                ),
                None => *final(dom) == *old(dom) && *final(self) == *old(self),
            }),
    {
        let col: usize = match &self.menu {
            Some(m) => m.cursor,
            None => {
                return;
            },
        };
        let hidden = self.grid.model.is_column_hidden(col);
        self.set_column_hidden(dom, col, !hidden);
    }

    /// Show or hide the column `col` as its checkbox says, and bring the
    /// checkboxes of an open chooser up to date: that of the last visible column
    /// goes back to checked.
    pub fn choose_column(&mut self, dom: &mut TuiDom, col: usize, shown: bool)
        requires
            old(self).wf(),
            old(self).ready(*old(dom), old(self).window.rows@.len() as int),
            old(self).grid@.buffer.epoch < u64::MAX,
        ensures
            final(self).wf(),
            stays_ready(*old(self), *old(dom), *final(self), *final(dom)),
            exists|n: Nodes|
                hide_step(
                    *old(self),
                    dom_nodes(*old(dom)),
                    *final(self),
                    n,
                    col,
                    !shown,
                ) && dom_nodes(*final(dom)) == #[trigger] menu_synced(
                    n,
                    final(self).menu,
                    final(self).grid@,
                ),
    {
        self.set_column_hidden(dom, col, !shown);
        let ghost n = dom_nodes(*dom);
        self.sync_menu(dom);
        proof {
            lemma_shape_ready(n, dom_nodes(*dom), *self, *self);
        }
    }

    /// Open the chooser if it is closed, and close it if it is open.
    pub fn toggle_column_menu(&mut self, dom: &mut TuiDom)
        requires
            old(self).wf(),
            dom_quiet(*old(dom)),
            old(self).menu is None && old(self).chip is Some ==> dom_nodes(
                *old(dom),
            ).contains_key(old(self).chip.unwrap()) && has_room(
                dom_nodes(*old(dom)),
                1 + 3 * old(self).grid@.table.columns.len(),
            ),
        ensures
            final(self).wf(),
            dom_quiet(*final(dom)),
            final(self).grid == old(self).grid,
            final(self).frame == old(self).frame,
            final(self).window == old(self).window,
            final(self).mouse_drag == old(self).mouse_drag,
            final(self).chip == old(self).chip,
            stays_attached(
                *old(self),
                dom_nodes(*old(dom)),
                *final(self),
                dom_nodes(*final(dom)),
            ),
            (match (old(self).menu, old(self).frame, old(self).chip) {
                (Some(m), Some(f), Some(chip)) => final(self).menu is None && dom_nodes(
                    *final(dom),
                ) == all_marked(
                    dropped(dom_nodes(*old(dom)), m.node),
                    open_marks(chip, f.table, false),
                ),
                (None, Some(f), Some(chip)) => final(self).menu matches Some(m) && m.cursor == 0
                    && m.items@.len() == old(self).grid@.table.columns.len() && menu_opened(
                    dom_nodes(*old(dom)),
                    dom_nodes(*final(dom)),
                    *old(self),
                    m,
                ),
                _ => final(self).menu is None && dom_nodes(*final(dom)) == dom_nodes(*old(dom)),
            }),
    {
        if self.menu.is_some() {
            self.close_column_menu(dom);
        } else {
            self.open_column_menu(dom);
        }
    }
}

/// A tree with a chip drawn is an extension of the tree without it.
proof fn lemma_chip_added(n0: Nodes, drawn: Nodes, header_tr: NodeId, chip: NodeId)
    requires
        chip_drawn(n0, drawn, header_tr, chip),
    ensures
        extends(n0, drawn),
{
    assert(drawn[header_tr].children == n0[header_tr].children.push(chip));
    lemma_child_added(n0, drawn, header_tr, chip);
}

/// What a child appended to a node means for the children.
proof fn lemma_child_added(n0: Nodes, drawn: Nodes, parent: NodeId, child: NodeId)
    requires
        n0.contains_key(parent),
        !n0.contains_key(child),
        drawn[parent].children == n0[parent].children.push(child),
        forall|k: NodeId| #[trigger]
            n0.contains_key(k) && k != parent ==> drawn[k].children == n0[k].children,
    ensures
        forall|k: NodeId, c: NodeId|
            n0.contains_key(k) && #[trigger] n0[k].children.contains(c)
                ==> drawn[k].children.contains(c),
        forall|k: NodeId, c: NodeId|
            n0.contains_key(k) && #[trigger] drawn[k].children.contains(c)
                ==> n0[k].children.contains(c) || !n0.contains_key(c),
{
    let kids = n0[parent].children;
    assert forall|k: NodeId, c: NodeId|
        n0.contains_key(k) && #[trigger] n0[k].children.contains(
            c,
        ) implies drawn[k].children.contains(c) by {
        if k == parent {
            let i = choose|i: int| 0 <= i < kids.len() && kids[i] == c;
            assert(kids.push(child)[i] == c);
        }
    }
    assert forall|k: NodeId, c: NodeId|
        n0.contains_key(k) && #[trigger] drawn[k].children.contains(
            c,
        ) implies n0[k].children.contains(c) || !n0.contains_key(c) by {
        if k == parent {
            let i = choose|i: int| 0 <= i < kids.push(child).len() && kids.push(child)[i] == c;
            if i < kids.len() {
                assert(kids[i] == c);
            }
        }
    }
}

/// A tree with a panel drawn is an extension of the tree without it.
proof fn lemma_menu_added(
    n0: Nodes,
    drawn: Nodes,
    chip: NodeId,
    m: Menu,
    v: VirtualTableView,
)
    requires
        menu_drawn(n0, drawn, chip, m.node, m.items@, m.boxes@, m.texts@, v.grid@),
    ensures
        extends(n0, drawn),
{
    lemma_child_added(n0, drawn, chip, m.node);
    assert forall|k: NodeId, c: NodeId|
        drawn.contains_key(k) && !n0.contains_key(k) && #[trigger] drawn[k].children.contains(
            c,
        ) implies !n0.contains_key(c) by {
        if k == m.node {
            let i = choose|i: int| 0 <= i < m.items@.len() && m.items@[i] == c;
            assert(in_item(m.items@[i], m.boxes@[i], m.texts@[i], c));
        } else {
            let i = choose|i: int|
                0 <= i < m.items@.len() && #[trigger] in_item(
                    m.items@[i],
                    m.boxes@[i],
                    m.texts@[i],
                    k,
                );
            assert(item_built(
                drawn,
                m.items@[i],
                m.boxes@[i],
                m.texts@[i],
                Some(m.node),
                v.grid@.table.columns[i],
                i,
                v.grid@.table.hidden.contains(i as usize),
            ));
            if k == m.items@[i] {
                assert(in_item(m.items@[i], m.boxes@[i], m.texts@[i], m.boxes@[i]));
                assert(in_item(m.items@[i], m.boxes@[i], m.texts@[i], m.texts@[i]));
            }
        }
    }
}

} // verus!
