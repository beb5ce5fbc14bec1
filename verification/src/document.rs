//! A table in a document tree of its own.

use rdom_tui::{NodeId, TuiDom};
use vstd::prelude::*;

use crate::clear::cleared;
use crate::dom::{dom_nodes, dom_quiet, new_node, new_tree, NodeKind, Nodes};
use crate::draw::{all_dropped, Window};
use crate::grid::{lesser, Grid};
use crate::header::{frame_built, Frame};
use crate::model::{TableView, VirtualTable};
use crate::view::{window_shown, VirtualTableView};

verus! {

/// The nodes of a tree in which a table is mounted and shows no rows: the root,
/// the frame, and each header with its text.
pub open spec fn bare_nodes(t: TableView) -> nat {
    5 + 2 * t.columns.len()
}

/// At most how many nodes a tree takes that shows `count` rows of a table.
pub open spec fn tree_nodes(t: TableView, count: int) -> int {
    bare_nodes(t) + 2 + lesser(count, t.rows.len() as int) * (1 + 2 * t.columns.len())
}

/// Does the tree show the first `count` rows of a view under a frame that was
/// just built?
pub open spec fn newly_shown(view: VirtualTableView, nodes: Nodes, f: Frame, count: int) -> bool {
    exists|built: Nodes, none: Window|
        {
            &&& #[trigger] frame_built(built, f, view.grid@.table.columns)
            &&& none.rows@.len() == 0
            &&& none.spacers@.len() == 0
            &&& #[trigger] window_shown(
                built,
                nodes,
                Some(f),
                none,
                view.window,
                view.grid@,
                0,
                count,
            )
        }
}

impl VirtualTableView {
    /// Show the first `count` rows of a table in a new tree. Returned are the
    /// view, the tree and the table element, which is yet to be appended to the
    /// tree's root; `None` if the nodes are too many to be numbered.
    pub fn in_new_tree(table: VirtualTable, count: usize) -> (r: Option<(Self, TuiDom, NodeId)>)
        requires
            table@.wf(),
        ensures
            r is Some == (tree_nodes(table@, count as int) <= u32::MAX),
            (match r {
                Some((view, dom, node)) => exists|grid: Grid|
                    {
                        &&& call_ensures(Grid::new, (table,), grid)
                        &&& view.wf()
                        &&& view.frame matches Some(f) && f.table == node && newly_shown(
                            view,
                            dom_nodes(dom),
                            f,
                            count as int,
                        )
                        &&& view.grid@ == (#[trigger] grid@).shown(0, count)
                        &&& view.window.rows@.len() == lesser(count as int, table@.rows.len() as int)
                        &&& view.attached(dom_nodes(dom))
                        &&& dom_quiet(dom)
                        &&& cleared(dom_nodes(dom), view.window).dom().finite()
                        &&& cleared(dom_nodes(dom), view.window).dom().len() == bare_nodes(table@)
                    },
                None => true,
            }),
    {
        let ghost t = table@;
        let cols: u128 = table.columns().len() as u128;
        let rows: u128 = if count < table.row_count() {
            count as u128
        } else {
            table.row_count() as u128
        };
        assert(rows * (1 + 2 * cols) <= 0xffff_ffff * (1 + 2 * cols)) by (nonlinear_arith)
            requires
                0 <= rows <= 0xffff_ffff,
                0 <= cols,
        ;
        if 7 + 2 * cols + rows * (1 + 2 * cols) > u32::MAX as u128 {
            return None;
        }
        let mut view = VirtualTableView::new(table);
        let ghost grid = view.grid;
        let mut dom = new_tree();
        proof {
            let root = choose|root: NodeId|
                dom_nodes(dom) == Map::empty().insert(
                    root,
                    new_node(NodeKind::Fragment, Seq::empty()),
                );
            assert(dom_nodes(dom).dom() =~= Set::empty().insert(root));
            assert(rows * (1 + 2 * cols) >= 0) by (nonlinear_arith)
                requires
                    rows >= 0,
                    cols >= 0,
            ;
        }
        let node = view.mount(&mut dom);
        proof {
            let n = dom_nodes(dom);
            assert(all_dropped(n, view.window.rows@) == n);
            assert(cleared(n, view.window) == n);
        }
        let ghost built = dom_nodes(dom);
        let ghost none = view.window;
        view.show_window(&mut dom, 0, count);
        assert(frame_built(built, view.frame.unwrap(), view.grid@.table.columns));
        assert(window_shown(
            built,
            dom_nodes(dom),
            view.frame,
            none,
            view.window,
            view.grid@,
            0,
            count as int,
        ));
        Some((view, dom, node))
    }
}

} // verus!
