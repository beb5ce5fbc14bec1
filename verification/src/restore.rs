//! Restoring a saved layout: the columns in their saved order, with their widths
//! and hidden flags, and the sort.

use rdom_tui::TuiDom;
use vstd::prelude::*;

use crate::clear::cleared;
use crate::columns::{clear_sort_step, hide_step, move_step, relaid, sort_step, width_step};
use crate::dom::{dom_nodes, Nodes};
use crate::draw::{span, window_drawn};
use crate::grid::{first_header, Grid, GridView};
use crate::state::{ColumnState, TableState};
use crate::text::same_text;
use crate::view::{lemma_cost_grows, refreshed, stays_ready, window_cost, VirtualTableView};
use crate::window::SortSpec;

verus! {

/// The view with layout changes muted, or not.
pub open spec fn with_muted(v: VirtualTableView, muted: bool) -> VirtualTableView {
    VirtualTableView { grid: Grid { muted, ..v.grid }, ..v }
}

/// The first column of a view with the header `header`.
pub open spec fn column_of(v: VirtualTableView, header: Seq<char>) -> Option<usize> {
    if exists|at: usize| first_header(v.grid@.table.columns, header, at as int) {
        Some(choose|at: usize| first_header(v.grid@.table.columns, header, at as int))
    } else {
        None
    }
}

/// Is the column with the header `header`, where there is one, brought to
/// `target`?
pub open spec fn order_step(
    v0: VirtualTableView,
    n0: Nodes,
    v1: VirtualTableView,
    n1: Nodes,
    header: Seq<char>,
    target: usize,
) -> bool {
    match column_of(v0, header) {
        Some(at) => if at != target {
            move_step(v0, n0, v1, n1, at, target)
        } else {
            v1 == v0 && n1 == n0
        },
        None => v1 == v0 && n1 == n0,
    }
}

/// Are the first `k` saved columns brought to their places, one after the
/// other?
pub open spec fn order_steps(
    v0: VirtualTableView,
    n0: Nodes,
    v1: VirtualTableView,
    n1: Nodes,
    saved: Seq<ColumnState>,
    k: nat,
) -> bool
    decreases k,
{
    if k == 0 {
        v1 == v0 && n1 == n0
    } else {
        exists|v: VirtualTableView, n: Nodes|
            order_steps(v0, n0, v, n, saved, (k - 1) as nat) && #[trigger] order_step(
                v,
                n,
                v1,
                n1,
                saved[k - 1].header@,
                (k - 1) as usize,
            )
    }
}

/// Does the column of a saved one, where there is one, get its width?
pub open spec fn size_step(
    v0: VirtualTableView,
    n0: Nodes,
    v1: VirtualTableView,
    n1: Nodes,
    saved: ColumnState,
) -> bool {
    match column_of(v0, saved.header@) {
        Some(at) => width_step(v0, n0, v1, n1, at, saved.width),
        None => v1 == v0 && n1 == n0,
    }
}

/// Do the columns of the first `k` saved ones get their widths, one after the
/// other?
pub open spec fn size_steps(
    v0: VirtualTableView,
    n0: Nodes,
    v1: VirtualTableView,
    n1: Nodes,
    saved: Seq<ColumnState>,
    k: nat,
) -> bool
    decreases k,
{
    if k == 0 {
        v1 == v0 && n1 == n0
    } else {
        exists|v: VirtualTableView, n: Nodes|
            size_steps(v0, n0, v, n, saved, (k - 1) as nat) && #[trigger] size_step(
                v,
                n,
                v1,
                n1,
                saved[k - 1],
            )
    }
}

/// Is the saved column `k` the last one with its header? Its hidden flag is the
/// one that decides for that header.
pub open spec fn decides(saved: Seq<ColumnState>, k: int) -> bool {
    &&& 0 <= k < saved.len()
    &&& forall|j: int| k < j < saved.len() ==> (#[trigger] saved[j]).header@ != saved[k].header@
}

/// Is the column of the saved one `k`, where there is one and it decides that the
/// flag is `hidden`, hidden or shown accordingly?
pub open spec fn flag_step(
    v0: VirtualTableView,
    n0: Nodes,
    v1: VirtualTableView,
    n1: Nodes,
    saved: Seq<ColumnState>,
    k: int,
    hidden: bool,
) -> bool {
    if decides(saved, k) && saved[k].hidden == hidden && column_of(v0, saved[k].header@) is Some {
        hide_step(v0, n0, v1, n1, column_of(v0, saved[k].header@).unwrap(), hidden)
    } else {
        v1 == v0 && n1 == n0
    }
}

/// Are the columns for which the first `k` saved ones decide that the flag is
/// `hidden` hidden or shown, one after the other?
pub open spec fn flag_steps(
    v0: VirtualTableView,
    n0: Nodes,
    v1: VirtualTableView,
    n1: Nodes,
    saved: Seq<ColumnState>,
    hidden: bool,
    k: nat,
) -> bool
    decreases k,
{
    if k == 0 {
        v1 == v0 && n1 == n0
    } else {
        exists|v: VirtualTableView, n: Nodes|
            flag_steps(v0, n0, v, n, saved, hidden, (k - 1) as nat) && #[trigger] flag_step(
                v,
                n,
                v1,
                n1,
                saved,
                k - 1,
                hidden,
            )
    }
}

/// Do the columns get their saved widths and hidden flags? Those to be shown are
/// shown before others are hidden, so that no column is kept for being the last
/// visible one unless all are to be hidden.
pub open spec fn layout_steps(
    v0: VirtualTableView,
    n0: Nodes,
    v1: VirtualTableView,
    n1: Nodes,
    saved: Seq<ColumnState>,
) -> bool {
    exists|va: VirtualTableView, na: Nodes, vb: VirtualTableView, nb: Nodes|
        {
            &&& #[trigger] size_steps(v0, n0, va, na, saved, saved.len())
            &&& #[trigger] flag_steps(va, na, vb, nb, saved, false, saved.len())
            &&& flag_steps(vb, nb, v1, n1, saved, true, saved.len())
        }
}

/// Is the saved sort applied? Without one the rows go back to the order of
/// insertion; one by a column that there is not is left out.
pub open spec fn saved_sort_step<R: Fn(&str) -> Option<u64>>(
    v0: VirtualTableView,
    n0: Nodes,
    v1: VirtualTableView,
    n1: Nodes,
    sort: Option<SortSpec>,
    read: R,
) -> bool {
    match sort {
        Some(spec) => match column_of(v0, spec.column@) {
            Some(at) => sort_step(v0, n0, v1, n1, at, spec.dir, read),
            None => v1 == v0 && n1 == n0,
        },
        None => clear_sort_step(v0, n0, v1, n1),
    }
}

/// What restoring a layout does to a view and its tree: the columns are brought
/// into order, then get their widths and hidden flags, then the sort is applied;
/// none of this is a change of layout to be noted.
pub open spec fn restored<R: Fn(&str) -> Option<u64>>(
    v0: VirtualTableView,
    n0: Nodes,
    v1: VirtualTableView,
    n1: Nodes,
    state: TableState,
    read: R,
) -> bool {
    exists|va: VirtualTableView, na: Nodes, vb: VirtualTableView, nb: Nodes, vc: VirtualTableView|
        {
            &&& #[trigger] order_steps(
                with_muted(v0, true),
                n0,
                va,
                na,
                state.columns@,
                state.columns@.len(),
            )
            &&& #[trigger] layout_steps(va, na, vb, nb, state.columns@)
            &&& #[trigger] saved_sort_step(vb, nb, vc, n1, state.sort, read)
            &&& v1 == with_muted(vc, false)
        }
}

/// What a change of layout leaves: the table and the totals, no more rows on
/// show, at most one more epoch.
pub(crate) proof fn lemma_relaid(
    v0: VirtualTableView,
    n: Nodes,
    v1: VirtualTableView,
    n1: Nodes,
    g1: GridView,
)
    requires
        relaid(v0, n, v1, n1, g1),
        v0.window.rows@.len() <= usize::MAX,
    ensures
        v1.grid@.table == g1.table,
        v1.grid@.total_rows() == g1.total_rows(),
        v1.grid@.buffer.epoch <= g1.buffer.epoch + 1,
        v1.window.rows@.len() <= v0.window.rows@.len(),
        v1.grid@.windowed == g1.windowed,
        v1.grid@.muted == g1.muted,
        g1.muted ==> v1.grid@.changes == g1.changes,
{
    let count = v0.window.rows@.len() as usize;
    let g2 = choose|g2: GridView| #[trigger]
        refreshed(n, n1, v0.frame, v0.window, v1.window, g1, g2, count) && v1.grid@ == g2.noted();
    match v0.frame {
        Some(f) => {
            let drawn = choose|drawn: Nodes| #[trigger]
                window_drawn(
                    cleared(n, v0.window),
                    drawn,
                    f.tbody,
                    v1.window,
                    g2,
                    g1.window_start as int,
                    count as int,
                );
            assert(v1.window.rows@.len() == span(g2, g1.window_start as int, count as int));
        },
        None => {},
    }
}

/// Bounds under which a further change of layout can be made.
spec fn steady(
    v: VirtualTableView,
    dom: TuiDom,
    v0: VirtualTableView,
    dom0: TuiDom,
    steps: int,
) -> bool {
    &&& v.wf()
    &&& stays_ready(v0, dom0, v, dom)
    &&& v.window.rows@.len() <= v0.window.rows@.len()
    &&& v.grid@.total_rows() == v0.grid@.total_rows()
    &&& v.grid@.table.columns.len() == v0.grid@.table.columns.len()
    &&& v.grid@.buffer.epoch <= v0.grid@.buffer.epoch + steps
    &&& v.grid@.muted
}

/// A view within these bounds is ready for a further change of layout.
proof fn lemma_steady_ready(
    v: VirtualTableView,
    dom: TuiDom,
    v0: VirtualTableView,
    dom0: TuiDom,
    steps: int,
)
    requires
        steady(v, dom, v0, dom0, steps),
        v0.wf(),
        v0.ready(dom0, v0.window.rows@.len() as int),
    ensures
        v.ready(dom, v.window.rows@.len() as int),
{
    lemma_cost_grows(v.grid@, v.window.rows@.len() as int, v0.window.rows@.len() as int);
    assert(window_cost(v.grid@, v0.window.rows@.len() as int) == window_cost(
        v0.grid@,
        v0.window.rows@.len() as int,
    ));
}

/// One more column brought to its place.
proof fn lemma_order_push(
    v0: VirtualTableView,
    n0: Nodes,
    v: VirtualTableView,
    n: Nodes,
    v1: VirtualTableView,
    n1: Nodes,
    saved: Seq<ColumnState>,
    k: usize,
)
    requires
        order_steps(v0, n0, v, n, saved, k as nat),
        order_step(v, n, v1, n1, saved[k as int].header@, k),
    ensures
        order_steps(v0, n0, v1, n1, saved, (k + 1) as nat),
{
    let m = (k + 1) as nat;
    assert((m - 1) as nat == k as nat);
    assert((m - 1) as usize == k);
    assert(order_steps(v0, n0, v, n, saved, (m - 1) as nat) && order_step(
        v,
        n,
        v1,
        n1,
        saved[m - 1].header@,
        (m - 1) as usize,
    ));
}

/// One more column given its width.
proof fn lemma_size_push(
    v0: VirtualTableView,
    n0: Nodes,
    v: VirtualTableView,
    n: Nodes,
    v1: VirtualTableView,
    n1: Nodes,
    saved: Seq<ColumnState>,
    k: usize,
)
    requires
        size_steps(v0, n0, v, n, saved, k as nat),
        size_step(v, n, v1, n1, saved[k as int]),
    ensures
        size_steps(v0, n0, v1, n1, saved, (k + 1) as nat),
{
    let m = (k + 1) as nat;
    assert((m - 1) as nat == k as nat);
    assert(size_steps(v0, n0, v, n, saved, (m - 1) as nat) && size_step(
        v,
        n,
        v1,
        n1,
        saved[m - 1],
    ));
}

/// One more column hidden or shown.
proof fn lemma_flag_push(
    v0: VirtualTableView,
    n0: Nodes,
    v: VirtualTableView,
    n: Nodes,
    v1: VirtualTableView,
    n1: Nodes,
    saved: Seq<ColumnState>,
    hidden: bool,
    k: usize,
)
    requires
        flag_steps(v0, n0, v, n, saved, hidden, k as nat),
        flag_step(v, n, v1, n1, saved, k as int, hidden),
    ensures
        flag_steps(v0, n0, v1, n1, saved, hidden, (k + 1) as nat),
{
    let m = (k + 1) as nat;
    assert((m - 1) as nat == k as nat);
    assert(flag_steps(v0, n0, v, n, saved, hidden, (m - 1) as nat) && flag_step(
        v,
        n,
        v1,
        n1,
        saved,
        m - 1,
        hidden,
    ));
}

/// Is the saved column `k` the last one with its header?
fn is_deciding(saved: &Vec<ColumnState>, k: usize) -> (r: bool)
    requires
        k < saved@.len(),
    ensures
        r == decides(saved@, k as int),
{
    let n: usize = saved.len();
    let mut j: usize = k + 1;
    while j < n
        invariant
            k < j <= n == saved@.len(),
            forall|i: int| k < i < j ==> (#[trigger] saved@[i]).header@ != saved@[k as int].header@,
        decreases saved@.len() - j,
    {
        if same_text(saved[j].header.as_str(), saved[k].header.as_str()) {
            return false;
        }
        j = j + 1;
    }
    true
}

impl VirtualTableView {
    /// Bring one column to its place.
    fn restore_place(
        &mut self,
        dom: &mut TuiDom,
        header: &String,
        target: usize,
        v0: Ghost<VirtualTableView>,
        dom0: Ghost<TuiDom>,
        steps: Ghost<int>,
    )
        requires
            v0@.wf(),
            v0@.ready(dom0@, v0@.window.rows@.len() as int),
            steady(*old(self), *old(dom), v0@, dom0@, steps@),
            v0@.grid@.buffer.epoch + steps@ < u64::MAX,
        ensures
            steady(*final(self), *final(dom), v0@, dom0@, steps@ + 1),
            order_step(
                *old(self),
                dom_nodes(*old(dom)),
                *final(self),
                dom_nodes(*final(dom)),
                header@,
                target,
            ),
    {
        proof {
            lemma_steady_ready(*self, *dom, v0@, dom0@, steps@);
        }
        match self.grid.column_named(header) {
            Some(at) => {
                proof {
                    lemma_column_of(*self, header@, at);
                }
                if at != target {
                    self.move_column(dom, at, target);
                    proof {
                        lemma_move_bounds(
                            *old(self),
                            dom_nodes(*old(dom)),
                            *self,
                            dom_nodes(*dom),
                            at,
                            target,
                        );
                    }
                }
            },
            None => {},
        }
    }

    /// Bring the columns into their saved order.
    fn restore_order(
        &mut self,
        dom: &mut TuiDom,
        saved: &Vec<ColumnState>,
        v0: Ghost<VirtualTableView>,
        dom0: Ghost<TuiDom>,
    )
        requires
            v0@.wf(),
            v0@.ready(dom0@, v0@.window.rows@.len() as int),
            steady(*old(self), *old(dom), v0@, dom0@, 0),
            v0@.grid@.buffer.epoch + saved@.len() < u64::MAX,
        ensures
            steady(*final(self), *final(dom), v0@, dom0@, saved@.len() as int),
            order_steps(
                *old(self),
                dom_nodes(*old(dom)),
                *final(self),
                dom_nodes(*final(dom)),
                saved@,
                saved@.len(),
            ),
    {
        let ghost vm = *self;
        let ghost n0 = dom_nodes(*dom);
        let mut i: usize = 0;
        while i < saved.len()
            invariant
                i <= saved@.len(),
                v0@.wf(),
                v0@.ready(dom0@, v0@.window.rows@.len() as int),
                v0@.grid@.buffer.epoch + saved@.len() < u64::MAX,
                steady(*self, *dom, v0@, dom0@, i as int),
                order_steps(vm, n0, *self, dom_nodes(*dom), saved@, i as nat),
            decreases saved@.len() - i,
        {
            let ghost v = *self;
            let ghost nodes = dom_nodes(*dom);
            self.restore_place(dom, &saved[i].header, i, v0, dom0, Ghost(i as int));
            proof {
                lemma_order_push(vm, n0, v, nodes, *self, dom_nodes(*dom), saved@, i);
            }
            i = i + 1;
        }
    }

    /// Give one column its saved width.
    fn restore_width(
        &mut self,
        dom: &mut TuiDom,
        saved: &ColumnState,
        v0: Ghost<VirtualTableView>,
        dom0: Ghost<TuiDom>,
        steps: Ghost<int>,
    )
        requires
            v0@.wf(),
            v0@.ready(dom0@, v0@.window.rows@.len() as int),
            steady(*old(self), *old(dom), v0@, dom0@, steps@),
            v0@.grid@.buffer.epoch + steps@ < u64::MAX,
        ensures
            steady(*final(self), *final(dom), v0@, dom0@, steps@ + 1),
            size_step(
                *old(self),
                dom_nodes(*old(dom)),
                *final(self),
                dom_nodes(*final(dom)),
                *saved,
            ),
    {
        proof {
            lemma_steady_ready(*self, *dom, v0@, dom0@, steps@);
        }
        match self.grid.column_named(&saved.header) {
            Some(at) => {
                proof {
                    lemma_column_of(*self, saved.header@, at);
                }
                self.set_column_width(dom, at, saved.width);
                proof {
                    lemma_width_bounds(
                        *old(self),
                        dom_nodes(*old(dom)),
                        *self,
                        dom_nodes(*dom),
                        at,
                        saved.width,
                    );
                }
            },
            None => {},
        }
    }

    /// Give the columns their saved widths.
    fn restore_widths(
        &mut self,
        dom: &mut TuiDom,
        saved: &Vec<ColumnState>,
        v0: Ghost<VirtualTableView>,
        dom0: Ghost<TuiDom>,
    )
        requires
            v0@.wf(),
            v0@.ready(dom0@, v0@.window.rows@.len() as int),
            steady(*old(self), *old(dom), v0@, dom0@, saved@.len() as int),
            v0@.grid@.buffer.epoch + 2 * saved@.len() < u64::MAX,
        ensures
            steady(*final(self), *final(dom), v0@, dom0@, 2 * saved@.len() as int),
            size_steps(
                *old(self),
                dom_nodes(*old(dom)),
                *final(self),
                dom_nodes(*final(dom)),
                saved@,
                saved@.len(),
            ),
    {
        let ghost va = *self;
        let ghost na = dom_nodes(*dom);
        let ghost n = saved@.len() as int;
        let mut i: usize = 0;
        while i < saved.len()
            invariant
                i <= saved@.len() == n,
                v0@.wf(),
                v0@.ready(dom0@, v0@.window.rows@.len() as int),
                v0@.grid@.buffer.epoch + 2 * n < u64::MAX,
                steady(*self, *dom, v0@, dom0@, n + i),
                size_steps(va, na, *self, dom_nodes(*dom), saved@, i as nat),
            decreases saved@.len() - i,
        {
            let ghost v = *self;
            let ghost nodes = dom_nodes(*dom);
            self.restore_width(dom, &saved[i], v0, dom0, Ghost(n + i));
            proof {
                lemma_size_push(va, na, v, nodes, *self, dom_nodes(*dom), saved@, i);
            }
            i = i + 1;
        }
    }

    /// Hide or show one column, if the saved one `k` decides so.
    fn restore_flag(
        &mut self,
        dom: &mut TuiDom,
        saved: &Vec<ColumnState>,
        k: usize,
        hidden: bool,
        v0: Ghost<VirtualTableView>,
        dom0: Ghost<TuiDom>,
        steps: Ghost<int>,
    )
        requires
            k < saved@.len(),
            v0@.wf(),
            v0@.ready(dom0@, v0@.window.rows@.len() as int),
            steady(*old(self), *old(dom), v0@, dom0@, steps@),
            v0@.grid@.buffer.epoch + steps@ < u64::MAX,
        ensures
            steady(*final(self), *final(dom), v0@, dom0@, steps@ + 1),
            flag_step(
                *old(self),
                dom_nodes(*old(dom)),
                *final(self),
                dom_nodes(*final(dom)),
                saved@,
                k as int,
                hidden,
            ),
    {
        if saved[k].hidden != hidden || !is_deciding(saved, k) {
            return;
        }
        proof {
            lemma_steady_ready(*self, *dom, v0@, dom0@, steps@);
        }
        match self.grid.column_named(&saved[k].header) {
            Some(at) => {
                proof {
                    lemma_column_of(*self, saved@[k as int].header@, at);
                }
                self.set_column_hidden(dom, at, hidden);
                proof {
                    lemma_hide_bounds(
                        *old(self),
                        dom_nodes(*old(dom)),
                        *self,
                        dom_nodes(*dom),
                        at,
                        hidden,
                    );
                }
            },
            None => {},
        }
    }

    /// Hide or show the columns for which that is decided.
    fn restore_flags(
        &mut self,
        dom: &mut TuiDom,
        saved: &Vec<ColumnState>,
        hidden: bool,
        v0: Ghost<VirtualTableView>,
        dom0: Ghost<TuiDom>,
        steps: Ghost<int>,
    )
        requires
            v0@.wf(),
            v0@.ready(dom0@, v0@.window.rows@.len() as int),
            steady(*old(self), *old(dom), v0@, dom0@, steps@),
            v0@.grid@.buffer.epoch + steps@ + saved@.len() < u64::MAX,
        ensures
            steady(*final(self), *final(dom), v0@, dom0@, steps@ + saved@.len()),
            flag_steps(
                *old(self),
                dom_nodes(*old(dom)),
                *final(self),
                dom_nodes(*final(dom)),
                saved@,
                hidden,
                saved@.len(),
            ),
    {
        let ghost va = *self;
        let ghost na = dom_nodes(*dom);
        let mut i: usize = 0;
        while i < saved.len()
            invariant
                i <= saved@.len(),
                v0@.wf(),
                v0@.ready(dom0@, v0@.window.rows@.len() as int),
                v0@.grid@.buffer.epoch + steps@ + saved@.len() < u64::MAX,
                steady(*self, *dom, v0@, dom0@, steps@ + i),
                flag_steps(va, na, *self, dom_nodes(*dom), saved@, hidden, i as nat),
            decreases saved@.len() - i,
        {
            let ghost v = *self;
            let ghost nodes = dom_nodes(*dom);
            self.restore_flag(dom, saved, i, hidden, v0, dom0, Ghost(steps@ + i));
            proof {
                lemma_flag_push(va, na, v, nodes, *self, dom_nodes(*dom), saved@, hidden, i);
            }
            i = i + 1;
        }
    }

    /// Give the columns their saved widths and hidden flags, showing columns
    /// before hiding others.
    fn restore_columns(
        &mut self,
        dom: &mut TuiDom,
        saved: &Vec<ColumnState>,
        v0: Ghost<VirtualTableView>,
        dom0: Ghost<TuiDom>,
    )
        requires
            v0@.wf(),
            v0@.ready(dom0@, v0@.window.rows@.len() as int),
            steady(*old(self), *old(dom), v0@, dom0@, saved@.len() as int),
            v0@.grid@.buffer.epoch + 4 * saved@.len() < u64::MAX,
        ensures
            steady(*final(self), *final(dom), v0@, dom0@, 4 * saved@.len() as int),
            layout_steps(
                *old(self),
                dom_nodes(*old(dom)),
                *final(self),
                dom_nodes(*final(dom)),
                saved@,
            ),
    {
        let ghost n = saved@.len() as int;
        self.restore_widths(dom, saved, v0, dom0);
        let ghost va = *self;
        let ghost na = dom_nodes(*dom);
        self.restore_flags(dom, saved, false, v0, dom0, Ghost(2 * n));
        let ghost vb = *self;
        let ghost nb = dom_nodes(*dom);
        self.restore_flags(dom, saved, true, v0, dom0, Ghost(3 * n));
        assert(size_steps(*old(self), dom_nodes(*old(dom)), va, na, saved@, saved@.len()));
        assert(flag_steps(va, na, vb, nb, saved@, false, saved@.len()));
    }

    /// Bring a view to a saved layout: order, widths, hidden flags and sort, all
    /// by column header; columns that only one of the two has are left out, and of
    /// a header that is saved more than once the last one decides. No layout
    /// change is noted.
    pub fn restore_state<R: Fn(&str) -> Option<u64>>(
        &mut self,
        dom: &mut TuiDom,
        state: &TableState,
        read: &R,
    )
        requires
            old(self).wf(),
            old(self).ready(*old(dom), old(self).window.rows@.len() as int),
            old(self).grid@.buffer.epoch + 4 * state.columns@.len() + 1 < u64::MAX,
            forall|s: &str| #[trigger] call_requires(*read, (s,)),
        ensures
            final(self).wf(),
            stays_ready(*old(self), *old(dom), *final(self), *final(dom)),
            restored(
                *old(self),
                dom_nodes(*old(dom)),
                *final(self),
                dom_nodes(*final(dom)),
                *state,
                *read,
            ),
    {
        let ghost v0 = *self;
        let ghost dom0 = *dom;
        self.grid.muted = true;
        assert(self.grid@ == (GridView { muted: true, ..v0.grid@ }));
        self.restore_order(dom, &state.columns, Ghost(v0), Ghost(dom0));
        let ghost va = *self;
        let ghost na = dom_nodes(*dom);
        self.restore_columns(dom, &state.columns, Ghost(v0), Ghost(dom0));
        let ghost vb = *self;
        let ghost nb = dom_nodes(*dom);
        proof {
            lemma_steady_ready(*self, *dom, v0, dom0, 4 * state.columns@.len() as int);
        }
        self.restore_sort(dom, &state.sort, read);
        let ghost vc = *self;
        self.grid.muted = false;
        proof {
            lemma_restored(
                v0,
                dom_nodes(dom0),
                va,
                na,
                vb,
                nb,
                vc,
                dom_nodes(*dom),
                *state,
                *read,
            );
        }
    }

    /// Apply the saved sort.
    fn restore_sort<R: Fn(&str) -> Option<u64>>(
        &mut self,
        dom: &mut TuiDom,
        sort: &Option<SortSpec>,
        read: &R,
    )
        requires
            old(self).wf(),
            old(self).ready(*old(dom), old(self).window.rows@.len() as int),
            old(self).grid@.buffer.epoch < u64::MAX,
            forall|s: &str| #[trigger] call_requires(*read, (s,)),
        ensures
            final(self).wf(),
            stays_ready(*old(self), *old(dom), *final(self), *final(dom)),
            saved_sort_step(
                *old(self),
                dom_nodes(*old(dom)),
                *final(self),
                dom_nodes(*final(dom)),
                *sort,
                *read,
            ),
    {
        match sort {
            Some(spec) => {
                match self.grid.column_named(&spec.column) {
                    Some(at) => {
                        proof {
                            lemma_column_of(*self, spec.column@, at);
                        }
                        self.sort(dom, at, spec.dir, read);
                    },
                    None => {},
                }
            },
            None => {
                self.clear_sort(dom);
            },
        }
    }
}

/// The three parts of restoring a layout make up the whole.
proof fn lemma_restored<R: Fn(&str) -> Option<u64>>(
    v0: VirtualTableView,
    n0: Nodes,
    va: VirtualTableView,
    na: Nodes,
    vb: VirtualTableView,
    nb: Nodes,
    vc: VirtualTableView,
    n1: Nodes,
    state: TableState,
    read: R,
)
    requires
        order_steps(with_muted(v0, true), n0, va, na, state.columns@, state.columns@.len()),
        layout_steps(va, na, vb, nb, state.columns@),
        saved_sort_step(vb, nb, vc, n1, state.sort, read),
    ensures
        restored(v0, n0, with_muted(vc, false), n1, state, read),
{
}

/// A header has one first column.
proof fn lemma_column_of(v: VirtualTableView, header: Seq<char>, at: usize)
    requires
        first_header(v.grid@.table.columns, header, at as int),
    ensures
        column_of(v, header) == Some(at),
{
    let found = column_of(v, header).unwrap();
    assert(first_header(v.grid@.table.columns, header, found as int));
    if found < at {
        assert(v.grid@.table.columns[found as int].header@ != header);
    }
    if at < found {
        assert(v.grid@.table.columns[at as int].header@ != header);
    }
}

proof fn lemma_move_bounds(
    v0: VirtualTableView,
    n0: Nodes,
    v1: VirtualTableView,
    n1: Nodes,
    from: usize,
    to: usize,
)
    requires
        move_step(v0, n0, v1, n1, from, to),
        v0.window.rows@.len() <= usize::MAX,
    ensures
        v1.grid@.total_rows() == v0.grid@.total_rows(),
        v1.grid@.table.columns.len() == v0.grid@.table.columns.len(),
        v1.grid@.buffer.epoch <= v0.grid@.buffer.epoch + 1,
        v1.window.rows@.len() <= v0.window.rows@.len(),
        v1.grid@.muted == v0.grid@.muted,
{
    let n = v0.grid@.table.columns.len();
    if from < n && to < n && from != to {
        let g1 = v0.grid@.after_move(from, to);
        let nodes = choose|nodes: Nodes| #[trigger] relaid(v0, nodes, v1, n1, g1);
        lemma_relaid(v0, nodes, v1, n1, g1);
    }
}

proof fn lemma_width_bounds(
    v0: VirtualTableView,
    n0: Nodes,
    v1: VirtualTableView,
    n1: Nodes,
    col: usize,
    width: Option<u16>,
)
    requires
        width_step(v0, n0, v1, n1, col, width),
        v0.window.rows@.len() <= usize::MAX,
    ensures
        v1.grid@.total_rows() == v0.grid@.total_rows(),
        v1.grid@.table.columns.len() == v0.grid@.table.columns.len(),
        v1.grid@.buffer.epoch <= v0.grid@.buffer.epoch + 1,
        v1.window.rows@.len() <= v0.window.rows@.len(),
        v1.grid@.muted == v0.grid@.muted,
{
    let g1 = v0.grid@.after_width(col, width);
    let nodes = choose|nodes: Nodes| #[trigger] relaid(v0, nodes, v1, n1, g1);
    lemma_relaid(v0, nodes, v1, n1, g1);
}

proof fn lemma_hide_bounds(
    v0: VirtualTableView,
    n0: Nodes,
    v1: VirtualTableView,
    n1: Nodes,
    col: usize,
    hidden: bool,
)
    requires
        hide_step(v0, n0, v1, n1, col, hidden),
        v0.window.rows@.len() <= usize::MAX,
    ensures
        v1.grid@.total_rows() == v0.grid@.total_rows(),
        v1.grid@.table.columns.len() == v0.grid@.table.columns.len(),
        v1.grid@.buffer.epoch <= v0.grid@.buffer.epoch + 1,
        v1.window.rows@.len() <= v0.window.rows@.len(),
        v1.grid@.muted == v0.grid@.muted,
{
    if !(hidden && v0.grid@.last_visible(col)) {
        let g1 = v0.grid@.after_hide(col, hidden);
        let nodes = choose|nodes: Nodes| #[trigger] relaid(v0, nodes, v1, n1, g1);
        lemma_relaid(v0, nodes, v1, n1, g1);
    }
}

} // verus!
