//! A saved layout comes back when it is restored.

use vstd::prelude::*;

use crate::columns::{
    clear_sort_step, headers_synced, hide_step, menu_synced, relaid, sort_step, sorted_grid,
};
use crate::dom::Nodes;
use crate::grid::{first_header, state_view, GridView, StateView};
use crate::header::{all_labelled, all_widths_set};
use crate::marks::{marked, Mark};
use crate::model::{columns_move_as_a_whole, remapped, TableView};
use crate::restore::{
    column_of, decides, flag_step, flag_steps, layout_steps, lemma_relaid, order_step, order_steps,
    restored, saved_sort_step, size_step, size_steps, with_muted,
};
use crate::state::{ColumnState, TableState};
use crate::view::{header_cells, VirtualTableView};

verus! {

/// Are two layouts the same, by the texts of their headers?
pub open spec fn same_layout(a: StateView, b: StateView) -> bool {
    &&& a.columns.len() == b.columns.len()
    &&& forall|i: int|
        0 <= i < a.columns.len() ==> (#[trigger] a.columns[i]).header@ == b.columns[i].header@
            && a.columns[i].width == b.columns[i].width && a.columns[i].hidden
            == b.columns[i].hidden
    &&& match (a.sort, b.sort) {
        (Some(x), Some(y)) => x.column@ == y.column@ && x.dir == y.dir,
        (None, None) => true,
        _ => false,
    }
}

/// Does `t` have the column `header` at `at`?
pub open spec fn stands_at(t: TableView, header: Seq<char>, at: int) -> bool {
    0 <= at < t.columns.len() && t.columns[at].header@ == header
}

/// Are the columns of `t`, in whatever order, the saved ones, with different
/// headers?
pub open spec fn same_headers(t: TableView, saved: Seq<ColumnState>) -> bool {
    &&& t.columns.len() == saved.len() <= usize::MAX
    &&& forall|i: int, j: int|
        0 <= i < j < saved.len() ==> (#[trigger] saved[i]).header@ != (#[trigger] saved[j]).header@
    &&& forall|i: int, j: int|
        0 <= i < j < t.columns.len() ==> (#[trigger] t.columns[i]).header@
            != (#[trigger] t.columns[j]).header@
    &&& forall|j: int|
        0 <= j < saved.len() ==> exists|at: int| #[trigger]
            stands_at(t, (#[trigger] saved[j]).header@, at)
}

/// Are the columns of `t` the saved ones, the first `k` in their places?
spec fn ordered_from(t: TableView, saved: Seq<ColumnState>, k: int) -> bool {
    &&& same_headers(t, saved)
    &&& forall|j: int| 0 <= j < k ==> t.columns[j].header@ == (#[trigger] saved[j]).header@
}

/// The column found under a header.
proof fn lemma_found(v: VirtualTableView, saved: Seq<ColumnState>, j: int) -> (at: usize)
    requires
        same_headers(v.grid@.table, saved),
        0 <= j < saved.len(),
    ensures
        column_of(v, saved[j].header@) == Some(at),
        stands_at(v.grid@.table, saved[j].header@, at as int),
{
    let t = v.grid@.table;
    let header = saved[j].header@;
    let at = choose|at: int| #[trigger] stands_at(t, header, at);
    assert forall|i: int| 0 <= i < at implies (#[trigger] t.columns[i]).header@ != header by {
        assert(t.columns[i].header@ != t.columns[at].header@);
    }
    assert(first_header(t.columns, header, at as usize as int));
    column_of(v, header).unwrap()
}

/// Bringing one more column to its place.
proof fn lemma_order_one(t: TableView, saved: Seq<ColumnState>, k: int, at: usize)
    requires
        ordered_from(t, saved, k),
        0 <= k < saved.len(),
        stands_at(t, saved[k].header@, at as int),
    ensures
        at >= k,
        at != k ==> ordered_from(t.column_moved(at as int, k), saved, k + 1),
        at == k ==> ordered_from(t, saved, k + 1),
{
    if at < k {
        assert(t.columns[at as int].header@ == saved[at as int].header@);
    }
    if at == k {
        assert forall|j: int| 0 <= j < k + 1 implies t.columns[j].header@ == (
        #[trigger] saved[j]).header@ by {}
    }
    if at > k {
        let m = t.column_moved(at as int, k);
        assert forall|i: int, j: int| 0 <= i < j < m.columns.len() implies (
        #[trigger] m.columns[i]).header@ != (#[trigger] m.columns[j]).header@ by {
            let a = remapped(k, at as int, i);
            let b = remapped(k, at as int, j);
            assert(m.columns[i] == t.columns[a]);
            assert(m.columns[j] == t.columns[b]);
            if a < b {
                assert(t.columns[a].header@ != t.columns[b].header@);
            } else {
                assert(t.columns[b].header@ != t.columns[a].header@);
            }
        }
        assert forall|j: int| 0 <= j < saved.len() implies (exists|b: int| #[trigger]
            stands_at(m, (#[trigger] saved[j]).header@, b)) by {
            let b = choose|b: int| #[trigger] stands_at(t, saved[j].header@, b);
            columns_move_as_a_whole(t, at, k as usize, b as usize);
            assert(stands_at(m, saved[j].header@, remapped(at as int, k, b)));
        }
        assert(same_headers(m, saved));
        assert forall|j: int| 0 <= j < k + 1 implies m.columns[j].header@ == (
        #[trigger] saved[j]).header@ by {
            if j < k {
                assert(m.columns[j] == t.columns[j]);
            } else {
                assert(m.columns[j] == t.columns[at as int]);
            }
        }
    }
}

/// What a view keeps while a layout is restored.
pub(crate) open spec fn kept(v0: VirtualTableView, v: VirtualTableView) -> bool {
    &&& v.grid@.muted
    &&& v.grid@.changes == v0.grid@.changes
    &&& v.window.rows@.len() <= usize::MAX
}

proof fn lemma_ordered(
    v0: VirtualTableView,
    n0: Nodes,
    v1: VirtualTableView,
    n1: Nodes,
    saved: Seq<ColumnState>,
    k: nat,
)
    requires
        order_steps(v0, n0, v1, n1, saved, k),
        same_headers(v0.grid@.table, saved),
        kept(v0, v0),
        k <= saved.len(),
    ensures
        kept(v0, v1),
        ordered_from(v1.grid@.table, saved, k as int),
    decreases k,
{
    if k > 0 {
        let j = (k - 1) as nat;
        let (v, n) = choose|v: VirtualTableView, n: Nodes|
            order_steps(v0, n0, v, n, saved, j) && #[trigger] order_step(
                v,
                n,
                v1,
                n1,
                saved[k - 1].header@,
                (k - 1) as usize,
            );
        lemma_ordered(v0, n0, v, n, saved, j);
        let at = lemma_found(v, saved, k - 1);
        lemma_order_one(v.grid@.table, saved, k - 1, at);
        if at != k - 1 {
            let g1 = v.grid@.after_move(at, (k - 1) as usize);
            lemma_relaid(v, headers_synced(v, n, g1), v1, n1, g1);
        }
    }
}

/// Do the columns of `t` stand as saved, the first `k` with their widths?
spec fn sized_from(t: TableView, saved: Seq<ColumnState>, k: int) -> bool {
    &&& ordered_from(t, saved, saved.len() as int)
    &&& forall|j: int| 0 <= j < k ==> t.columns[j].width == (#[trigger] saved[j]).width
}

/// A column in its place is found there.
proof fn lemma_found_in_place(v: VirtualTableView, saved: Seq<ColumnState>, j: usize)
    requires
        ordered_from(v.grid@.table, saved, saved.len() as int),
        j < saved.len(),
    ensures
        column_of(v, saved[j as int].header@) == Some(j),
{
    let t = v.grid@.table;
    let at = lemma_found(v, saved, j as int);
    assert(t.columns[j as int].header@ == saved[j as int].header@);
    if at < j {
        assert(t.columns[at as int].header@ != t.columns[j as int].header@);
    } else if j < at {
        assert(t.columns[j as int].header@ != t.columns[at as int].header@);
    }
}

/// Columns with the same headers stand as well.
proof fn lemma_same_order(a: TableView, b: TableView, saved: Seq<ColumnState>)
    requires
        ordered_from(a, saved, saved.len() as int),
        b.columns.len() == a.columns.len(),
        forall|j: int|
            0 <= j < a.columns.len() ==> (#[trigger] b.columns[j]).header@ == a.columns[j].header@,
    ensures
        ordered_from(b, saved, saved.len() as int),
{
    assert forall|i: int, j: int| 0 <= i < j < b.columns.len() implies (
    #[trigger] b.columns[i]).header@ != (#[trigger] b.columns[j]).header@ by {
        assert(a.columns[i].header@ != a.columns[j].header@);
    }
    assert forall|j: int| 0 <= j < saved.len() implies b.columns[j].header@ == (
    #[trigger] saved[j]).header@ by {
        assert(a.columns[j].header@ == saved[j].header@);
    }
    assert forall|j: int| 0 <= j < saved.len() implies (exists|at: int| #[trigger]
        stands_at(b, (#[trigger] saved[j]).header@, at)) by {
        assert(stands_at(b, saved[j].header@, j));
    }
}

proof fn lemma_sized(
    v0: VirtualTableView,
    n0: Nodes,
    v1: VirtualTableView,
    n1: Nodes,
    saved: Seq<ColumnState>,
    k: nat,
)
    requires
        size_steps(v0, n0, v1, n1, saved, k),
        ordered_from(v0.grid@.table, saved, saved.len() as int),
        kept(v0, v0),
        k <= saved.len(),
    ensures
        kept(v0, v1),
        sized_from(v1.grid@.table, saved, k as int),
    decreases k,
{
    if k > 0 {
        let j = (k - 1) as nat;
        let (v, n) = choose|v: VirtualTableView, n: Nodes|
            size_steps(v0, n0, v, n, saved, j) && #[trigger] size_step(v, n, v1, n1, saved[k - 1]);
        lemma_sized(v0, n0, v, n, saved, j);
        let i = (k - 1) as usize;
        lemma_found_in_place(v, saved, i);
        let g1 = v.grid@.after_width(i, saved[k - 1].width);
        lemma_relaid(v, all_widths_set(n, header_cells(v.frame), g1), v1, n1, g1);
        lemma_same_order(v.grid@.table, v1.grid@.table, saved);
        assert forall|j: int| 0 <= j < k implies v1.grid@.table.columns[j].width == (
        #[trigger] saved[j]).width by {
            if j < k - 1 {
                assert(v.grid@.table.columns[j].width == saved[j].width);
            }
        }
    }
}

/// A hide step that is not refused.
pub(crate) proof fn lemma_hide_kept(
    v0: VirtualTableView,
    n0: Nodes,
    v1: VirtualTableView,
    n1: Nodes,
    col: usize,
    hidden: bool,
)
    requires
        hide_step(v0, n0, v1, n1, col, hidden),
        !(hidden && v0.grid@.last_visible(col)),
        kept(v0, v0),
    ensures
        kept(v0, v1),
        v1.grid@.table == v0.grid@.after_hide(col, hidden).table,
{
    let ths = header_cells(v0.frame);
    let g1 = v0.grid@.after_hide(col, hidden);
    let flagged = if col < ths.len() {
        marked(n0, Mark { id: ths[col as int], attr: "data-vt-hidden"@, on: hidden })
    } else {
        n0
    };
    lemma_relaid(v0, menu_synced(flagged, v0.menu, g1), v1, n1, g1);
}

/// Does the saved column `j` decide for the column `at` of `v`?
pub open spec fn decides_for(
    v: VirtualTableView,
    saved: Seq<ColumnState>,
    j: int,
    at: usize,
) -> bool {
    decides(saved, j) && column_of(v, saved[j].header@) == Some(at)
}

/// Saved columns that decide, decide for different columns.
proof fn lemma_decide_apart(
    v: VirtualTableView,
    saved: Seq<ColumnState>,
    i: int,
    a: usize,
    j: int,
    b: usize,
)
    requires
        decides_for(v, saved, i, a),
        decides_for(v, saved, j, b),
        i != j,
    ensures
        a != b,
{
    if i < j {
        assert(saved[j].header@ != saved[i].header@);
    } else {
        assert(saved[i].header@ != saved[j].header@);
    }
    assert(first_header(v.grid@.table.columns, saved[i].header@, a as int));
    assert(first_header(v.grid@.table.columns, saved[j].header@, b as int));
}

/// Hiding or showing the columns for which that is decided does so, and leaves
/// those for which the other is decided as they are.
proof fn lemma_flags(
    v0: VirtualTableView,
    n0: Nodes,
    v1: VirtualTableView,
    n1: Nodes,
    saved: Seq<ColumnState>,
    hidden: bool,
    k: nat,
    seen: int,
    col: usize,
)
    requires
        flag_steps(v0, n0, v1, n1, saved, hidden, k),
        kept(v0, v0),
        k <= saved.len(),
        hidden ==> decides_for(v0, saved, seen, col) && !saved[seen].hidden
            && !v0.grid@.table.hidden.contains(col),
    ensures
        kept(v0, v1),
        v1.grid@.table.columns == v0.grid@.table.columns,
        forall|j: int, at: usize| #[trigger]
            decides_for(v0, saved, j, at) && saved[j].hidden == hidden && j < k
                ==> v1.grid@.table.hidden.contains(at) == hidden,
        forall|j: int, at: usize| #[trigger]
            decides_for(v0, saved, j, at) && saved[j].hidden != hidden
                ==> v1.grid@.table.hidden.contains(at) == v0.grid@.table.hidden.contains(at),
    decreases k,
{
    if k > 0 {
        let j = (k - 1) as nat;
        let (v, n) = choose|v: VirtualTableView, n: Nodes|
            flag_steps(v0, n0, v, n, saved, hidden, j) && #[trigger] flag_step(
                v,
                n,
                v1,
                n1,
                saved,
                k - 1,
                hidden,
            );
        lemma_flags(v0, n0, v, n, saved, hidden, j, seen, col);
        let own = column_of(v, saved[k - 1].header@);
        assert(own == column_of(v0, saved[k - 1].header@));
        if decides(saved, k - 1) && saved[k - 1].hidden == hidden && own is Some {
            let at = own.unwrap();
            assert(decides_for(v0, saved, k - 1, at));
            if hidden {
                lemma_decide_apart(v0, saved, seen, col, k - 1, at);
                assert(first_header(v.grid@.table.columns, saved[seen].header@, col as int));
                assert(!v.grid@.table.hidden.contains(col));
            }
            assert(!(hidden && v.grid@.last_visible(at)));
            lemma_hide_kept(v, n, v1, n1, at, hidden);
            assert forall|i: int, b: usize| #[trigger]
                decides_for(v0, saved, i, b) && saved[i].hidden == hidden && i
                    < k implies v1.grid@.table.hidden.contains(b) == hidden by {
                if i != k - 1 {
                    lemma_decide_apart(v0, saved, i, b, k - 1, at);
                }
            }
            assert forall|i: int, b: usize| #[trigger]
                decides_for(v0, saved, i, b) && saved[i].hidden
                    != hidden implies v1.grid@.table.hidden.contains(b)
                == v0.grid@.table.hidden.contains(b) by {
                lemma_decide_apart(v0, saved, i, b, k - 1, at);
            }
        }
    }
}

/// Do the columns of `t` stand as saved, with the saved widths and flags?
spec fn laid_out(t: TableView, saved: Seq<ColumnState>) -> bool {
    &&& same_headers(t, saved)
    &&& forall|j: int|
        0 <= j < saved.len() ==> t.columns[j].header@ == (#[trigger] saved[j]).header@
            && t.columns[j].width == saved[j].width && t.hidden.contains(j as usize)
            == saved[j].hidden
}

proof fn lemma_laid(
    va: VirtualTableView,
    na: Nodes,
    vb: VirtualTableView,
    nb: Nodes,
    saved: Seq<ColumnState>,
)
    requires
        layout_steps(va, na, vb, nb, saved),
        ordered_from(va.grid@.table, saved, saved.len() as int),
        kept(va, va),
        saved.len() == 0 || exists|j: int| 0 <= j < saved.len() && !(#[trigger] saved[j]).hidden,
    ensures
        kept(va, vb),
        laid_out(vb.grid@.table, saved),
{
    let n = saved.len();
    let (vs, ns, vt, nt) = choose|
        vs: VirtualTableView,
        ns: Nodes,
        vt: VirtualTableView,
        nt: Nodes,
    |
        {
            &&& #[trigger] size_steps(va, na, vs, ns, saved, n)
            &&& #[trigger] flag_steps(vs, ns, vt, nt, saved, false, n)
            &&& flag_steps(vt, nt, vb, nb, saved, true, n)
        };
    lemma_sized(va, na, vs, ns, saved, n);
    if n > 0 {
        let seen = choose|j: int| 0 <= j < saved.len() && !(#[trigger] saved[j]).hidden;
        let col = seen as usize;
        lemma_flags(vs, ns, vt, nt, saved, false, n, seen, col);
        assert forall|j: int| 0 <= j < n implies #[trigger] decides_for(vt, saved, j, j as usize)
            && decides_for(vs, saved, j, j as usize) by {
            lemma_found_in_place(vs, saved, j as usize);
            assert(column_of(vt, saved[j].header@) == column_of(vs, saved[j].header@));
        }
        assert(decides_for(vt, saved, seen, col));
        assert(decides_for(vs, saved, seen, col));
        lemma_flags(vt, nt, vb, nb, saved, true, n, seen, col);
        assert forall|j: int| 0 <= j < n implies vb.grid@.table.hidden.contains(j as usize) == (
        #[trigger] saved[j]).hidden by {
            assert(decides_for(vt, saved, j, j as usize));
            assert(decides_for(vs, saved, j, j as usize));
        }
        lemma_same_order(vs.grid@.table, vb.grid@.table, saved);
    }
}

/// Restoring a saved layout brings it back: a table with the same columns,
/// in whatever order and whichever of them hidden, then has them in the saved
/// order with the saved widths and hidden flags, and is sorted as saved. No change
/// of layout is noted. A layout that has columns and hides every one is left out:
/// one column always stays visible.
pub proof fn restoring_brings_the_layout_back<R: Fn(&str) -> Option<u64>>(
    v0: VirtualTableView,
    n0: Nodes,
    v1: VirtualTableView,
    n1: Nodes,
    state: TableState,
    read: R,
)
    requires
        restored(v0, n0, v1, n1, state, read),
        v0.window.rows@.len() <= usize::MAX,
        same_headers(v0.grid@.table, state.columns@),
        state.columns@.len() == 0 || exists|j: int|
            0 <= j < state.columns@.len() && !(#[trigger] state.columns@[j]).hidden,
        state.sort matches Some(spec) ==> exists|j: int|
            0 <= j < state.columns@.len() && (#[trigger] state.columns@[j]).header@
                == spec.column@,
    ensures
        same_layout(v1.grid@.layout(), state_view(state)),
        v1.grid@.changes == v0.grid@.changes,
{
    let saved = state.columns@;
    let n = saved.len();
    let start = with_muted(v0, true);
    let (va, na, vb, nb, vc) = choose|
        va: VirtualTableView,
        na: Nodes,
        vb: VirtualTableView,
        nb: Nodes,
        vc: VirtualTableView,
    |
        {
            &&& #[trigger] order_steps(start, n0, va, na, saved, n)
            &&& #[trigger] layout_steps(va, na, vb, nb, saved)
            &&& #[trigger] saved_sort_step(vb, nb, vc, n1, state.sort, read)
            &&& v1 == with_muted(vc, false)
        };
    assert(start.grid@ == (GridView { muted: true, ..v0.grid@ }));
    lemma_ordered(start, n0, va, na, saved, n);
    lemma_laid(va, na, vb, nb, saved);
    let tb = vb.grid@.table;
    lemma_sort_restored(vb, nb, vc, n1, state, read);
    assert(v1.grid@ == (GridView { muted: false, ..vc.grid@ }));
    let a = v1.grid@.layout();
    let b = state_view(state);
    assert forall|i: int| 0 <= i < a.columns.len() implies (#[trigger] a.columns[i]).header@
        == b.columns[i].header@ && a.columns[i].width == b.columns[i].width && a.columns[i].hidden
        == b.columns[i].hidden by {
        assert(tb.columns[i].header@ == saved[i].header@);
        assert(tb.columns[i].width == saved[i].width);
        assert(tb.hidden.contains(i as usize) == saved[i].hidden);
    }
}

/// Applying the saved sort to columns that stand as saved.
proof fn lemma_sort_restored<R: Fn(&str) -> Option<u64>>(
    v: VirtualTableView,
    n: Nodes,
    v1: VirtualTableView,
    n1: Nodes,
    state: TableState,
    read: R,
)
    requires
        saved_sort_step(v, n, v1, n1, state.sort, read),
        kept(v, v),
        same_headers(v.grid@.table, state.columns@),
        state.sort matches Some(spec) ==> exists|j: int|
            0 <= j < state.columns@.len() && (#[trigger] state.columns@[j]).header@
                == spec.column@,
    ensures
        v1.grid@.changes == v.grid@.changes,
        v1.grid@.table.columns == v.grid@.table.columns,
        v1.grid@.table.hidden == v.grid@.table.hidden,
        (match (v1.grid@.sort_key(), state.sort) {
            (Some(x), Some(y)) => x.column@ == y.column@ && x.dir == y.dir,
            (None, None) => true,
            _ => false,
        }),
{
    let saved = state.columns@;
    match state.sort {
        Some(spec) => {
            let j = choose|j: int|
                0 <= j < saved.len() && (#[trigger] saved[j]).header@ == spec.column@;
            let at = lemma_found(v, saved, j);
            assert(sort_step(v, n, v1, n1, at, spec.dir, read));
            let g1 = choose|g1: GridView| #[trigger]
                sorted_grid(v.grid@, g1, at, spec.dir, read) && relaid(
                    v,
                    all_labelled(n, header_cells(v.frame), g1),
                    v1,
                    n1,
                    g1,
                );
            lemma_relaid(
                v,
                all_labelled(n, header_cells(v.frame), g1),
                v1,
                n1,
                g1,
            );
        },
        None => {
            let g1 = v.grid@.after_clear_sort();
            assert(clear_sort_step(v, n, v1, n1));
            lemma_relaid(
                v,
                all_labelled(n, header_cells(v.frame), g1),
                v1,
                n1,
                g1,
            );
        },
    }
}

pub(crate) proof fn lemma_order_kept(
    v0: VirtualTableView,
    n0: Nodes,
    v1: VirtualTableView,
    n1: Nodes,
    saved: Seq<ColumnState>,
    k: nat,
)
    requires
        order_steps(v0, n0, v1, n1, saved, k),
        kept(v0, v0),
    ensures
        kept(v0, v1),
    decreases k,
{
    if k > 0 {
        let j = (k - 1) as nat;
        let to = (k - 1) as usize;
        let (v, n) = choose|v: VirtualTableView, n: Nodes|
            order_steps(v0, n0, v, n, saved, j) && #[trigger] order_step(
                v,
                n,
                v1,
                n1,
                saved[k - 1].header@,
                to,
            );
        lemma_order_kept(v0, n0, v, n, saved, j);
        match column_of(v, saved[k - 1].header@) {
            Some(at) => {
                let count = v.grid@.table.columns.len();
                if at != to && at < count && to < count {
                    let g1 = v.grid@.after_move(at, to);
                    lemma_relaid(v, headers_synced(v, n, g1), v1, n1, g1);
                }
            },
            None => {},
        }
    }
}

pub(crate) proof fn lemma_size_kept(
    v0: VirtualTableView,
    n0: Nodes,
    v1: VirtualTableView,
    n1: Nodes,
    saved: Seq<ColumnState>,
    k: nat,
)
    requires
        size_steps(v0, n0, v1, n1, saved, k),
        kept(v0, v0),
    ensures
        kept(v0, v1),
    decreases k,
{
    if k > 0 {
        let j = (k - 1) as nat;
        let (v, n) = choose|v: VirtualTableView, n: Nodes|
            size_steps(v0, n0, v, n, saved, j) && #[trigger] size_step(v, n, v1, n1, saved[k - 1]);
        lemma_size_kept(v0, n0, v, n, saved, j);
        match column_of(v, saved[k - 1].header@) {
            Some(at) => {
                let g1 = v.grid@.after_width(at, saved[k - 1].width);
                lemma_relaid(v, all_widths_set(n, header_cells(v.frame), g1), v1, n1, g1);
            },
            None => {},
        }
    }
}

/// Whatever columns a table has, and however often a layout names a header, the
/// last flag saved under a header decides whether its column, the first with that
/// header, is hidden; as long as one column is decided to be shown.
pub proof fn the_last_saved_flag_decides<R: Fn(&str) -> Option<u64>>(
    v0: VirtualTableView,
    n0: Nodes,
    v1: VirtualTableView,
    n1: Nodes,
    state: TableState,
    read: R,
    j: int,
    at: usize,
    seen: int,
    col: usize,
)
    requires
        restored(v0, n0, v1, n1, state, read),
        v0.window.rows@.len() <= usize::MAX,
        decides_for(v1, state.columns@, j, at),
        decides_for(v1, state.columns@, seen, col),
        !state.columns@[seen].hidden,
    ensures
        v1.grid@.table.hidden.contains(at) == state.columns@[j].hidden,
{
    let saved = state.columns@;
    let n = saved.len();
    let start = with_muted(v0, true);
    let (va, na, vb, nb, vc) = choose|
        va: VirtualTableView,
        na: Nodes,
        vb: VirtualTableView,
        nb: Nodes,
        vc: VirtualTableView,
    |
        {
            &&& #[trigger] order_steps(start, n0, va, na, saved, n)
            &&& #[trigger] layout_steps(va, na, vb, nb, saved)
            &&& #[trigger] saved_sort_step(vb, nb, vc, n1, state.sort, read)
            &&& v1 == with_muted(vc, false)
        };
    assert(start.grid@ == (GridView { muted: true, ..v0.grid@ }));
    assert(v1.grid@ == (GridView { muted: false, ..vc.grid@ }));
    lemma_order_kept(start, n0, va, na, saved, n);
    lemma_flags_laid(va, na, vb, nb, vc, n1, state, read, j, at, seen, col);
}

proof fn lemma_flags_laid<R: Fn(&str) -> Option<u64>>(
    va: VirtualTableView,
    na: Nodes,
    vb: VirtualTableView,
    nb: Nodes,
    vc: VirtualTableView,
    nc: Nodes,
    state: TableState,
    read: R,
    j: int,
    at: usize,
    seen: int,
    col: usize,
)
    requires
        layout_steps(va, na, vb, nb, state.columns@),
        saved_sort_step(vb, nb, vc, nc, state.sort, read),
        kept(va, va),
        decides_for(vc, state.columns@, j, at),
        decides_for(vc, state.columns@, seen, col),
        !state.columns@[seen].hidden,
    ensures
        vc.grid@.table.hidden.contains(at) == state.columns@[j].hidden,
{
    let saved = state.columns@;
    let n = saved.len();
    let (vs, ns, vt, nt) = choose|
        vs: VirtualTableView,
        ns: Nodes,
        vt: VirtualTableView,
        nt: Nodes,
    |
        {
            &&& #[trigger] size_steps(va, na, vs, ns, saved, n)
            &&& #[trigger] flag_steps(vs, ns, vt, nt, saved, false, n)
            &&& flag_steps(vt, nt, vb, nb, saved, true, n)
        };
    lemma_size_kept(va, na, vs, ns, saved, n);
    lemma_flags(vs, ns, vt, nt, saved, false, n, seen, col);
    lemma_flag_columns(vt, nt, vb, nb, saved, true, n);
    lemma_sort_columns(vb, nb, vc, nc, state, read);
    lemma_same_column(vc, vs, saved[seen].header@);
    lemma_same_column(vc, vt, saved[seen].header@);
    lemma_same_column(vc, vs, saved[j].header@);
    lemma_same_column(vc, vt, saved[j].header@);
    assert(decides_for(vs, saved, seen, col) && decides_for(vt, saved, seen, col));
    assert(decides_for(vs, saved, j, at) && decides_for(vt, saved, j, at));
    lemma_flags(vt, nt, vb, nb, saved, true, n, seen, col);
}

/// A header's column is the same in views with the same columns.
proof fn lemma_same_column(a: VirtualTableView, b: VirtualTableView, header: Seq<char>)
    requires
        a.grid@.table.columns == b.grid@.table.columns,
    ensures
        column_of(a, header) == column_of(b, header),
{
}

/// Hiding and showing leaves the columns.
pub(crate) proof fn lemma_flag_columns(
    v0: VirtualTableView,
    n0: Nodes,
    v1: VirtualTableView,
    n1: Nodes,
    saved: Seq<ColumnState>,
    hidden: bool,
    k: nat,
)
    requires
        flag_steps(v0, n0, v1, n1, saved, hidden, k),
        kept(v0, v0),
    ensures
        kept(v0, v1),
        v1.grid@.table.columns == v0.grid@.table.columns,
    decreases k,
{
    if k > 0 {
        let j = (k - 1) as nat;
        let (v, n) = choose|v: VirtualTableView, n: Nodes|
            flag_steps(v0, n0, v, n, saved, hidden, j) && #[trigger] flag_step(
                v,
                n,
                v1,
                n1,
                saved,
                k - 1,
                hidden,
            );
        lemma_flag_columns(v0, n0, v, n, saved, hidden, j);
        let own = column_of(v, saved[k - 1].header@);
        if decides(saved, k - 1) && saved[k - 1].hidden == hidden && own is Some {
            if !(hidden && v.grid@.last_visible(own.unwrap())) {
                lemma_hide_kept(v, n, v1, n1, own.unwrap(), hidden);
            }
        }
    }
}

/// The saved sort leaves the columns and their hidden flags.
pub(crate) proof fn lemma_sort_columns<R: Fn(&str) -> Option<u64>>(
    v: VirtualTableView,
    n: Nodes,
    v1: VirtualTableView,
    n1: Nodes,
    state: TableState,
    read: R,
)
    requires
        saved_sort_step(v, n, v1, n1, state.sort, read),
        v.window.rows@.len() <= usize::MAX,
    ensures
        v1.grid@.table.columns == v.grid@.table.columns,
        v1.grid@.table.hidden == v.grid@.table.hidden,
{
    match state.sort {
        Some(spec) => match column_of(v, spec.column@) {
            Some(at) => {
                let g1 = choose|g1: GridView| #[trigger]
                    sorted_grid(v.grid@, g1, at, spec.dir, read) && relaid(
                        v,
                        all_labelled(n, header_cells(v.frame), g1),
                        v1,
                        n1,
                        g1,
                    );
                lemma_relaid(v, all_labelled(n, header_cells(v.frame), g1), v1, n1, g1);
            },
            None => {},
        },
        None => {
            let g1 = v.grid@.after_clear_sort();
            lemma_relaid(v, all_labelled(n, header_cells(v.frame), g1), v1, n1, g1);
        },
    }
}

} // verus!
