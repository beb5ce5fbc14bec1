//! What restoring a layout does where it is not of the same columns as the table.

use vstd::prelude::*;

use crate::columns::{headers_synced, move_step, width_step};
use crate::dom::Nodes;
use crate::grid::{first_header, GridView};
use crate::header::all_widths_set;
use crate::model::{columns_move_as_a_whole, remapped, Column, SortDir, TableView};
use crate::restore::{
    column_of, decides, flag_step, flag_steps, layout_steps, lemma_relaid, order_step, order_steps,
    restored, saved_sort_step, size_step, size_steps, with_muted,
};
use crate::restore_laws::{
    decides_for, kept, lemma_flag_columns, lemma_hide_kept, lemma_order_kept, lemma_size_kept,
    lemma_sort_columns, the_last_saved_flag_decides,
};
use crate::state::{ColumnState, TableState};
use crate::view::{header_cells, VirtualTableView};

verus! {

/// Is `at` the first column with the header `header`?
pub open spec fn is_first_column(columns: Seq<Column>, header: Seq<char>, at: int) -> bool {
    &&& 0 <= at < columns.len()
    &&& columns[at].header@ == header
    &&& forall|i: int| 0 <= i < at ==> (#[trigger] columns[i]).header@ != header
}

/// Is `j` the last saved column with its header?
pub open spec fn is_last_saved(saved: Seq<ColumnState>, j: int) -> bool {
    &&& 0 <= j < saved.len()
    &&& forall|i: int| j < i < saved.len() ==> (#[trigger] saved[i]).header@ != saved[j].header@
}

/// Was a column with the header `header` saved?
pub open spec fn is_saved(saved: Seq<ColumnState>, header: Seq<char>) -> bool {
    exists|j: int| 0 <= j < saved.len() && (#[trigger] saved[j]).header@ == header
}

proof fn lemma_column_of(v: VirtualTableView, header: Seq<char>, at: usize)
    ensures
        is_first_column(v.grid@.table.columns, header, at as int) <==> column_of(v, header)
            == Some(at),
{
    let columns = v.grid@.table.columns;
    if is_first_column(columns, header, at as int) {
        assert(first_header(columns, header, at as int));
        let other = choose|at: usize| first_header(columns, header, at as int);
        assert(first_header(columns, header, other as int));
        if other < at {
            assert(columns[other as int].header@ != header);
        }
        if at < other {
            assert(columns[at as int].header@ != header);
        }
    }
}

proof fn lemma_moved(
    v: VirtualTableView,
    n: Nodes,
    v1: VirtualTableView,
    n1: Nodes,
    at: usize,
    to: usize,
)
    requires
        move_step(v, n, v1, n1, at, to),
        kept(v, v),
    ensures
        kept(v, v1),
        v1.grid@.table == v.grid@.after_move(at, to).table,
{
    let count = v.grid@.table.columns.len();
    if at < count && to < count && at != to {
        let g1 = v.grid@.after_move(at, to);
        lemma_relaid(v, headers_synced(v, n, g1), v1, n1, g1);
    }
}

proof fn lemma_sized(
    v: VirtualTableView,
    n: Nodes,
    v1: VirtualTableView,
    n1: Nodes,
    at: usize,
    width: Option<u16>,
)
    requires
        width_step(v, n, v1, n1, at, width),
        kept(v, v),
    ensures
        kept(v, v1),
        v1.grid@.table == v.grid@.after_width(at, width).table,
{
    let g1 = v.grid@.after_width(at, width);
    lemma_relaid(v, all_widths_set(n, header_cells(v.frame), g1), v1, n1, g1);
}

/// Is the column `d` of `b` the column `c` of `a`, with its width, its hidden flag and
/// the sort by it?
pub open spec fn is_same_column(a: TableView, c: usize, b: TableView, d: usize) -> bool {
    &&& d < b.columns.len()
    &&& b.columns[d as int] == a.columns[c as int]
    &&& b.hidden.contains(d) <==> a.hidden.contains(c)
    &&& b.sort == Some((d, SortDir::Ascending)) <==> a.sort == Some((c, SortDir::Ascending))
    &&& b.sort == Some((d, SortDir::Descending)) <==> a.sort == Some((c, SortDir::Descending))
}

proof fn lemma_order_tracks(
    v0: VirtualTableView,
    n0: Nodes,
    v1: VirtualTableView,
    n1: Nodes,
    saved: Seq<ColumnState>,
    k: nat,
    c: usize,
) -> (d: usize)
    requires
        order_steps(v0, n0, v1, n1, saved, k),
        kept(v0, v0),
        c < v0.grid@.table.columns.len() <= usize::MAX,
    ensures
        kept(v0, v1),
        v1.grid@.table.columns.len() == v0.grid@.table.columns.len(),
        v1.grid@.table.sort is None <==> v0.grid@.table.sort is None,
        is_same_column(v0.grid@.table, c, v1.grid@.table, d),
    decreases k,
{
    if k == 0 {
        c
    } else {
        let j = (k - 1) as nat;
        let to = (k - 1) as usize;
        let (v, n) = choose|v: VirtualTableView, n: Nodes|
            order_steps(v0, n0, v, n, saved, j) && #[trigger] order_step(
                v,
                n,
                v1,
                n1,
                saved[k - 1].header@,
                to,
            );
        let d = lemma_order_tracks(v0, n0, v, n, saved, j, c);
        let own = column_of(v, saved[k - 1].header@);
        if own is Some && own.unwrap() != to {
            let at = own.unwrap();
            lemma_moved(v, n, v1, n1, at, to);
            let t = v.grid@.table;
            if at < t.columns.len() && to < t.columns.len() {
                columns_move_as_a_whole(t, at, to, d);
                remapped(at as int, to as int, d as int) as usize
            } else {
                d
            }
        } else {
            d
        }
    }
}

proof fn lemma_size_others(
    v0: VirtualTableView,
    n0: Nodes,
    v1: VirtualTableView,
    n1: Nodes,
    saved: Seq<ColumnState>,
    k: nat,
    c: usize,
)
    requires
        size_steps(v0, n0, v1, n1, saved, k),
        kept(v0, v0),
        k <= saved.len(),
        c < v0.grid@.table.columns.len(),
    ensures
        kept(v0, v1),
        ({
            let a = v0.grid@.table;
            let b = v1.grid@.table;
            &&& b == (TableView { columns: b.columns, ..a })
            &&& b.columns.len() == a.columns.len()
            &&& b.columns[c as int].header@ == a.columns[c as int].header@
            &&& !is_saved(saved, a.columns[c as int].header@) ==> b.columns[c as int]
                == a.columns[c as int]
        }),
    decreases k,
{
    if k > 0 {
        let j = (k - 1) as nat;
        let (v, n) = choose|v: VirtualTableView, n: Nodes|
            size_steps(v0, n0, v, n, saved, j) && #[trigger] size_step(v, n, v1, n1, saved[k - 1]);
        lemma_size_others(v0, n0, v, n, saved, j, c);
        let own = column_of(v, saved[k - 1].header@);
        if own is Some {
            let at = own.unwrap();
            lemma_column_of(v, saved[k - 1].header@, at);
            lemma_sized(v, n, v1, n1, at, saved[k - 1].width);
        }
    }
}

proof fn lemma_flag_others(
    v0: VirtualTableView,
    n0: Nodes,
    v1: VirtualTableView,
    n1: Nodes,
    saved: Seq<ColumnState>,
    hidden: bool,
    k: nat,
    c: usize,
)
    requires
        flag_steps(v0, n0, v1, n1, saved, hidden, k),
        kept(v0, v0),
        k <= saved.len(),
        c < v0.grid@.table.columns.len(),
    ensures
        kept(v0, v1),
        ({
            let a = v0.grid@.table;
            let b = v1.grid@.table;
            &&& b == (TableView { hidden: b.hidden, ..a })
            &&& !is_saved(saved, a.columns[c as int].header@) ==> (b.hidden.contains(c)
                <==> a.hidden.contains(c))
        }),
    decreases k,
{
    if k > 0 {
        let j = (k - 1) as nat;
        let (v, n) = choose|v: VirtualTableView, n: Nodes|
            flag_steps(v0, n0, v, n, saved, hidden, j) && #[trigger] flag_step(
                v,
                n,
                v1,
                n1,
                saved,
                k - 1,
                hidden,
            );
        lemma_flag_others(v0, n0, v, n, saved, hidden, j, c);
        let own = column_of(v, saved[k - 1].header@);
        if decides(saved, k - 1) && saved[k - 1].hidden == hidden && own is Some {
            let at = own.unwrap();
            lemma_column_of(v, saved[k - 1].header@, at);
            if !(hidden && v.grid@.last_visible(at)) {
                lemma_hide_kept(v, n, v1, n1, at, hidden);
            }
        }
    }
}

/// The stages of a restore.
proof fn lemma_stages<R: Fn(&str) -> Option<u64>>(
    v0: VirtualTableView,
    n0: Nodes,
    v1: VirtualTableView,
    n1: Nodes,
    state: TableState,
    read: R,
) -> (r: (
    (VirtualTableView, Nodes),
    (VirtualTableView, Nodes),
    (VirtualTableView, Nodes),
    (VirtualTableView, Nodes),
    VirtualTableView,
))
    requires
        restored(v0, n0, v1, n1, state, read),
        v0.window.rows@.len() <= usize::MAX,
    ensures
        ({
            let saved = state.columns@;
            let n = saved.len();
            let start = with_muted(v0, true);
            let (a, b, c, d, e) = r;
            &&& start.grid@.table == v0.grid@.table
            &&& kept(start, start)
            &&& order_steps(start, n0, a.0, a.1, saved, n)
            &&& kept(start, a.0)
            &&& size_steps(a.0, a.1, b.0, b.1, saved, n)
            &&& kept(start, b.0)
            &&& flag_steps(b.0, b.1, c.0, c.1, saved, false, n)
            &&& kept(start, c.0)
            &&& flag_steps(c.0, c.1, d.0, d.1, saved, true, n)
            &&& kept(start, d.0)
            &&& saved_sort_step(d.0, d.1, e, n1, state.sort, read)
            &&& v1.grid@.table == e.grid@.table
        }),
{
    let saved = state.columns@;
    let n = saved.len();
    let start = with_muted(v0, true);
    let (va, na, vb, nb, vc) = choose|
        va: VirtualTableView,
        na: Nodes,
        vb: VirtualTableView,
        nb: Nodes,
        vc: VirtualTableView,
    |
        {
            &&& #[trigger] order_steps(start, n0, va, na, saved, n)
            &&& #[trigger] layout_steps(va, na, vb, nb, saved)
            &&& #[trigger] saved_sort_step(vb, nb, vc, n1, state.sort, read)
            &&& v1 == with_muted(vc, false)
        };
    assert(start.grid@ == (GridView { muted: true, ..v0.grid@ }));
    assert(v1.grid@ == (GridView { muted: false, ..vc.grid@ }));
    lemma_order_kept(start, n0, va, na, saved, n);
    let (vs, ns, vt, nt) = choose|
        vs: VirtualTableView,
        ns: Nodes,
        vt: VirtualTableView,
        nt: Nodes,
    |
        {
            &&& #[trigger] size_steps(va, na, vs, ns, saved, n)
            &&& #[trigger] flag_steps(vs, ns, vt, nt, saved, false, n)
            &&& flag_steps(vt, nt, vb, nb, saved, true, n)
        };
    lemma_size_kept(va, na, vs, ns, saved, n);
    lemma_flag_columns(vs, ns, vt, nt, saved, false, n);
    lemma_flag_columns(vt, nt, vb, nb, saved, true, n);
    ((va, na), (vs, ns), (vt, nt), (vb, nb), vc)
}

/// A column whose header was not saved keeps its width and its hidden flag, wherever
/// it comes to stand; and where the saved sort is by no column that there is, the
/// table stays sorted by it if it was.
pub proof fn columns_that_were_not_saved_stay_as_they_are<R: Fn(&str) -> Option<u64>>(
    v0: VirtualTableView,
    n0: Nodes,
    v1: VirtualTableView,
    n1: Nodes,
    state: TableState,
    read: R,
    c: usize,
) -> (d: usize)
    requires
        restored(v0, n0, v1, n1, state, read),
        v0.window.rows@.len() <= usize::MAX,
        c < v0.grid@.table.columns.len() <= usize::MAX,
        !is_saved(state.columns@, v0.grid@.table.columns[c as int].header@),
    ensures
        ({
            let a = v0.grid@.table;
            let b = v1.grid@.table;
            &&& b.columns.len() == a.columns.len()
            &&& d < b.columns.len()
            &&& b.columns[d as int] == a.columns[c as int]
            &&& b.hidden.contains(d) <==> a.hidden.contains(c)
            &&& state.sort is Some && (forall|i: int|
                0 <= i < b.columns.len() ==> (#[trigger] b.columns[i]).header@
                    != state.sort.unwrap().column@) ==> is_same_column(a, c, b, d)
        }),
{
    let saved = state.columns@;
    let n = saved.len();
    let start = with_muted(v0, true);
    let (sa, sb, sc, sd, e) = lemma_stages(v0, n0, v1, n1, state, read);
    let d = lemma_order_tracks(start, n0, sa.0, sa.1, saved, n, c);
    lemma_size_others(sa.0, sa.1, sb.0, sb.1, saved, n, d);
    lemma_flag_others(sb.0, sb.1, sc.0, sc.1, saved, false, n, d);
    lemma_flag_others(sc.0, sc.1, sd.0, sd.1, saved, true, n, d);
    lemma_sort_columns(sd.0, sd.1, e, n1, state, read);
    if state.sort is Some {
        let own = column_of(sd.0, state.sort.unwrap().column@);
        if own is Some {
            lemma_column_of(sd.0, state.sort.unwrap().column@, own.unwrap());
        }
    }
    d
}

proof fn lemma_last_width(
    v0: VirtualTableView,
    n0: Nodes,
    v1: VirtualTableView,
    n1: Nodes,
    saved: Seq<ColumnState>,
    k: nat,
    j: int,
    at: usize,
)
    requires
        size_steps(v0, n0, v1, n1, saved, k),
        kept(v0, v0),
        j < k <= saved.len(),
        is_last_saved(saved, j),
        is_first_column(v0.grid@.table.columns, saved[j].header@, at as int),
    ensures
        kept(v0, v1),
        v1.grid@.table.columns[at as int].width == saved[j].width,
    decreases k,
{
    let i = (k - 1) as nat;
    let (v, n) = choose|v: VirtualTableView, n: Nodes|
        size_steps(v0, n0, v, n, saved, i) && #[trigger] size_step(v, n, v1, n1, saved[k - 1]);
    lemma_size_others(v0, n0, v, n, saved, i, at);
    assert forall|c: int| 0 <= c < at implies (#[trigger] v.grid@.table.columns[c]).header@
        != saved[j].header@ by {
        lemma_size_others(v0, n0, v, n, saved, i, c as usize);
        assert(v0.grid@.table.columns[c].header@ != saved[j].header@);
    }
    assert(is_first_column(v.grid@.table.columns, saved[j].header@, at as int));
    lemma_column_of(v, saved[j].header@, at);
    if j < k - 1 {
        lemma_last_width(v0, n0, v, n, saved, i, j, at);
        let own = column_of(v, saved[k - 1].header@);
        if own is Some {
            lemma_column_of(v, saved[k - 1].header@, own.unwrap());
            lemma_sized(v, n, v1, n1, own.unwrap(), saved[k - 1].width);
        }
    } else {
        lemma_sized(v, n, v1, n1, at, saved[k - 1].width);
    }
}

/// A column has the width that was saved last under its header, if it is the first
/// column with that header.
pub proof fn the_last_saved_width_decides<R: Fn(&str) -> Option<u64>>(
    v0: VirtualTableView,
    n0: Nodes,
    v1: VirtualTableView,
    n1: Nodes,
    state: TableState,
    read: R,
    j: int,
    at: usize,
)
    requires
        restored(v0, n0, v1, n1, state, read),
        v0.window.rows@.len() <= usize::MAX,
        is_last_saved(state.columns@, j),
        is_first_column(v1.grid@.table.columns, state.columns@[j].header@, at as int),
    ensures
        v1.grid@.table.columns[at as int].width == state.columns@[j].width,
{
    let saved = state.columns@;
    let n = saved.len();
    let (sa, sb, sc, sd, e) = lemma_stages(v0, n0, v1, n1, state, read);
    lemma_sort_columns(sd.0, sd.1, e, n1, state, read);
    lemma_flag_columns(sb.0, sb.1, sc.0, sc.1, saved, false, n);
    lemma_flag_columns(sc.0, sc.1, sd.0, sd.1, saved, true, n);
    let before = sa.0.grid@.table.columns;
    let after = v1.grid@.table.columns;
    assert(after == sb.0.grid@.table.columns);
    lemma_size_len(sa.0, sa.1, sb.0, sb.1, saved, n);
    assert forall|c: int| 0 <= c <= at implies (#[trigger] before[c]).header@
        == after[c].header@ by {
        lemma_size_others(sa.0, sa.1, sb.0, sb.1, saved, n, c as usize);
    }
    assert forall|c: int| 0 <= c < at implies (#[trigger] before[c]).header@
        != saved[j].header@ by {
        assert(after[c].header@ != saved[j].header@);
    }
    lemma_last_width(sa.0, sa.1, sb.0, sb.1, saved, n, j, at);
}

proof fn lemma_size_len(
    v0: VirtualTableView,
    n0: Nodes,
    v1: VirtualTableView,
    n1: Nodes,
    saved: Seq<ColumnState>,
    k: nat,
)
    requires
        size_steps(v0, n0, v1, n1, saved, k),
        kept(v0, v0),
    ensures
        kept(v0, v1),
        v1.grid@.table.columns.len() == v0.grid@.table.columns.len(),
    decreases k,
{
    if k > 0 {
        let j = (k - 1) as nat;
        let (v, n) = choose|v: VirtualTableView, n: Nodes|
            size_steps(v0, n0, v, n, saved, j) && #[trigger] size_step(v, n, v1, n1, saved[k - 1]);
        lemma_size_len(v0, n0, v, n, saved, j);
        let own = column_of(v, saved[k - 1].header@);
        if own is Some {
            lemma_sized(v, n, v1, n1, own.unwrap(), saved[k - 1].width);
        }
    }
}

/// A column is hidden exactly if it was saved as hidden last under its header, if it
/// is the first column with that header and some column is so decided to be shown.
pub proof fn saved_flags_are_restored<R: Fn(&str) -> Option<u64>>(
    v0: VirtualTableView,
    n0: Nodes,
    v1: VirtualTableView,
    n1: Nodes,
    state: TableState,
    read: R,
    j: int,
    at: usize,
    seen: int,
    col: usize,
)
    requires
        restored(v0, n0, v1, n1, state, read),
        v0.window.rows@.len() <= usize::MAX,
        is_last_saved(state.columns@, j),
        is_first_column(v1.grid@.table.columns, state.columns@[j].header@, at as int),
        is_last_saved(state.columns@, seen),
        is_first_column(v1.grid@.table.columns, state.columns@[seen].header@, col as int),
        !state.columns@[seen].hidden,
    ensures
        v1.grid@.table.hidden.contains(at) <==> state.columns@[j].hidden,
{
    lemma_column_of(v1, state.columns@[j].header@, at);
    lemma_column_of(v1, state.columns@[seen].header@, col);
    assert(decides_for(v1, state.columns@, j, at));
    assert(decides_for(v1, state.columns@, seen, col));
    the_last_saved_flag_decides(v0, n0, v1, n1, state, read, j, at, seen, col);
}

/// The table is sorted by the first column with the saved header, in the saved
/// direction; without a saved sort it is not sorted.
pub proof fn the_saved_sort_is_restored<R: Fn(&str) -> Option<u64>>(
    v0: VirtualTableView,
    n0: Nodes,
    v1: VirtualTableView,
    n1: Nodes,
    state: TableState,
    read: R,
    at: usize,
)
    requires
        restored(v0, n0, v1, n1, state, read),
        v0.window.rows@.len() <= usize::MAX,
    ensures
        state.sort is None ==> v1.grid@.table.sort is None,
        state.sort is Some && is_first_column(
            v1.grid@.table.columns,
            state.sort.unwrap().column@,
            at as int,
        ) ==> v1.grid@.table.sort == Some((at, state.sort.unwrap().dir)),
{
    let (sa, sb, sc, sd, e) = lemma_stages(v0, n0, v1, n1, state, read);
    lemma_sort_columns(sd.0, sd.1, e, n1, state, read);
    if state.sort is Some {
        lemma_column_of(sd.0, state.sort.unwrap().column@, at);
    }
}

/// Do the columns have different headers?
pub open spec fn headers_differ(columns: Seq<Column>) -> bool {
    forall|a: int, b: int|
        0 <= a < b < columns.len() ==> (#[trigger] columns[a]).header@ != (
        #[trigger] columns[b]).header@
}

/// Do the saved columns have different headers?
pub open spec fn saved_differ(saved: Seq<ColumnState>) -> bool {
    forall|i: int, j: int|
        0 <= i < j < saved.len() ==> (#[trigger] saved[i]).header@ != (#[trigger] saved[j]).header@
}

/// Does the column `p` have the header of the saved column `j`?
pub open spec fn answers(columns: Seq<Column>, saved: Seq<ColumnState>, p: int, j: int) -> bool {
    0 <= p < columns.len() && columns[p].header@ == saved[j].header@
}

/// Do the columns of the first `k` saved ones stand in their order, none further
/// than it was saved?
spec fn in_saved_order(columns: Seq<Column>, saved: Seq<ColumnState>, k: int) -> bool {
    &&& forall|p: int, j: int| 0 <= j < k && #[trigger] answers(columns, saved, p, j) ==> p <= j
    &&& forall|p: int, i: int, q: int, j: int|
        0 <= i < j < k && #[trigger] answers(columns, saved, p, i) && #[trigger] answers(
            columns,
            saved,
            q,
            j,
        ) ==> p < q
}

proof fn lemma_one_in_order(
    t: TableView,
    to_t: TableView,
    saved: Seq<ColumnState>,
    at: usize,
    to: usize,
)
    requires
        to_t == t.column_moved(at as int, to as int),
        headers_differ(t.columns),
        saved_differ(saved),
        in_saved_order(t.columns, saved, to as int),
        at < t.columns.len() <= usize::MAX,
        to < t.columns.len(),
        to < saved.len(),
        t.columns[at as int].header@ == saved[to as int].header@,
    ensures
        headers_differ(to_t.columns),
        in_saved_order(to_t.columns, saved, to + 1),
        to_t.columns.len() == t.columns.len(),
{
    let a = at as int;
    let b = to as int;
    assert forall|p: int| 0 <= p < t.columns.len() implies #[trigger] to_t.columns[p]
        == t.columns[was(a, b, p)] && 0 <= was(a, b, p) < t.columns.len() by {}
    assert forall|p: int, q: int| 0 <= p < q < to_t.columns.len() implies (
    #[trigger] to_t.columns[p]).header@ != (#[trigger] to_t.columns[q]).header@ by {
        let x = was(a, b, p);
        let y = was(a, b, q);
        assert(x != y);
        if x < y {
            assert(t.columns[x].header@ != t.columns[y].header@);
        } else {
            assert(t.columns[y].header@ != t.columns[x].header@);
        }
    }
    assert forall|p: int, j: int|
        0 <= j < to + 1 && #[trigger] answers(to_t.columns, saved, p, j) implies p <= j && answers(
        t.columns,
        saved,
        was(a, b, p),
        j,
    ) by {
        let x = was(a, b, p);
        assert(to_t.columns[p] == t.columns[x]);
        assert(answers(t.columns, saved, x, j));
        if j == to {
            if x != at {
                if x < a {
                    assert(t.columns[x].header@ != t.columns[a].header@);
                } else {
                    assert(t.columns[a].header@ != t.columns[x].header@);
                }
            }
        } else {
            assert(saved[j].header@ != saved[b].header@);
        }
    }
    assert forall|p: int, i: int, q: int, j: int|
        0 <= i < j < to + 1 && #[trigger] answers(to_t.columns, saved, p, i)
            && #[trigger] answers(to_t.columns, saved, q, j) implies p < q by {
        let x = was(a, b, p);
        let y = was(a, b, q);
        assert(answers(t.columns, saved, x, i));
        assert(answers(t.columns, saved, y, j));
        assert(saved[i].header@ != saved[j].header@);
        if j == to {
            if y != at {
                if y < a {
                    assert(t.columns[y].header@ != t.columns[a].header@);
                } else {
                    assert(t.columns[a].header@ != t.columns[y].header@);
                }
            }
            assert(p <= i);
        } else {
            assert(saved[j].header@ != saved[b].header@);
            assert(saved[i].header@ != saved[b].header@);
            assert(x < y);
        }
    }
}

/// Where the item stood that stands at `p` after a move from `a` to `b`.
spec fn was(a: int, b: int, p: int) -> int {
    if p == b {
        a
    } else if b < p <= a {
        p - 1
    } else if a <= p < b {
        p + 1
    } else {
        p
    }
}

proof fn lemma_still_in_order(v: VirtualTableView, saved: Seq<ColumnState>, to: usize)
    requires
        headers_differ(v.grid@.table.columns),
        v.grid@.table.columns.len() <= usize::MAX,
        to < saved.len(),
        in_saved_order(v.grid@.table.columns, saved, to as int),
        column_of(v, saved[to as int].header@) is None || column_of(v, saved[to as int].header@)
            == Some(to),
    ensures
        in_saved_order(v.grid@.table.columns, saved, to + 1),
{
    let columns = v.grid@.table.columns;
    let header = saved[to as int].header@;
    assert forall|p: int| #[trigger] answers(columns, saved, p, to as int) implies p == to by {
        assert forall|i: int| 0 <= i < p implies (#[trigger] columns[i]).header@ != header by {
            assert(columns[i].header@ != columns[p].header@);
        }
        lemma_column_of(v, header, p as usize);
    }
    assert forall|p: int, i: int, q: int, j: int|
        0 <= i < j < to + 1 && #[trigger] answers(columns, saved, p, i) && #[trigger] answers(
            columns,
            saved,
            q,
            j,
        ) implies p < q by {
        if j == to {
            assert(q == to && p <= i);
        }
    }
}

proof fn lemma_in_order(
    v0: VirtualTableView,
    n0: Nodes,
    v1: VirtualTableView,
    n1: Nodes,
    saved: Seq<ColumnState>,
    k: nat,
)
    requires
        order_steps(v0, n0, v1, n1, saved, k),
        kept(v0, v0),
        headers_differ(v0.grid@.table.columns),
        saved_differ(saved),
        k <= saved.len() <= v0.grid@.table.columns.len() <= usize::MAX,
    ensures
        kept(v0, v1),
        v1.grid@.table.columns.len() == v0.grid@.table.columns.len(),
        headers_differ(v1.grid@.table.columns),
        in_saved_order(v1.grid@.table.columns, saved, k as int),
    decreases k,
{
    if k > 0 {
        let j = (k - 1) as nat;
        let to = (k - 1) as usize;
        let (v, n) = choose|v: VirtualTableView, n: Nodes|
            order_steps(v0, n0, v, n, saved, j) && #[trigger] order_step(
                v,
                n,
                v1,
                n1,
                saved[k - 1].header@,
                to,
            );
        lemma_in_order(v0, n0, v, n, saved, j);
        let t = v.grid@.table;
        let header = saved[k - 1].header@;
        let own = column_of(v, header);
        if own is Some {
            let at = own.unwrap();
            lemma_column_of(v, header, at);
            if at != to {
                lemma_moved(v, n, v1, n1, at, to);
                lemma_one_in_order(t, v1.grid@.table, saved, at, to);
            } else {
                lemma_still_in_order(v, saved, to);
            }
        } else {
            lemma_still_in_order(v, saved, to);
        }
    }
}

/// Of a layout with no more columns than the table, those that the table has come to
/// stand in the order in which they were saved, whatever else is in the table or in
/// the layout.
pub proof fn saved_columns_come_in_their_order<R: Fn(&str) -> Option<u64>>(
    v0: VirtualTableView,
    n0: Nodes,
    v1: VirtualTableView,
    n1: Nodes,
    state: TableState,
    read: R,
    i: int,
    p: int,
    j: int,
    q: int,
)
    requires
        restored(v0, n0, v1, n1, state, read),
        v0.window.rows@.len() <= usize::MAX,
        headers_differ(v0.grid@.table.columns),
        saved_differ(state.columns@),
        state.columns@.len() <= v0.grid@.table.columns.len() <= usize::MAX,
        0 <= i < j < state.columns@.len(),
        0 <= p < v1.grid@.table.columns.len(),
        0 <= q < v1.grid@.table.columns.len(),
        v1.grid@.table.columns[p].header@ == state.columns@[i].header@,
        v1.grid@.table.columns[q].header@ == state.columns@[j].header@,
    ensures
        p < q,
{
    let saved = state.columns@;
    let n = saved.len();
    let (sa, sb, sc, sd, e) = lemma_stages(v0, n0, v1, n1, state, read);
    lemma_sort_columns(sd.0, sd.1, e, n1, state, read);
    lemma_flag_columns(sb.0, sb.1, sc.0, sc.1, saved, false, n);
    lemma_flag_columns(sc.0, sc.1, sd.0, sd.1, saved, true, n);
    lemma_size_len(sa.0, sa.1, sb.0, sb.1, saved, n);
    lemma_size_others(sa.0, sa.1, sb.0, sb.1, saved, n, p as usize);
    lemma_size_others(sa.0, sa.1, sb.0, sb.1, saved, n, q as usize);
    lemma_in_order(with_muted(v0, true), n0, sa.0, sa.1, saved, n);
    assert(answers(sa.0.grid@.table.columns, saved, p, i));
    assert(answers(sa.0.grid@.table.columns, saved, q, j));
}

} // verus!
