//! A stable merge sort.

use vstd::prelude::*;

verus! {

/// Does `new` hold the items of `old`, `new[i]` being `old[p[i]]`?
pub open spec fn rearranged<T>(old: Seq<T>, new: Seq<T>, p: Seq<int>) -> bool {
    &&& p.len() == old.len()
    &&& new.len() == old.len()
    &&& p.no_duplicates()
    &&& forall|i: int|
        0 <= i < p.len() ==> 0 <= #[trigger] p[i] < old.len() && new[i] == old[p[i]]
}

/// Is `after` a strict weak order on `items`?
pub open spec fn orders<T>(items: Seq<T>, after: spec_fn(T, T) -> bool) -> bool {
    &&& forall|i: int, j: int|
        0 <= i < items.len() && 0 <= j < items.len() && #[trigger] after(items[i], items[j])
            ==> !after(items[j], items[i])
    &&& forall|i: int, j: int, k: int|
        0 <= i < items.len() && 0 <= j < items.len() && 0 <= k < items.len() && !#[trigger] after(
            items[i],
            items[j],
        ) && !#[trigger] after(items[j], items[k]) ==> !after(items[i], items[k])
}

/// Are the items of `new`, taken from the places `p`, in order, those that
/// `after` does not tell apart in the order of their places?
pub open spec fn sorted_stably<T>(new: Seq<T>, p: Seq<int>, after: spec_fn(T, T) -> bool) -> bool {
    forall|i: int, j: int|
        #![trigger new[i], new[j]]
        0 <= i < j < new.len() ==> !after(new[i], new[j]) && (after(new[j], new[i]) || p[i] < p[j])
}

/// Does the function `f` answer as `after` does?
pub open spec fn answers_as<T, F: Fn(&T, &T) -> bool>(
    f: F,
    after: spec_fn(T, T) -> bool,
) -> bool {
    forall|a: &T, b: &T, r: bool| #[trigger] call_ensures(f, (a, b), r) ==> r == after(*a, *b)
}

/// Must the item at `a` stand before the one at `b`?
spec fn stands_before<T>(items: Seq<T>, after: spec_fn(T, T) -> bool, a: int, b: int) -> bool {
    !after(items[a], items[b]) && (after(items[b], items[a]) || a < b)
}

spec fn in_line<T>(items: Seq<T>, after: spec_fn(T, T) -> bool, places: Seq<usize>) -> bool {
    forall|i: int, j: int|
        #![trigger places[i], places[j]]
        0 <= i < j < places.len() ==> stands_before(
            items,
            after,
            places[i] as int,
            places[j] as int,
        )
}

spec fn all_before<T>(
    items: Seq<T>,
    after: spec_fn(T, T) -> bool,
    places: Seq<usize>,
    rest: Seq<usize>,
    from: int,
) -> bool {
    forall|i: int, j: int|
        #![trigger places[i], rest[j]]
        0 <= i < places.len() && from <= j < rest.len() ==> stands_before(
            items,
            after,
            places[i] as int,
            rest[j] as int,
        )
}

spec fn within(places: Seq<usize>, lo: int, hi: int) -> bool {
    forall|i: int| 0 <= i < places.len() ==> lo <= #[trigger] places[i] < hi
}

spec fn merged_so_far<T>(
    items: Seq<T>,
    after: spec_fn(T, T) -> bool,
    out: Seq<usize>,
    left: Seq<usize>,
    i: int,
    right: Seq<usize>,
    j: int,
) -> bool {
    in_line(items, after, out) && all_before(items, after, out, left, i) && all_before(
        items,
        after,
        out,
        right,
        j,
    )
}

proof fn lemma_take_left<T>(
    items: Seq<T>,
    after: spec_fn(T, T) -> bool,
    out: Seq<usize>,
    left: Seq<usize>,
    i: int,
    right: Seq<usize>,
    j: int,
)
    requires
        orders(items, after),
        within(out, 0, items.len() as int),
        within(left, 0, items.len() as int),
        within(right, 0, items.len() as int),
        in_line(items, after, left),
        in_line(items, after, right),
        merged_so_far(items, after, out, left, i, right, j),
        0 <= i < left.len(),
        0 <= j <= right.len(),
        j < right.len() ==> !after(items[left[i] as int], items[right[j] as int]),
        forall|b: int| j <= b < right.len() ==> left[i] < #[trigger] right[b],
    ensures
        merged_so_far(items, after, out.push(left[i]), left, i + 1, right, j),
{
    let new = out.push(left[i]);
    assert forall|x: int, y: int|
        #![trigger new[x], new[y]]
        0 <= x < y < new.len() implies stands_before(items, after, new[x] as int, new[y] as int) by {
        if y == out.len() {
            assert(stands_before(items, after, out[x] as int, left[i] as int));
        } else {
            assert(stands_before(items, after, out[x] as int, out[y] as int));
        }
    }
    assert forall|x: int, y: int|
        #![trigger new[x], left[y]]
        0 <= x < new.len() && i + 1 <= y < left.len() implies stands_before(
        items,
        after,
        new[x] as int,
        left[y] as int,
    ) by {
        if x == out.len() {
            assert(stands_before(items, after, left[i] as int, left[y] as int));
        } else {
            assert(stands_before(items, after, out[x] as int, left[y] as int));
        }
    }
    assert forall|x: int, y: int|
        #![trigger new[x], right[y]]
        0 <= x < new.len() && j <= y < right.len() implies stands_before(
        items,
        after,
        new[x] as int,
        right[y] as int,
    ) by {
        if x == out.len() {
            if y > j {
                assert(stands_before(items, after, right[j] as int, right[y] as int));
            }
        } else {
            assert(stands_before(items, after, out[x] as int, right[y] as int));
        }
    }
}

proof fn lemma_take_right<T>(
    items: Seq<T>,
    after: spec_fn(T, T) -> bool,
    out: Seq<usize>,
    left: Seq<usize>,
    i: int,
    right: Seq<usize>,
    j: int,
)
    requires
        orders(items, after),
        within(out, 0, items.len() as int),
        within(left, 0, items.len() as int),
        within(right, 0, items.len() as int),
        in_line(items, after, left),
        in_line(items, after, right),
        merged_so_far(items, after, out, left, i, right, j),
        0 <= i <= left.len(),
        0 <= j < right.len(),
        i < left.len() ==> after(items[left[i] as int], items[right[j] as int]),
    ensures
        merged_so_far(items, after, out.push(right[j]), left, i, right, j + 1),
{
    let new = out.push(right[j]);
    assert forall|x: int, y: int|
        #![trigger new[x], new[y]]
        0 <= x < y < new.len() implies stands_before(items, after, new[x] as int, new[y] as int) by {
        if y == out.len() {
            assert(stands_before(items, after, out[x] as int, right[j] as int));
        } else {
            assert(stands_before(items, after, out[x] as int, out[y] as int));
        }
    }
    assert forall|x: int, y: int|
        #![trigger new[x], right[y]]
        0 <= x < new.len() && j + 1 <= y < right.len() implies stands_before(
        items,
        after,
        new[x] as int,
        right[y] as int,
    ) by {
        if x == out.len() {
            assert(stands_before(items, after, right[j] as int, right[y] as int));
        } else {
            assert(stands_before(items, after, out[x] as int, right[y] as int));
        }
    }
    assert forall|x: int, y: int|
        #![trigger new[x], left[y]]
        0 <= x < new.len() && i <= y < left.len() implies stands_before(
        items,
        after,
        new[x] as int,
        left[y] as int,
    ) by {
        if x == out.len() {
            if y > i {
                assert(stands_before(items, after, left[i] as int, left[y] as int));
                assert(after(items[left[y] as int], items[right[j] as int]));
            }
        } else {
            assert(stands_before(items, after, out[x] as int, left[y] as int));
        }
    }
}

/// Merge two lists of places, every one in `left` below every one in `right`.
fn merge<T, F: Fn(&T, &T) -> bool>(
    items: &Vec<T>,
    left: &Vec<usize>,
    right: &Vec<usize>,
    mid: Ghost<int>,
    after: &F,
) -> (out: Vec<usize>)
    requires
        forall|a: &T, b: &T| #[trigger] call_requires(*after, (a, b)),
        within(left@, 0, mid@),
        within(right@, mid@, items@.len() as int),
        0 <= mid@ <= items@.len(),
        left@.no_duplicates(),
        right@.no_duplicates(),
        left@.len() + right@.len() <= usize::MAX,
    ensures
        out@.len() == left@.len() + right@.len(),
        out@.no_duplicates(),
        forall|k: int|
            0 <= k < out@.len() ==> left@.contains(#[trigger] out@[k]) || right@.contains(out@[k]),
        forall|g: spec_fn(T, T) -> bool|
            answers_as(*after, g) && orders(items@, g) && #[trigger] in_line(items@, g, left@)
                && in_line(items@, g, right@) ==> in_line(items@, g, out@),
{
    let mut out: Vec<usize> = Vec::new();
    let mut i: usize = 0;
    let mut j: usize = 0;
    while i < left.len() || j < right.len()
        invariant
            forall|a: &T, b: &T| #[trigger] call_requires(*after, (a, b)),
            within(left@, 0, mid@),
            within(right@, mid@, items@.len() as int),
            0 <= mid@ <= items@.len(),
            left@.no_duplicates(),
            right@.no_duplicates(),
            left@.len() + right@.len() <= usize::MAX,
            i <= left@.len(),
            j <= right@.len(),
            out@.len() == i + j,
            out@.no_duplicates(),
            forall|k: int|
                0 <= k < out@.len() ==> (exists|a: int|
                    0 <= a < i && left@[a] == #[trigger] out@[k]) || (exists|b: int|
                    0 <= b < j && right@[b] == out@[k]),
            within(out@, 0, items@.len() as int),
            forall|g: spec_fn(T, T) -> bool|
                answers_as(*after, g) && orders(items@, g) && #[trigger] in_line(items@, g, left@)
                    && in_line(items@, g, right@) ==> merged_so_far(
                    items@,
                    g,
                    out@,
                    left@,
                    i as int,
                    right@,
                    j as int,
                ),
        decreases left@.len() - i + right@.len() - j,
    {
        let from_left = if i == left.len() {
            false
        } else if j == right.len() {
            true
        } else {
            !after(&items[left[i]], &items[right[j]])
        };
        let ghost before = out@;
        if from_left {
            proof {
                assert forall|g: spec_fn(T, T) -> bool|
                    answers_as(*after, g) && orders(items@, g) && #[trigger] in_line(
                        items@,
                        g,
                        left@,
                    ) && in_line(items@, g, right@) implies merged_so_far(
                    items@,
                    g,
                    before.push(left@[i as int]),
                    left@,
                    i + 1,
                    right@,
                    j as int,
                ) by {
                    lemma_take_left(items@, g, before, left@, i as int, right@, j as int);
                }
                assert(!before.contains(left@[i as int]));
            }
            out.push(left[i]);
            i = i + 1;
        } else {
            proof {
                assert forall|g: spec_fn(T, T) -> bool|
                    answers_as(*after, g) && orders(items@, g) && #[trigger] in_line(
                        items@,
                        g,
                        left@,
                    ) && in_line(items@, g, right@) implies merged_so_far(
                    items@,
                    g,
                    before.push(right@[j as int]),
                    left@,
                    i as int,
                    right@,
                    j + 1,
                ) by {
                    lemma_take_right(items@, g, before, left@, i as int, right@, j as int);
                }
                assert(!before.contains(right@[j as int]));
            }
            out.push(right[j]);
            j = j + 1;
        }
        assert forall|k: int| 0 <= k < out@.len() implies (exists|a: int|
            0 <= a < i && left@[a] == #[trigger] out@[k]) || (exists|b: int|
            0 <= b < j && right@[b] == out@[k]) by {
            if k < before.len() {
                assert(out@[k] == before[k]);
            } else if from_left {
                assert(left@[i - 1] == out@[k]);
            } else {
                assert(right@[j - 1] == out@[k]);
            }
        }
    }
    out
}

/// The places `lo..hi` of `items` in sorted order.
fn sort_places<T, F: Fn(&T, &T) -> bool>(
    items: &Vec<T>,
    lo: usize,
    hi: usize,
    after: &F,
) -> (out: Vec<usize>)
    requires
        lo <= hi <= items@.len(),
        forall|a: &T, b: &T| #[trigger] call_requires(*after, (a, b)),
    ensures
        out@.len() == hi - lo,
        out@.no_duplicates(),
        within(out@, lo as int, hi as int),
        forall|g: spec_fn(T, T) -> bool|
            answers_as(*after, g) && #[trigger] orders(items@, g) ==> in_line(items@, g, out@),
    decreases hi - lo,
{
    let mut out: Vec<usize> = Vec::new();
    if hi - lo == 0 {
        return out;
    }
    if hi - lo == 1 {
        out.push(lo);
        return out;
    }
    let mid: usize = lo + (hi - lo) / 2;
    let left = sort_places(items, lo, mid, after);
    let right = sort_places(items, mid, hi, after);
    let both = merge(items, &left, &right, Ghost(mid as int), after);
    proof {
        assert forall|g: spec_fn(T, T) -> bool|
            answers_as(*after, g) && #[trigger] orders(items@, g) implies in_line(
            items@,
            g,
            both@,
        ) by {
            assert(in_line(items@, g, left@));
        }
    }
    both
}

/// `items` in the order that `after` gives, `after(a, b)` meaning that `a`
/// belongs behind `b`. Items that it does not tell apart keep their order. The
/// result holds the same items whatever `after` answers.
pub fn sort_stable<T, F: Fn(&T, &T) -> bool>(items: Vec<T>, after: &F) -> (out: Vec<T>)
    requires
        forall|a: &T, b: &T| #[trigger] call_requires(*after, (a, b)),
    ensures
        exists|p: Seq<int>| #[trigger]
            rearranged(items@, out@, p) && forall|g: spec_fn(T, T) -> bool|
                answers_as(*after, g) && #[trigger] orders(items@, g) ==> sorted_stably(
                    out@,
                    p,
                    g,
                ),
{
    let n: usize = items.len();
    let places = sort_places(&items, 0, n, after);
    let ghost given = items@;
    let mut items = items;
    let mut slots: Vec<Option<T>> = Vec::new();
    while items.len() > 0
        invariant
            given.len() == n,
            slots@.len() + items@.len() == n,
            items@ == given.take(items@.len() as int),
            forall|x: int|
                0 <= x < slots@.len() ==> #[trigger] slots@[x] == Some(given[n - 1 - x]),
        decreases items@.len(),
    {
        slots.push(items.pop());
        assert(items@ =~= given.take(items@.len() as int));
    }
    let mut out: Vec<T> = Vec::new();
    let mut k: usize = 0;
    while k < n
        invariant
            k <= n,
            given.len() == n,
            slots@.len() == n,
            places@.len() == n,
            places@.no_duplicates(),
            within(places@, 0, n as int),
            out@.len() == k,
            forall|x: int|
                #![trigger places@[x]]
                k <= x < n ==> slots@[n - 1 - places@[x]] == Some(given[places@[x] as int]),
            forall|x: int|
                #![trigger out@[x]]
                0 <= x < k ==> out@[x] == given[places@[x] as int],
        decreases n - k,
    {
        let at: usize = n - 1 - places[k];
        let item = slots[at].take();
        assert(item == Some(given[places@[k as int] as int]));
        match item {
            Some(item) => {
                out.push(item);
            },
            None => {},
        }
        k = k + 1;
    }
    proof {
        let p = Seq::new(n as nat, |i: int| places@[i] as int);
        assert(rearranged(given, out@, p));
        assert forall|g: spec_fn(T, T) -> bool|
            answers_as(*after, g) && #[trigger] orders(given, g) implies sorted_stably(
            out@,
            p,
            g,
        ) by {
            assert forall|i: int, j: int|
                #![trigger out@[i], out@[j]]
                0 <= i < j < out@.len() implies !g(out@[i], out@[j]) && (g(out@[j], out@[i])
                || p[i] < p[j]) by {
                assert(stands_before(given, g, places@[i] as int, places@[j] as int));
            }
        }
    }
    out
}

/// Rearranging keeps each item as often as it occurs.
pub proof fn rearranging_keeps_the_items<T>(old: Seq<T>, new: Seq<T>, p: Seq<int>)
    requires
        rearranged(old, new, p),
    ensures
        new.to_multiset() == old.to_multiset(),
    decreases old.len(),
{
    broadcast use vstd::seq_lib::group_to_multiset_ensures;

    if old.len() > 0 {
        let at = p.last();
        let q = Seq::new(
            (p.len() - 1) as nat,
            |i: int|
                if p[i] > at {
                    p[i] - 1
                } else {
                    p[i]
                },
        );
        let rest = old.remove(at);
        assert forall|i: int| 0 <= i < q.len() implies 0 <= #[trigger] q[i] < rest.len()
            && new.drop_last()[i] == rest[q[i]] by {
            assert(p[i] != at);
            assert(0 <= p[i] < old.len());
        }
        assert(q.no_duplicates()) by {
            assert forall|i: int, j: int| 0 <= i < q.len() && 0 <= j < q.len() && i
                != j implies q[i] != q[j] by {
                assert(p[i] != p[j] && p[i] != at && p[j] != at);
            }
        }
        rearranging_keeps_the_items(rest, new.drop_last(), q);
        assert(new =~= new.drop_last().push(new.last()));
        assert(new.to_multiset() =~= new.drop_last().to_multiset().insert(new.last()));
        assert(old.to_multiset() =~= rest.to_multiset().insert(old[at]));
    } else {
        assert(new =~= old);
    }
}

/// Numbers below their count that only rise are all of them in order.
proof fn lemma_rising_is_identity(q: Seq<int>)
    requires
        forall|i: int| 0 <= i < q.len() ==> 0 <= #[trigger] q[i] < q.len(),
        forall|i: int, j: int| 0 <= i < j < q.len() ==> q[i] < q[j],
    ensures
        forall|i: int| 0 <= i < q.len() ==> #[trigger] q[i] == i,
{
    assert forall|i: int| 0 <= i < q.len() implies #[trigger] q[i] == i by {
        lemma_rises_from(q, i);
        lemma_rises_to(q, i);
    }
}

proof fn lemma_rises_from(q: Seq<int>, i: int)
    requires
        forall|k: int| 0 <= k < q.len() ==> 0 <= #[trigger] q[k],
        forall|k: int, j: int| 0 <= k < j < q.len() ==> q[k] < q[j],
        0 <= i < q.len(),
    ensures
        q[i] >= i,
    decreases i,
{
    if i > 0 {
        lemma_rises_from(q, i - 1);
        assert(q[i - 1] < q[i]);
    }
}

proof fn lemma_rises_to(q: Seq<int>, i: int)
    requires
        forall|k: int| 0 <= k < q.len() ==> #[trigger] q[k] < q.len(),
        forall|k: int, j: int| 0 <= k < j < q.len() ==> q[k] < q[j],
        0 <= i < q.len(),
    ensures
        q[i] <= i,
    decreases q.len() - i,
{
    if i + 1 < q.len() {
        lemma_rises_to(q, i + 1);
        assert(q[i] < q[i + 1]);
    }
}

/// Sorting items that are in order leaves each in its place.
pub(crate) proof fn lemma_sorted_again<T>(
    a: Seq<T>,
    b: Seq<T>,
    p: Seq<int>,
    q: Seq<int>,
    after: spec_fn(T, T) -> bool,
)
    requires
        sorted_stably(a, p, after),
        rearranged(a, b, q),
        sorted_stably(b, q, after),
    ensures
        forall|i: int| 0 <= i < q.len() ==> #[trigger] q[i] == i,
{
    assert forall|i: int, j: int| 0 <= i < j < q.len() implies q[i] < q[j] by {
        assert(b[i] == a[q[i]] && b[j] == a[q[j]]);
        assert(q[i] != q[j]);
        if q[j] < q[i] {
            assert(!after(a[q[j]], a[q[i]]));
        }
    }
    lemma_rising_is_identity(q);
}

} // verus!
