//! The window buffer: the rows that can be shown, by absolute index and by
//! identity, with the known total and a window epoch that only grows. A slot
//! without a row is a placeholder.

use std::ops::Range;

use vstd::prelude::*;

use crate::data::{Row, RowKey, RowView};
use crate::model::{move_cell, moved_in_row, row_views, SortDir};

verus! {

/// A request for the consumer to fetch a window: the epoch to hand back with
/// the rows, the absolute range to fetch, and the current sort.
#[derive(Debug)]
pub struct WindowRequest {
    pub epoch: u64,
    pub range: Range<usize>,
    pub sort: Vec<SortSpec>,
}

/// One sort key of a [`WindowRequest`]: a column, named by its header, and a
/// direction.
#[derive(Debug, PartialEq, Eq)]
pub struct SortSpec {
    pub column: String,
    pub dir: SortDir,
}

impl Clone for SortSpec {
    fn clone(&self) -> (r: Self)
        ensures
            r == *self,
    {
        SortSpec { column: self.column.clone(), dir: self.dir }
    }
}

/// The rows currently at hand, the total and the window epoch.
#[derive(Debug)]
pub struct WindowBuffer {
    /// The first absolute index that the buffer covers.
    start: usize,
    /// The rows of `start..start + slots.len()`; `None` is a placeholder.
    slots: Vec<Option<Row>>,
    /// The absolute index of each loaded row's key, every key once.
    by_key: Vec<(RowKey, usize)>,
    total: usize,
    epoch: u64,
}

/// A buffer as a mathematical value.
#[verifier::ext_equal]
pub struct BufferView {
    pub start: usize,
    pub slots: Seq<Option<RowView>>,
    pub by_key: Map<Seq<char>, usize>,
    pub total: usize,
    pub epoch: u64,
}

/// The mathematical value of a slot.
pub open spec fn slot_view(slot: Option<Row>) -> Option<RowView> {
    match slot {
        Some(row) => Some(row@),
        None => None,
    }
}

/// The index of rows that stand at `start` and after: each key's last place.
pub open spec fn indexed(rows: Seq<RowView>, start: usize) -> Map<Seq<char>, usize>
    decreases rows.len(),
{
    if rows.len() == 0 {
        Map::empty()
    } else {
        indexed(rows.drop_last(), start).insert(
            rows.last().key,
            (start + rows.len() - 1) as usize,
        )
    }
}

impl BufferView {
    /// The index names, for each key, a slot that holds the row of that key.
    pub open spec fn wf(self) -> bool {
        &&& self.start + self.slots.len() <= usize::MAX + 1
        &&& forall|k: Seq<char>| #[trigger]
            self.by_key.contains_key(k) ==> self.start <= self.by_key[k] < self.start
                + self.slots.len() && self.slots[self.by_key[k] - self.start] is Some
                && self.slots[self.by_key[k] - self.start].unwrap().key == k
    }

    /// The row at absolute `index`.
    pub open spec fn row_at(self, index: int) -> Option<RowView> {
        if self.start <= index < self.start + self.slots.len() {
            self.slots[index - self.start]
        } else {
            None
        }
    }

    /// The identity of the row at absolute `index`.
    pub open spec fn key_at(self, index: int) -> Option<Seq<char>> {
        match self.row_at(index) {
            Some(row) => Some(row.key),
            None => None,
        }
    }

    /// Are all the rows from `lo` below `hi` at hand?
    pub open spec fn covers(self, lo: int, hi: int) -> bool {
        forall|i: int| lo <= i < hi ==> #[trigger] self.row_at(i) is Some
    }

    /// The buffer that covers `rows`, the first of them at `start`.
    pub open spec fn resynced(self, start: usize, rows: Seq<RowView>) -> BufferView {
        BufferView {
            start,
            slots: Seq::new(rows.len(), |i: int| Some(rows[i])),
            by_key: indexed(rows, start),
            ..self
        }
    }

    /// The buffer with the row of the same key, if it is at hand, replaced.
    pub open spec fn upserted(self, row: RowView) -> BufferView {
        if self.by_key.contains_key(row.key) {
            BufferView {
                slots: self.slots.update(self.by_key[row.key] - self.start, Some(row)),
                ..self
            }
        } else {
            self
        }
    }

    /// The buffer with the row of `key`, if it is at hand, turned into a
    /// placeholder.
    pub open spec fn removed(self, key: Seq<char>) -> BufferView {
        if self.by_key.contains_key(key) {
            BufferView {
                slots: self.slots.update(self.by_key[key] - self.start, None),
                by_key: self.by_key.remove(key),
                ..self
            }
        } else {
            self
        }
    }

    /// The buffer without rows.
    pub open spec fn without_rows(self) -> BufferView {
        BufferView { start: 0, slots: Seq::empty(), by_key: Map::empty(), ..self }
    }

    /// The buffer without its index: its rows stay on show, but no key names one
    /// any more.
    pub open spec fn unindexed(self) -> BufferView {
        BufferView { by_key: Map::empty(), ..self }
    }

    /// The buffer with the column `from` of its rows moved to `to`.
    pub open spec fn column_moved(self, from: int, to: int) -> BufferView {
        BufferView {
            slots: Seq::new(
                self.slots.len(),
                |i: int|
                    match self.slots[i] {
                        Some(row) => Some(moved_in_row(row, from, to)),
                        None => None,
                    },
            ),
            ..self
        }
    }

    /// The buffer with a list of rows upserted, one after the other.
    pub open spec fn all_upserted(self, rows: Seq<RowView>) -> BufferView
        decreases rows.len(),
    {
        if rows.len() == 0 {
            self
        } else {
            self.all_upserted(rows.drop_last()).upserted(rows.last())
        }
    }

    /// The buffer with a list of keys removed, one after the other.
    pub open spec fn all_removed(self, keys: Seq<Seq<char>>) -> BufferView
        decreases keys.len(),
    {
        if keys.len() == 0 {
            self
        } else {
            self.all_removed(keys.drop_last()).removed(keys.last())
        }
    }
}

/// The keys of an index.
pub open spec fn index_keys(index: Seq<(RowKey, usize)>) -> Seq<Seq<char>> {
    Seq::new(index.len(), |i: int| index[i].0@)
}

/// The map that an index stands for.
pub open spec fn index_map(index: Seq<(RowKey, usize)>) -> Map<Seq<char>, usize> {
    Map::new(
        |k: Seq<char>| index_keys(index).contains(k),
        |k: Seq<char>| index[index_keys(index).index_of(k)].1,
    )
}

/// The place of `key` in an index.
fn find(index: &Vec<(RowKey, usize)>, key: &RowKey) -> (r: Option<usize>)
    requires
        index_keys(index@).no_duplicates(),
    ensures
        (match r {
            Some(i) => i < index@.len() && index@[i as int].0@ == key@ && index_map(
                index@,
            ).contains_key(key@) && index_map(index@)[key@] == index@[i as int].1,
            None => !index_map(index@).contains_key(key@),
        }),
{
    let mut i: usize = 0;
    while i < index.len()
        invariant
            i <= index@.len(),
            index_keys(index@).no_duplicates(),
            forall|j: int| 0 <= j < i ==> (#[trigger] index@[j]).0@ != key@,
        decreases index@.len() - i,
    {
        if index[i].0 == *key {
            assert(index_keys(index@)[i as int] == key@);
            return Some(i);
        }
        i = i + 1;
    }
    assert forall|j: int| 0 <= j < index_keys(index@).len() implies index_keys(index@)[j]
        != key@ by {
        assert(index@[j].0@ != key@);
    }
    None
}

/// Enter `key` into an index, over what it was before.
fn enter(index: &mut Vec<(RowKey, usize)>, key: RowKey, at: usize)
    requires
        index_keys(old(index)@).no_duplicates(),
    ensures
        index_keys(final(index)@).no_duplicates(),
        index_map(final(index)@) == index_map(old(index)@).insert(key@, at),
{
    let ghost before = index@;
    match find(index, &key) {
        Some(i) => {
            index[i].1 = at;
            proof {
                let keys = index_keys(before);
                assert(index_keys(index@) =~= keys);
                assert(keys[i as int] == key@);
                let want = index_map(before).insert(key@, at);
                assert forall|k: Seq<char>| index_map(index@).contains_key(k) implies index_map(
                    index@,
                )[k] == want[k] by {
                    assert(keys[keys.index_of(k)] == k);
                }
                assert(index_map(index@) =~= want);
            }
        },
        None => {
            let ghost k0 = key@;
            index.push((key, at));
            proof {
                let keys = index_keys(before);
                let new_keys = index_keys(index@);
                assert(new_keys =~= keys.push(k0));
                assert(!keys.contains(k0));
                assert(new_keys.no_duplicates());
                let want = index_map(before).insert(k0, at);
                assert forall|k: Seq<char>| index_map(index@).contains_key(k)
                    == want.contains_key(k) by {
                    if keys.contains(k) {
                        let j = keys.index_of(k);
                        assert(keys[j] == k);
                        assert(new_keys[j] == k);
                    }
                    if k == k0 {
                        assert(new_keys[keys.len() as int] == k);
                    }
                    if new_keys.contains(k) && k != k0 {
                        let j = new_keys.index_of(k);
                        assert(new_keys[j] == k);
                        assert(keys[j] == k);
                    }
                }
                assert forall|k: Seq<char>| index_map(index@).contains_key(k) implies index_map(
                    index@,
                )[k] == want[k] by {
                    let j = new_keys.index_of(k);
                    assert(new_keys[j] == k);
                    if k != k0 {
                        assert(keys[j] == k);
                        assert(keys[keys.index_of(k)] == k);
                        assert(keys.index_of(k) == j);
                    } else {
                        assert(new_keys[keys.len() as int] == k);
                        assert(j == keys.len());
                    }
                }
                assert(index_map(index@) =~= want);
            }
        },
    }
}

/// Strike `key` from an index; its place if it was in.
fn strike(index: &mut Vec<(RowKey, usize)>, key: &RowKey) -> (r: Option<usize>)
    requires
        index_keys(old(index)@).no_duplicates(),
    ensures
        index_keys(final(index)@).no_duplicates(),
        index_map(final(index)@) == index_map(old(index)@).remove(key@),
        (match r {
            Some(at) => index_map(old(index)@).contains_key(key@) && index_map(old(index)@)[key@]
                == at,
            None => !index_map(old(index)@).contains_key(key@),
        }),
{
    let ghost before = index@;
    match find(index, key) {
        Some(i) => {
            let at: usize = index[i].1;
            index.remove(i);
            proof {
                let keys = index_keys(before);
                let new_keys = index_keys(index@);
                assert(new_keys =~= keys.remove(i as int));
                assert(keys[i as int] == key@);
                let want = index_map(before).remove(key@);
                assert forall|k: Seq<char>| index_map(index@).contains_key(k)
                    == want.contains_key(k) by {
                    if keys.contains(k) && k != key@ {
                        let j = keys.index_of(k);
                        assert(keys[j] == k);
                        if j < i {
                            assert(new_keys[j] == k);
                        } else {
                            assert(new_keys[j - 1] == k);
                        }
                    }
                    if new_keys.contains(k) {
                        let j = new_keys.index_of(k);
                        assert(new_keys[j] == k);
                        if j < i {
                            assert(keys[j] == k);
                        } else {
                            assert(keys[j + 1] == k);
                        }
                    }
                }
                assert forall|k: Seq<char>| index_map(index@).contains_key(k) implies index_map(
                    index@,
                )[k] == want[k] by {
                    let j = new_keys.index_of(k);
                    assert(new_keys[j] == k);
                    let o = if j < i {
                        j
                    } else {
                        j + 1
                    };
                    assert(keys[o] == k);
                    assert(keys[keys.index_of(k)] == k);
                    assert(keys.index_of(k) == o);
                }
                assert(index_map(index@) =~= want);
            }
            Some(at)
        },
        None => {
            assert(index_map(index@) =~= index_map(index@).remove(key@));
            None
        },
    }
}

impl View for WindowBuffer {
    type V = BufferView;

    closed spec fn view(&self) -> BufferView {
        BufferView {
            start: self.start,
            slots: Seq::new(self.slots@.len(), |i: int| slot_view(self.slots@[i])),
            by_key: index_map(self.by_key@),
            total: self.total,
            epoch: self.epoch,
        }
    }
}

/// An index of rows names, for each key, a place of a row of that key.
proof fn lemma_indexed(rows: Seq<RowView>, start: usize)
    requires
        start + rows.len() <= usize::MAX + 1,
    ensures
        forall|k: Seq<char>| #[trigger]
            indexed(rows, start).contains_key(k) ==> start <= indexed(rows, start)[k] < start
                + rows.len() && rows[indexed(rows, start)[k] - start].key == k,
    decreases rows.len(),
{
    if rows.len() > 0 {
        let rest = rows.drop_last();
        lemma_indexed(rest, start);
        assert forall|k: Seq<char>| #[trigger] indexed(rows, start).contains_key(k) implies start
            <= indexed(rows, start)[k] < start + rows.len() && rows[indexed(rows, start)[k]
            - start].key == k by {
            if k != rows.last().key {
                assert(indexed(rest, start).contains_key(k));
            }
        }
    }
}

impl WindowBuffer {
    /// The index is right and holds every key once.
    pub open spec fn wf(&self) -> bool {
        self.keys_once() && self@.wf()
    }

    /// Every key is in the index once.
    pub closed spec fn keys_once(&self) -> bool {
        index_keys(self.by_key@).no_duplicates()
    }

    pub fn new() -> (r: Self)
        ensures
            r.wf(),
            r@ == (BufferView {
                start: 0,
                slots: Seq::empty(),
                by_key: Map::empty(),
                total: 0,
                epoch: 0,
            }),
    {
        let r = WindowBuffer {
            start: 0,
            slots: Vec::new(),
            by_key: Vec::new(),
            total: 0,
            epoch: 0,
        };
        assert(r@.slots =~= Seq::empty());
        assert(r@.by_key =~= Map::empty());
        r
    }

    /// Total rows in the result.
    pub fn total(&self) -> (r: usize)
        ensures
            r == self@.total,
    {
        self.total
    }

    /// Set the known total. It is independent of the rows at hand.
    pub fn set_total(&mut self, total: usize)
        requires
            old(self).wf(),
        ensures
            final(self).wf(),
            final(self)@ == (BufferView { total, ..old(self)@ }),
    {
        self.total = total;
    }

    /// The current window epoch.
    pub fn epoch(&self) -> (r: u64)
        ensures
            r == self@.epoch,
    {
        self.epoch
    }

    /// Advance the epoch and return its new value.
    pub fn bump_epoch(&mut self) -> (r: u64)
        requires
            old(self).wf(),
            old(self)@.epoch < u64::MAX,
        ensures
            final(self).wf(),
            r == old(self)@.epoch + 1,
            final(self)@ == (BufferView { epoch: r, ..old(self)@ }),
    {
        self.epoch = self.epoch + 1;
        self.epoch
    }

    /// Drop the index: until the next window is set no row can be patched.
    pub fn forget_keys(&mut self)
        requires
            old(self).wf(),
        ensures
            final(self).wf(),
            final(self)@ == old(self)@.unindexed(),
    {
        self.by_key = Vec::new();
        assert(self@.by_key =~= Map::empty());
    }

    /// Carry the cells of the rows along as the column `from` moves to `to`.
    pub fn move_column(&mut self, from: usize, to: usize)
        requires
            old(self).wf(),
        ensures
            final(self).wf(),
            final(self)@ == old(self)@.column_moved(from as int, to as int),
    {
        let ghost before = self@;
        let ghost after = before.column_moved(from as int, to as int);
        let mut i: usize = 0;
        while i < self.slots.len()
            invariant
                i <= self.slots@.len(),
                self.slots@.len() == before.slots.len(),
                after == before.column_moved(from as int, to as int),
                self@ == (BufferView { slots: self@.slots, ..before }),
                self.keys_once(),
                forall|k: int|
                    0 <= k < i ==> slot_view(#[trigger] self.slots@[k]) == after.slots[k],
                forall|k: int|
                    i <= k < self.slots@.len() ==> slot_view(#[trigger] self.slots@[k])
                        == before.slots[k],
            decreases self.slots@.len() - i,
        {
            let slot = self.slots[i].take();
            match slot {
                Some(mut row) => {
                    move_cell(&mut row, from, to);
                    self.slots[i] = Some(row);
                },
                None => {},
            }
            i = i + 1;
        }
        proof {
            assert(self@.slots =~= after.slots);
            assert forall|k: Seq<char>| #[trigger] self@.by_key.contains_key(k) implies self@.slots[
            self@.by_key[k] - self@.start] is Some && self@.slots[self@.by_key[k]
                - self@.start].unwrap().key == k by {
                assert(before.by_key.contains_key(k));
            }
        }
    }

    /// Number of slots, loaded or not.
    pub fn len(&self) -> (r: usize)
        ensures
            r == self@.slots.len(),
    {
        self.slots.len()
    }

    /// Replace the window with `rows`, which cover `start..start + rows.len()`.
    pub fn set_window(&mut self, start: usize, rows: Vec<Row>)
        requires
            old(self).wf(),
            start + rows@.len() <= usize::MAX + 1,
        ensures
            final(self).wf(),
            final(self)@ == old(self)@.resynced(start, row_views(rows@)),
    {
        let ghost views = row_views(rows@);
        let mut by_key: Vec<(RowKey, usize)> = Vec::new();
        let mut slots: Vec<Option<Row>> = Vec::new();
        assert(index_map(by_key@) =~= Map::empty());
        assert(views.take(0) =~= Seq::empty());
        for row in it: rows
            invariant
                it.seq() == rows@,
                views == row_views(rows@),
                start + rows@.len() <= usize::MAX + 1,
                slots@.len() == it.index(),
                forall|i: int| 0 <= i < slots@.len() ==> #[trigger] slots@[i] == Some(rows@[i]),
                index_keys(by_key@).no_duplicates(),
                index_map(by_key@) == indexed(views.take(it.index()), start),
        {
            let at: usize = start + slots.len();
            enter(&mut by_key, row.key.clone(), at);
            slots.push(Some(row));
            assert(views.take(it.index() + 1).drop_last() =~= views.take(it.index()));
        }
        assert(views.take(views.len() as int) =~= views);
        self.by_key = by_key;
        self.start = start;
        self.slots = slots;
        proof {
            lemma_indexed(views, start);
            assert(self@.slots =~= old(self)@.resynced(start, views).slots);
        }
    }

    /// Replace the row of the same key, if it is at hand; `false` if it is not.
    pub fn upsert(&mut self, row: Row) -> (r: bool)
        requires
            old(self).wf(),
        ensures
            final(self).wf(),
            r == old(self)@.by_key.contains_key(row@.key),
            final(self)@ == old(self)@.upserted(row@),
    {
        match find(&self.by_key, &row.key) {
            Some(i) => {
                let at: usize = self.by_key[i].1;
                assert(self@.by_key.contains_key(row@.key));
                let slot: usize = at - self.start;
                let ghost view = row@;
                self.slots[slot] = Some(row);
                assert(self@.slots =~= old(self)@.upserted(view).slots);
                true
            },
            None => false,
        }
    }

    /// Turn the row of `key` into a placeholder; `false` if it is not at hand.
    pub fn remove(&mut self, key: &RowKey) -> (r: bool)
        requires
            old(self).wf(),
        ensures
            final(self).wf(),
            r == old(self)@.by_key.contains_key(key@),
            final(self)@ == old(self)@.removed(key@),
    {
        match strike(&mut self.by_key, key) {
            Some(at) => {
                assert(old(self)@.by_key.contains_key(key@));
                let slot: usize = at - self.start;
                self.slots[slot] = None;
                assert(self@.slots =~= old(self)@.removed(key@).slots);
                true
            },
            None => false,
        }
    }

    /// The row at absolute `index`, or `None` if it is not at hand.
    pub fn row_at(&self, index: usize) -> (r: Option<&Row>)
        ensures
            (match r {
                Some(row) => self@.row_at(index as int) == Some(row@),
                None => self@.row_at(index as int) is None,
            }),
    {
        if index < self.start || index - self.start >= self.slots.len() {
            return None;
        }
        let slot: usize = index - self.start;
        assert(self@.slots[slot as int] == slot_view(self.slots@[slot as int]));
        self.slots[slot].as_ref()
    }

    /// The identity at absolute `index`.
    pub fn key_at(&self, index: usize) -> (r: Option<&RowKey>)
        ensures
            (match r {
                Some(key) => self@.key_at(index as int) == Some(key@),
                None => self@.key_at(index as int) is None,
            }),
    {
        match self.row_at(index) {
            Some(row) => Some(&row.key),
            None => None,
        }
    }

    /// Is the row at absolute `index` at hand?
    pub fn is_loaded(&self, index: usize) -> (r: bool)
        ensures
            r == self@.row_at(index as int) is Some,
    {
        self.row_at(index).is_some()
    }

    /// Drop the rows; the epoch and the total stay.
    pub fn clear_rows(&mut self)
        requires
            old(self).wf(),
        ensures
            final(self).wf(),
            final(self)@ == old(self)@.without_rows(),
    {
        self.slots.clear();
        self.by_key.clear();
        self.start = 0;
        assert(self@.slots =~= Seq::empty());
        assert(self@.by_key =~= Map::empty());
    }
}

/// Upserting rows changes neither the range that the buffer covers nor its total
/// and epoch, and no row enters or leaves.
pub proof fn upserts_keep_the_window(b: BufferView, rows: Seq<RowView>)
    requires
        b.wf(),
    ensures
        b.all_upserted(rows).wf(),
        b.all_upserted(rows).start == b.start,
        b.all_upserted(rows).slots.len() == b.slots.len(),
        b.all_upserted(rows).by_key == b.by_key,
        b.all_upserted(rows).total == b.total,
        b.all_upserted(rows).epoch == b.epoch,
    decreases rows.len(),
{
    if rows.len() > 0 {
        upserts_keep_the_window(b, rows.drop_last());
        assert(b.all_upserted(rows.drop_last()).upserted(rows.last()).wf());
    }
}

/// Removing rows changes neither the range that the buffer covers nor its total
/// and epoch.
pub proof fn removals_keep_the_window(b: BufferView, keys: Seq<Seq<char>>)
    requires
        b.wf(),
    ensures
        b.all_removed(keys).wf(),
        b.all_removed(keys).start == b.start,
        b.all_removed(keys).slots.len() == b.slots.len(),
        b.all_removed(keys).total == b.total,
        b.all_removed(keys).epoch == b.epoch,
    decreases keys.len(),
{
    if keys.len() > 0 {
        removals_keep_the_window(b, keys.drop_last());
        assert(b.all_removed(keys.drop_last()).removed(keys.last()).wf());
    }
}

/// What was set as the window is read back, row by row, and every other index
/// is a placeholder; the total and the epoch stay.
pub proof fn a_window_reads_back(b: BufferView, start: usize, rows: Seq<RowView>, i: int)
    requires
        start + rows.len() <= usize::MAX + 1,
    ensures
        b.resynced(start, rows).wf(),
        b.resynced(start, rows).row_at(i) == (if start <= i < start + rows.len() {
            Some(rows[i - start])
        } else {
            None
        }),
        b.resynced(start, rows).covers(start as int, start + rows.len()),
        b.resynced(start, rows).total == b.total,
        b.resynced(start, rows).epoch == b.epoch,
{
    lemma_indexed(rows, start);
}

/// Where the keys of a window differ, each names its row.
pub proof fn keys_name_their_rows(b: BufferView, start: usize, rows: Seq<RowView>, i: int)
    requires
        start + rows.len() <= usize::MAX + 1,
        forall|a: int, c: int|
            0 <= a < c < rows.len() ==> (#[trigger] rows[a]).key != (#[trigger] rows[c]).key,
        0 <= i < rows.len(),
    ensures
        b.resynced(start, rows).by_key.contains_key(rows[i].key),
        b.resynced(start, rows).by_key[rows[i].key] == start + i,
    decreases rows.len(),
{
    if i < rows.len() - 1 {
        keys_name_their_rows(b, start, rows.drop_last(), i);
        assert(rows[i].key != rows[rows.len() - 1].key);
    }
}

/// An upsert of a row at hand is read back in that row's place, and no other
/// place changes; one of another row changes nothing.
pub proof fn an_upsert_reads_back(b: BufferView, row: RowView, i: int)
    requires
        b.wf(),
    ensures
        b.upserted(row).wf(),
        b.by_key.contains_key(row.key) ==> b.upserted(row).row_at(b.by_key[row.key] as int)
            == Some(row),
        !(b.by_key.contains_key(row.key) && i == b.by_key[row.key]) ==> b.upserted(row).row_at(i)
            == b.row_at(i),
        !b.by_key.contains_key(row.key) ==> b.upserted(row) == b,
        b.upserted(row).key_at(i) == b.key_at(i),
{
}

/// A removal turns the row's place into a placeholder, and no other place
/// changes; removing it again changes nothing, nor does upserting it.
pub proof fn a_removal_leaves_a_placeholder(b: BufferView, row: RowView, i: int)
    requires
        b.wf(),
    ensures
        b.removed(row.key).wf(),
        b.by_key.contains_key(row.key) ==> b.removed(row.key).row_at(b.by_key[row.key] as int)
            is None,
        !(b.by_key.contains_key(row.key) && i == b.by_key[row.key]) ==> b.removed(row.key).row_at(
            i,
        ) == b.row_at(i),
        b.removed(row.key).removed(row.key) == b.removed(row.key),
        b.removed(row.key).upserted(row) == b.removed(row.key),
{
    assert(b.removed(row.key).wf()) by {
        assert forall|k: Seq<char>| #[trigger]
            b.removed(row.key).by_key.contains_key(k) implies b.removed(row.key).slots[b.removed(
            row.key,
        ).by_key[k] - b.start] == b.slots[b.by_key[k] - b.start] by {
            assert(b.by_key.contains_key(k));
        }
    }
}

/// Dropping the rows leaves placeholders everywhere, and the total and the epoch
/// as they were.
pub proof fn dropped_rows_are_placeholders(b: BufferView, i: int)
    ensures
        b.without_rows().wf(),
        b.without_rows().row_at(i) is None,
        b.without_rows().total == b.total,
        b.without_rows().epoch == b.epoch,
{
}

} // verus!
