//! What the buffer holds after a list of changes.

use vstd::prelude::*;

use crate::data::RowView;
use crate::window::{
    an_upsert_reads_back, removals_keep_the_window, upserts_keep_the_window, BufferView,
};

verus! {

/// Is `rows[i]` the last of the rows with its key?
pub open spec fn is_last_of_key(rows: Seq<RowView>, i: int) -> bool {
    &&& 0 <= i < rows.len()
    &&& forall|j: int| i < j < rows.len() ==> (#[trigger] rows[j]).key != rows[i].key
}

/// The index of the slot that holds the row at `index`.
pub open spec fn slot_at(b: BufferView, index: int) -> Option<RowView> {
    if 0 <= index - b.start < b.slots.len() {
        b.slots[index - b.start]
    } else {
        None
    }
}

/// Upserting a list of rows replaces every row at hand whose key is in the list, by
/// the last one in the list with that key, and no other row.
pub proof fn every_row_of_a_list_is_upserted(b: BufferView, rows: Seq<RowView>)
    requires
        b.wf(),
    ensures
        forall|i: int|
            #![trigger rows[i]]
            is_last_of_key(rows, i) && b.by_key.contains_key(rows[i].key) ==> slot_at(
                b.all_upserted(rows),
                b.by_key[rows[i].key] as int,
            ) == Some(rows[i]),
        forall|index: int|
            (forall|i: int|
                0 <= i < rows.len() && b.by_key.contains_key((#[trigger] rows[i]).key)
                    ==> b.by_key[rows[i].key] != index) ==> #[trigger] slot_at(
                b.all_upserted(rows),
                index,
            ) == slot_at(b, index),
    decreases rows.len(),
{
    if rows.len() > 0 {
        let rest = rows.drop_last();
        let last = rows.last();
        let mid = b.all_upserted(rest);
        let end = b.all_upserted(rows);
        every_row_of_a_list_is_upserted(b, rest);
        upserts_keep_the_window(b, rest);
        assert(end == mid.upserted(last));
        assert forall|i: int|
            #![trigger rows[i]]
            is_last_of_key(rows, i) && b.by_key.contains_key(rows[i].key) implies slot_at(
            end,
            b.by_key[rows[i].key] as int,
        ) == Some(rows[i]) by {
            let at = b.by_key[rows[i].key] as int;
            an_upsert_reads_back(mid, last, at);
            if i < rest.len() {
                assert(rest[i] == rows[i]);
                assert(is_last_of_key(rest, i)) by {
                    assert forall|j: int| i < j < rest.len() implies (#[trigger] rest[j]).key
                        != rest[i].key by {
                        assert(rest[j] == rows[j]);
                    }
                }
                assert(rows[rows.len() - 1].key != rows[i].key);
                if b.by_key.contains_key(last.key) {
                    assert(b.slots[b.by_key[last.key] - b.start].unwrap().key == last.key);
                    assert(b.slots[at - b.start].unwrap().key == rows[i].key);
                }
            }
        }
        assert forall|index: int|
            (forall|i: int|
                0 <= i < rows.len() && b.by_key.contains_key((#[trigger] rows[i]).key)
                    ==> b.by_key[rows[i].key] != index) implies #[trigger] slot_at(end, index)
            == slot_at(b, index) by {
            an_upsert_reads_back(mid, last, index);
            assert(rows[rows.len() - 1] == last);
            assert forall|i: int|
                0 <= i < rest.len() && b.by_key.contains_key(
                    (#[trigger] rest[i]).key,
                ) implies b.by_key[rest[i].key] != index by {
                assert(rows[i] == rest[i]);
            }
            assert(slot_at(mid, index) == slot_at(b, index));
        }
    }
}

/// Upserting an empty list, or one of which no row is at hand, changes nothing.
pub proof fn strange_rows_are_not_upserted(b: BufferView, rows: Seq<RowView>)
    requires
        b.wf(),
        forall|i: int| 0 <= i < rows.len() ==> !b.by_key.contains_key((#[trigger] rows[i]).key),
    ensures
        b.all_upserted(rows) == b,
    decreases rows.len(),
{
    if rows.len() > 0 {
        let rest = rows.drop_last();
        assert forall|i: int| 0 <= i < rest.len() implies !b.by_key.contains_key(
            (#[trigger] rest[i]).key,
        ) by {
            assert(rows[i] == rest[i]);
        }
        strange_rows_are_not_upserted(b, rest);
        assert(rows[rows.len() - 1] == rows.last());
    }
}

/// Removing a list of keys turns the row of every one of them that is at hand into
/// a placeholder, which can no longer be upserted, and no other row.
pub proof fn every_key_of_a_list_is_removed(b: BufferView, keys: Seq<Seq<char>>)
    requires
        b.wf(),
    ensures
        forall|k: Seq<char>| #[trigger]
            b.all_removed(keys).by_key.contains_key(k) <==> b.by_key.contains_key(k)
                && !keys.contains(k),
        forall|k: Seq<char>| #[trigger]
            b.all_removed(keys).by_key.contains_key(k) ==> b.all_removed(keys).by_key[k]
                == b.by_key[k],
        forall|k: Seq<char>|
            #![trigger b.by_key.contains_key(k)]
            b.by_key.contains_key(k) && keys.contains(k) ==> slot_at(
                b.all_removed(keys),
                b.by_key[k] as int,
            ) is None,
        forall|index: int|
            (forall|k: Seq<char>|
                #![trigger b.by_key.contains_key(k)]
                b.by_key.contains_key(k) && keys.contains(k) ==> b.by_key[k] != index)
                ==> #[trigger] slot_at(b.all_removed(keys), index) == slot_at(b, index),
    decreases keys.len(),
{
    if keys.len() > 0 {
        let rest = keys.drop_last();
        let last = keys.last();
        let mid = b.all_removed(rest);
        let end = b.all_removed(keys);
        every_key_of_a_list_is_removed(b, rest);
        removals_keep_the_window(b, rest);
        assert(end == mid.removed(last));
        assert forall|k: Seq<char>| #[trigger] keys.contains(k) == (rest.contains(k) || k
            == last) by {
            if rest.contains(k) {
                let i = choose|i: int| 0 <= i < rest.len() && rest[i] == k;
                assert(keys[i] == k);
            }
            if k == last {
                assert(keys[keys.len() - 1] == k);
            }
            if keys.contains(k) {
                let i = choose|i: int| 0 <= i < keys.len() && keys[i] == k;
                if i < rest.len() {
                    assert(rest[i] == k);
                }
            }
        }
        assert forall|k: Seq<char>|
            #![trigger b.by_key.contains_key(k)]
            b.by_key.contains_key(k) && keys.contains(k) implies slot_at(
            end,
            b.by_key[k] as int,
        ) is None by {
            if rest.contains(k) {
                assert(slot_at(mid, b.by_key[k] as int) is None);
            } else {
                assert(mid.by_key.contains_key(k));
            }
        }
        assert forall|index: int|
            (forall|k: Seq<char>|
                #![trigger b.by_key.contains_key(k)]
                b.by_key.contains_key(k) && keys.contains(k) ==> b.by_key[k]
                    != index) implies #[trigger] slot_at(end, index) == slot_at(b, index) by {
            assert forall|k: Seq<char>|
                #![trigger b.by_key.contains_key(k)]
                b.by_key.contains_key(k) && rest.contains(k) implies b.by_key[k] != index by {
                assert(keys.contains(k));
            }
            assert(slot_at(mid, index) == slot_at(b, index));
            if mid.by_key.contains_key(last) {
                assert(keys.contains(last));
                assert(b.by_key.contains_key(last));
            }
        }
    }
}

/// A row is read at its index, and its key with it; the rows of a range are at hand
/// exactly if each of them is.
pub proof fn rows_are_read_at_their_index(b: BufferView, index: int, lo: int, hi: int)
    ensures
        b.row_at(index) == slot_at(b, index),
        slot_at(b, index) is None ==> b.key_at(index) is None,
        slot_at(b, index) is Some ==> b.key_at(index) == Some(slot_at(b, index).unwrap().key),
        b.covers(lo, hi) <==> forall|i: int| lo <= i < hi ==> (#[trigger] slot_at(b, i)) is Some,
{
    if b.covers(lo, hi) {
        assert forall|i: int| lo <= i < hi implies (#[trigger] slot_at(b, i)) is Some by {
            assert(b.row_at(i) is Some);
        }
    }
    if forall|i: int| lo <= i < hi ==> (#[trigger] slot_at(b, i)) is Some {
        assert forall|i: int| lo <= i < hi implies (#[trigger] b.row_at(i)) is Some by {
            assert(slot_at(b, i) is Some);
        }
    }
}

/// A window that is set holds its rows one after the other from its start, and no
/// others; where two have one key, it names the later one.
pub proof fn a_window_holds_its_rows(b: BufferView, start: usize, rows: Seq<RowView>)
    requires
        start + rows.len() <= usize::MAX + 1,
    ensures
        b.resynced(start, rows).total == b.total,
        b.resynced(start, rows).epoch == b.epoch,
        forall|i: int|
            0 <= i < rows.len() ==> slot_at(b.resynced(start, rows), start + i) == Some(
                #[trigger] rows[i],
            ),
        forall|index: int|
            index < start || index >= start + rows.len() ==> (#[trigger] slot_at(
                b.resynced(start, rows),
                index,
            )) is None,
        forall|i: int|
            #![trigger rows[i]]
            is_last_of_key(rows, i) ==> b.resynced(start, rows).by_key.contains_key(rows[i].key)
                && b.resynced(start, rows).by_key[rows[i].key] == start + i,
    decreases rows.len(),
{
    if rows.len() > 0 {
        let rest = rows.drop_last();
        a_window_holds_its_rows(b, start, rest);
        assert forall|i: int|
            #![trigger rows[i]]
            is_last_of_key(rows, i) implies b.resynced(start, rows).by_key.contains_key(rows[i].key)
            && b.resynced(start, rows).by_key[rows[i].key] == start + i by {
            if i < rest.len() {
                assert(rest[i] == rows[i]);
                assert(rows[rows.len() - 1].key != rows[i].key);
                assert(is_last_of_key(rest, i)) by {
                    assert forall|j: int| i < j < rest.len() implies (#[trigger] rest[j]).key
                        != rest[i].key by {
                        assert(rest[j] == rows[j]);
                    }
                }
            }
        }
    }
}

} // verus!
