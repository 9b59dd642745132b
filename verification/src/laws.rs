use crate::error::Error;
use crate::key::Key;
use crate::model::{additions, collect, reads, removals, replay, taken, Op};
use vstd::prelude::*;

verus! {

/// Reading gives the last write: after any changes, a key that was stored
/// and not touched since reads back the value stored then.
pub proof fn lemma_read_gives_last_write<K, V: Clone>(
    start: Map<K, V>,
    ops: Seq<Op<K, V>>,
    i: int,
    found: Option<V>,
)
    requires
        0 <= i < ops.len(),
        ops[i] is Insert,
        forall|j: int| i < j < ops.len() ==> ops[j].key() != ops[i].key(),
        reads(replay(start, ops), ops[i].key(), found),
    ensures
        found matches Some(value) && cloned(ops[i]->value, value),
{
    lemma_last_write_stays(start, ops, i);
}

/// After any changes, a key that was stored and not touched since has the
/// value stored then.
pub proof fn lemma_last_write_stays<K, V>(start: Map<K, V>, ops: Seq<Op<K, V>>, i: int)
    requires
        0 <= i < ops.len(),
        ops[i] is Insert,
        forall|j: int| i < j < ops.len() ==> ops[j].key() != ops[i].key(),
    ensures
        replay(start, ops).contains_key(ops[i].key()),
        replay(start, ops)[ops[i].key()] == ops[i]->value,
    decreases ops.len(),
{
    if i < ops.len() - 1 {
        lemma_last_write_stays(start, ops.drop_last(), i);
    }
}

/// Of the entries of a list, the last one with a given key is in the map
/// that the list describes.
pub proof fn lemma_collect_keeps_last<K: Key, V>(entries: Seq<(K, V)>, i: int)
    requires
        0 <= i < entries.len(),
        forall|j: int| i < j < entries.len() ==> entries[j].0.id() != entries[i].0.id(),
    ensures
        collect(entries).contains_pair(entries[i].0.id(), entries[i].1),
    decreases entries.len(),
{
    if i < entries.len() - 1 {
        lemma_collect_keeps_last(entries.drop_last(), i);
    }
}

/// The map that a list of entries describes has the keys of the list and
/// no others.
pub proof fn lemma_collect_keys<K: Key, V>(entries: Seq<(K, V)>)
    ensures
        collect(entries).dom().finite(),
        collect(entries).len() <= entries.len(),
        forall|id: K::Id|
            collect(entries).contains_key(id) <==> exists|i: int|
                0 <= i < entries.len() && #[trigger] entries[i].0.id() == id,
    decreases entries.len(),
{
    if entries.len() > 0 {
        let front = entries.drop_last();
        lemma_collect_keys(front);
        assert forall|id: K::Id| collect(entries).contains_key(id) implies exists|i: int|
            0 <= i < entries.len() && #[trigger] entries[i].0.id() == id by {
            if id == entries.last().0.id() {
                assert(entries[entries.len() - 1].0.id() == id);
            } else {
                let i = choose|i: int| 0 <= i < front.len() && #[trigger] front[i].0.id() == id;
                assert(entries[i].0.id() == id);
            }
        }
        assert forall|id: K::Id|
            (exists|i: int|
                0 <= i < entries.len() && #[trigger] entries[i].0.id() == id) implies collect(
            entries,
        ).contains_key(id) by {
            let i = choose|i: int| 0 <= i < entries.len() && #[trigger] entries[i].0.id() == id;
            if i < entries.len() - 1 {
                assert(front[i].0.id() == id);
            }
        }
    }
}

/// Storing a key a second time does not change the number of entries.
pub proof fn lemma_second_insert_keeps_size<K, V>(entries: Map<K, V>, key: K, first: V, second: V)
    requires
        entries.dom().finite(),
    ensures
        entries.insert(key, first).insert(key, second).len() == entries.insert(key, first).len(),
        entries.insert(key, first).insert(key, second).dom() == entries.insert(key, first).dom(),
{
    assert(entries.insert(key, first).insert(key, second).dom() =~= entries.insert(
        key,
        first,
    ).dom());
}

/// The number of entries is the number there was, plus the keys that were
/// added, minus the keys that were taken out.
pub proof fn lemma_size_counts_changes<K, V>(start: Map<K, V>, ops: Seq<Op<K, V>>)
    requires
        start.dom().finite(),
    ensures
        replay(start, ops).dom().finite(),
        replay(start, ops).len() + removals(start, ops) == start.len() + additions(start, ops),
    decreases ops.len(),
{
    if ops.len() > 0 {
        lemma_size_counts_changes(start, ops.drop_last());
    }
}

/// A key that was taken out is not there any more, and taking it out again
/// reports that.
pub proof fn lemma_removed_key_is_absent<K, V>(entries: Map<K, V>, key: K)
    requires
        taken(entries, key) is Ok,
    ensures
        !entries.remove(key).contains_key(key),
        taken(entries.remove(key), key) == Err::<V, Error>(Error::KeyNotFound),
{
}

/// Taking one key out leaves every other key as it was: it reads as
/// before, and taking it out gives what it would have given.
pub proof fn lemma_remove_keeps_other_keys<K, V>(entries: Map<K, V>, gone: K, other: K)
    requires
        other != gone,
    ensures
        entries.remove(gone).contains_key(other) == entries.contains_key(other),
        entries.remove(gone).get(other) == entries.get(other),
        taken(entries.remove(gone), other) == taken(entries, other),
{
}

} // verus!
