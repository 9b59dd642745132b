use crate::error::Error;
use crate::key::Key;
use vstd::prelude::*;

verus! {

/// The map that a list of entries describes: each entry is stored in turn,
/// so of two entries with one key the later one stays.
pub open spec fn collect<K: Key, V>(entries: Seq<(K, V)>) -> Map<K::Id, V>
    decreases entries.len(),
{
    if entries.len() == 0 {
        Map::empty()
    } else {
        collect(entries.drop_last()).insert(entries.last().0.id(), entries.last().1)
    }
}

/// Tells whether `found` is what reading `key` from `entries` may give: a
/// copy of its value where it has one, nothing where it has none.
pub open spec fn reads<K, V: Clone>(entries: Map<K, V>, key: K, found: Option<V>) -> bool {
    match found {
        Some(value) => entries.contains_key(key) && cloned(entries[key], value),
        None => !entries.contains_key(key),
    }
}

/// What taking `key` out of `entries` gives: its value, or the report that
/// it has none.
pub open spec fn taken<K, V>(entries: Map<K, V>, key: K) -> Result<V, Error> {
    if entries.contains_key(key) {
        Ok(entries[key])
    } else {
        Err(Error::KeyNotFound)
    }
}

/// One change to a table.
pub enum Op<K, V> {
    Insert { key: K, value: V },
    Remove { key: K },
}

impl<K, V> Op<K, V> {
    /// The key that the change is about.
    pub open spec fn key(self) -> K {
        match self {
            Op::Insert { key, .. } => key,
            Op::Remove { key } => key,
        }
    }
}

/// The entries after one change.
pub open spec fn apply<K, V>(entries: Map<K, V>, op: Op<K, V>) -> Map<K, V> {
    match op {
        Op::Insert { key, value } => entries.insert(key, value),
        Op::Remove { key } => entries.remove(key),
    }
}

/// The entries after the changes `ops`, made in turn on `start`.
pub open spec fn replay<K, V>(start: Map<K, V>, ops: Seq<Op<K, V>>) -> Map<K, V>
    decreases ops.len(),
{
    if ops.len() == 0 {
        start
    } else {
        apply(replay(start, ops.drop_last()), ops.last())
    }
}

/// How many of the changes `ops` store a key that is not there at that
/// moment.
pub open spec fn additions<K, V>(start: Map<K, V>, ops: Seq<Op<K, V>>) -> nat
    decreases ops.len(),
{
    if ops.len() == 0 {
        0
    } else {
        let before = replay(start, ops.drop_last());
        additions(start, ops.drop_last()) + if ops.last() is Insert && !before.contains_key(
            ops.last().key(),
        ) {
            1nat
        } else {
            0nat
        }
    }
}

/// How many of the changes `ops` take out a key that is there at that
/// moment.
pub open spec fn removals<K, V>(start: Map<K, V>, ops: Seq<Op<K, V>>) -> nat
    decreases ops.len(),
{
    if ops.len() == 0 {
        0
    } else {
        let before = replay(start, ops.drop_last());
        removals(start, ops.drop_last()) + if ops.last() is Remove && before.contains_key(
            ops.last().key(),
        ) {
            1nat
        } else {
            0nat
        }
    }
}

} // verus!
