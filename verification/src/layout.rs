use crate::key::Key;
use crate::model::collect;
use crate::policy::{crowded, grown_capacity, sound};
use crate::probe::{lemma_probe_visits_all, probe_at, steps_to};
use crate::slot::{
    contents, count, count_upto, holds, home, lemma_contents_at, lemma_contents_vacant,
    lemma_count_none, lemma_count_total, lemma_count_update, lemma_put_chains, lemma_put_contents,
    lemma_tombstone, lemma_without_prefix_step, path_filled, unique_keys, well_formed,
    without_prefix, Slot, State,
};
use vstd::prelude::*;

verus! {

/// The index of the slot that holds the key with identity `id`, if one does.
pub open spec fn position<K: Key, V>(slots: Seq<Slot<K, V>>, id: K::Id) -> Option<int> {
    if exists|i: int| holds(slots, i, id) {
        Some(choose|i: int| holds(slots, i, id))
    } else {
        None
    }
}

/// What the search for `id` finds from step `step` on. It walks the probe
/// sequence that starts at `start`, and ends at the slot that holds the key,
/// at the first `Empty` slot, or when every slot has been visited.
pub open spec fn walk<K: Key, V>(slots: Seq<Slot<K, V>>, id: K::Id, start: int, step: int) -> Option<
    int,
>
    decreases slots.len() - step,
{
    if step >= slots.len() {
        None
    } else {
        let at = probe_at(start, step, slots.len() as int);
        match slots[at] {
            Slot::Empty => None,
            Slot::Deleted => walk(slots, id, start, step + 1),
            Slot::Occupied { key, .. } => if key.id() == id {
                Some(at)
            } else {
                walk(slots, id, start, step + 1)
            },
        }
    }
}

/// What the search for `id` finds: the walk from the index that the hash
/// gives.
pub open spec fn lookup<K: Key, V>(slots: Seq<Slot<K, V>>, id: K::Id) -> Option<int> {
    walk(slots, id, home::<K>(id, slots.len() as int), 0)
}

/// A backing array of `capacity` slots, all `Empty`.
pub open spec fn vacant<K, V>(capacity: int) -> Seq<Slot<K, V>> {
    Seq::new(capacity as nat, |i: int| Slot::Empty)
}

/// The first index from step `step` on, in the probe sequence that starts at
/// `start`, whose slot holds no entry. Where every slot from there on holds
/// one, the result is `start`.
pub open spec fn seek<K, V>(slots: Seq<Slot<K, V>>, start: int, step: int) -> int
    decreases slots.len() - step,
{
    if step >= slots.len() {
        start
    } else if !(slots[probe_at(start, step, slots.len() as int)] is Occupied) {
        probe_at(start, step, slots.len() as int)
    } else {
        seek(slots, start, step + 1)
    }
}

/// The slot in which a new entry with identity `id` is stored: the first one
/// without an entry that the search for `id` visits.
pub open spec fn vacancy<K: Key, V>(slots: Seq<Slot<K, V>>, id: K::Id) -> int {
    seek(slots, home::<K>(id, slots.len() as int), 0)
}

/// The backing array after `key` is stored with `value` in it: in the slot
/// that holds the key, else in the first one without an entry that the
/// search for the key visits.
pub open spec fn put<K: Key, V>(slots: Seq<Slot<K, V>>, key: K, value: V) -> Seq<Slot<K, V>> {
    match position(slots, key.id()) {
        Some(index) => slots.update(index, Slot::Occupied { key, value }),
        None => slots.update(vacancy(slots, key.id()), Slot::Occupied { key, value }),
    }
}

/// The backing array after the key with identity `id` is taken out: its slot
/// is a tombstone.
pub open spec fn erased<K: Key, V>(slots: Seq<Slot<K, V>>, id: K::Id) -> Seq<Slot<K, V>> {
    match position(slots, id) {
        Some(index) => slots.update(index, Slot::Deleted),
        None => slots,
    }
}

/// The backing array of `capacity` slots that is built from the entries of
/// the slots from `from` on: the entries are stored one by one, the one of
/// the last slot first.
pub open spec fn rebuilt<K: Key, V>(slots: Seq<Slot<K, V>>, from: int, capacity: int) -> Seq<
    Slot<K, V>,
>
    decreases slots.len() - from,
{
    if from >= slots.len() {
        vacant(capacity)
    } else {
        let rest = rebuilt(slots, from + 1, capacity);
        match slots[from] {
            Slot::Occupied { key, value } => put(rest, key, value),
            _ => rest,
        }
    }
}

/// The backing array of a table after `key` is stored with `value`: where
/// the key is new and the array is crowded, the entry goes into the array
/// rebuilt at the grown capacity.
pub open spec fn inserted<K: Key, V>(slots: Seq<Slot<K, V>>, key: K, value: V) -> Seq<
    Slot<K, V>,
> {
    if position(slots, key.id()) is None && crowded(slots) {
        put(
            rebuilt(
                slots,
                0,
                grown_capacity(count(slots, State::Occupied) as int, slots.len() as int),
            ),
            key,
            value,
        )
    } else {
        put(slots, key, value)
    }
}

/// The backing array of `capacity` slots in which the entries of a list
/// were stored in turn.
pub open spec fn filled<K: Key, V>(entries: Seq<(K, V)>, capacity: int) -> Seq<Slot<K, V>>
    decreases entries.len(),
{
    if entries.len() == 0 {
        vacant(capacity)
    } else {
        put(filled(entries.drop_last(), capacity), entries.last().0, entries.last().1)
    }
}

/// The slot that holds a key is its position.
pub proof fn lemma_position<K: Key, V>(slots: Seq<Slot<K, V>>, index: int, id: K::Id)
    requires
        unique_keys(slots),
        holds(slots, index, id),
    ensures
        position(slots, id) == Some(index),
{
    let chosen = choose|i: int| holds(slots, i, id);
    assert(holds(slots, chosen, id));
}

/// The search for a key starts inside the array.
pub proof fn lemma_home_in_range<K: Key>(id: K::Id, capacity: int)
    requires
        0 < capacity,
    ensures
        0 <= home::<K>(id, capacity) < capacity,
{
    vstd::arithmetic::div_mod::lemma_mod_bound(K::hash_of(id) as int, capacity);
}

/// A walk that has passed neither the key nor an `Empty` slot finds the key
/// if it is stored.
pub proof fn lemma_walk<K: Key, V>(slots: Seq<Slot<K, V>>, id: K::Id, step: int)
    requires
        well_formed(slots),
        0 <= step <= slots.len(),
        path_filled(slots, id, step),
        forall|t: int|
            0 <= t < step ==> !holds(
                slots,
                #[trigger] probe_at(home::<K>(id, slots.len() as int), t, slots.len() as int),
                id,
            ),
    ensures
        walk(slots, id, home::<K>(id, slots.len() as int), step) == position(slots, id),
    decreases slots.len() - step,
{
    let capacity = slots.len() as int;
    let start = home::<K>(id, capacity);
    if capacity > 0 {
        lemma_home_in_range::<K>(id, capacity);
        lemma_probe_visits_all(start, capacity);
    }
    if step >= capacity {
        assert forall|i: int| !holds(slots, i, id) by {
            if holds(slots, i, id) {
                let at = steps_to(start, i, capacity);
                assert(probe_at(start, at, capacity) == i);
            }
        }
    } else {
        let here = probe_at(start, step, capacity);
        match slots[here] {
            Slot::Empty => {
                assert forall|i: int| !holds(slots, i, id) by {
                    if holds(slots, i, id) {
                        let at = steps_to(start, i, capacity);
                        assert(probe_at(start, at, capacity) == i);
                        assert(path_filled(slots, id, at));
                    }
                }
            },
            Slot::Deleted => {
                lemma_walk(slots, id, step + 1);
            },
            Slot::Occupied { key, .. } => {
                if key.id() == id {
                    lemma_position(slots, here, id);
                } else {
                    lemma_walk(slots, id, step + 1);
                }
            },
        }
    }
}

/// No false negatives: in a well-formed array the search finds every key
/// that is stored, wherever its walk wraps around, and finds no other.
pub proof fn lemma_lookup_finds<K: Key, V>(slots: Seq<Slot<K, V>>, id: K::Id)
    requires
        well_formed(slots),
    ensures
        lookup(slots, id) == position(slots, id),
        lookup(slots, id) is Some <==> contents(slots).contains_key(id),
        lookup(slots, id) matches Some(index) ==> holds(slots, index, id) && contents(slots)[id]
            == slots[index]->value,
{
    lemma_walk(slots, id, 0);
    match position(slots, id) {
        Some(index) => {
            assert(holds(slots, index, id));
            lemma_contents_at(slots, index, id);
        },
        None => {},
    }
}

/// Where a slot without an entry lies ahead, `seek` gives the first one.
pub proof fn lemma_seek<K, V>(slots: Seq<Slot<K, V>>, start: int, step: int)
    requires
        0 <= start < slots.len(),
        0 <= step <= slots.len(),
        exists|t: int|
            step <= t < slots.len() && !(slots[#[trigger] probe_at(
                start,
                t,
                slots.len() as int,
            )] is Occupied),
    ensures
        0 <= seek(slots, start, step) < slots.len(),
        !(slots[seek(slots, start, step)] is Occupied),
        step <= steps_to(start, seek(slots, start, step), slots.len() as int),
        forall|t: int|
            step <= t < steps_to(start, seek(slots, start, step), slots.len() as int)
                ==> slots[#[trigger] probe_at(start, t, slots.len() as int)] is Occupied,
    decreases slots.len() - step,
{
    let capacity = slots.len() as int;
    let ahead = choose|t: int|
        step <= t < capacity && !(slots[#[trigger] probe_at(start, t, capacity)] is Occupied);
    if slots[probe_at(start, step, capacity)] is Occupied {
        assert(step + 1 <= ahead < capacity && !(slots[probe_at(start, ahead, capacity)]
            is Occupied));
        lemma_seek(slots, start, step + 1);
    }
}

/// In an array that is not full, a new key has a slot to go to, and the
/// search for the key reaches that slot.
pub proof fn lemma_vacancy<K: Key, V>(slots: Seq<Slot<K, V>>, id: K::Id)
    requires
        count(slots, State::Occupied) < slots.len(),
    ensures
        0 <= vacancy(slots, id) < slots.len(),
        !(slots[vacancy(slots, id)] is Occupied),
        path_filled(
            slots,
            id,
            steps_to(home::<K>(id, slots.len() as int), vacancy(slots, id), slots.len() as int),
        ),
{
    let capacity = slots.len() as int;
    let start = home::<K>(id, capacity);
    lemma_home_in_range::<K>(id, capacity);
    if forall|i: int| 0 <= i < capacity ==> slots[i] is Occupied {
        lemma_count_none(slots, capacity, State::Empty);
        lemma_count_none(slots, capacity, State::Deleted);
        lemma_count_total(slots, capacity);
    }
    let free = choose|i: int| 0 <= i < capacity && !(slots[i] is Occupied);
    assert(probe_at(start, steps_to(start, free, capacity), capacity) == free);
    lemma_seek(slots, start, 0);
}

/// Storing an entry puts it in the map and changes nothing else there; the
/// array stays well formed. A new key takes one slot more, which may have
/// held a tombstone.
pub proof fn lemma_put<K: Key, V>(slots: Seq<Slot<K, V>>, key: K, value: V)
    requires
        well_formed(slots),
        position(slots, key.id()) is Some || count(slots, State::Occupied) < slots.len(),
    ensures
        put(slots, key, value).len() == slots.len(),
        well_formed(put(slots, key, value)),
        contents(put(slots, key, value)) == contents(slots).insert(key.id(), value),
        count(put(slots, key, value), State::Occupied) == count(slots, State::Occupied) + if position(
            slots,
            key.id(),
        ) is None {
            1nat
        } else {
            0nat
        },
        count(put(slots, key, value), State::Deleted) <= count(slots, State::Deleted) <= count(
            put(slots, key, value),
            State::Deleted,
        ) + 1,
        position(slots, key.id()) is Some ==> count(put(slots, key, value), State::Deleted)
            == count(slots, State::Deleted),
{
    let capacity = slots.len() as int;
    let stored = Slot::Occupied { key, value };
    let at = match position(slots, key.id()) {
        Some(index) => index,
        None => vacancy(slots, key.id()),
    };
    if position(slots, key.id()) is Some {
        assert(holds(slots, at, key.id()));
    } else {
        lemma_vacancy(slots, key.id());
    }
    lemma_put_contents(slots, at, key, value);
    lemma_put_chains(slots, at, key, value);
    lemma_count_update(slots, at, stored, capacity, State::Occupied);
    lemma_count_update(slots, at, stored, capacity, State::Deleted);
}

/// Taking a key out takes it out of the map and changes nothing else
/// there; the array stays well formed, so the search for every other key
/// still reaches it. The slot of the key becomes a tombstone.
pub proof fn lemma_erased<K: Key, V>(slots: Seq<Slot<K, V>>, id: K::Id)
    requires
        well_formed(slots),
    ensures
        erased(slots, id).len() == slots.len(),
        well_formed(erased(slots, id)),
        contents(erased(slots, id)) == contents(slots).remove(id),
        position(slots, id) is Some ==> {
            &&& count(erased(slots, id), State::Occupied) + 1 == count(slots, State::Occupied)
            &&& count(erased(slots, id), State::Deleted) == count(slots, State::Deleted) + 1
        },
{
    match position(slots, id) {
        Some(index) => {
            assert(holds(slots, index, id));
            lemma_tombstone(slots, index, id);
            lemma_count_update(slots, index, Slot::Deleted, slots.len() as int, State::Occupied);
            lemma_count_update(slots, index, Slot::Deleted, slots.len() as int, State::Deleted);
        },
        None => {
            assert(contents(slots).remove(id) =~= contents(slots));
        },
    }
}

/// Rebuilding keeps the entries: the array that is built from the slots
/// from `from` on holds their entries and no others, has no tombstone, and
/// is well formed.
pub proof fn lemma_rebuilt<K: Key, V>(slots: Seq<Slot<K, V>>, from: int, capacity: int)
    requires
        unique_keys(slots),
        0 <= from <= slots.len(),
        0 <= capacity,
        count(slots, State::Occupied) - count_upto(slots, from, State::Occupied) <= capacity,
    ensures
        rebuilt(slots, from, capacity).len() == capacity,
        well_formed(rebuilt(slots, from, capacity)),
        contents(rebuilt(slots, from, capacity)) == contents(without_prefix(slots, from)),
        count(rebuilt(slots, from, capacity), State::Occupied) + count_upto(
            slots,
            from,
            State::Occupied,
        ) == count(slots, State::Occupied),
        count(rebuilt(slots, from, capacity), State::Deleted) == 0,
    decreases slots.len() - from,
{
    if from >= slots.len() {
        let none = vacant::<K, V>(capacity);
        lemma_contents_vacant(none);
        lemma_contents_vacant(without_prefix(slots, from));
        lemma_count_none(none, capacity, State::Occupied);
        lemma_count_none(none, capacity, State::Deleted);
    } else {
        let rest = rebuilt(slots, from + 1, capacity);
        lemma_rebuilt(slots, from + 1, capacity);
        lemma_without_prefix_step(slots, from);
        match slots[from] {
            Slot::Occupied { key, value } => {
                assert(position(rest, key.id()) is None);
                lemma_put(rest, key, value);
            },
            _ => {},
        }
    }
}

/// Growth keeps the contents: the array rebuilt from a whole array stands
/// for the same map, holds as many entries, and has no tombstone.
pub proof fn lemma_rebuilt_keeps_contents<K: Key, V>(slots: Seq<Slot<K, V>>, capacity: int)
    requires
        unique_keys(slots),
        count(slots, State::Occupied) <= capacity,
    ensures
        rebuilt(slots, 0, capacity).len() == capacity,
        well_formed(rebuilt(slots, 0, capacity)),
        contents(rebuilt(slots, 0, capacity)) == contents(slots),
        count(rebuilt(slots, 0, capacity), State::Occupied) == count(slots, State::Occupied),
        count(rebuilt(slots, 0, capacity), State::Deleted) == 0,
{
    lemma_rebuilt(slots, 0, capacity);
    assert(without_prefix(slots, 0) =~= slots);
}

/// Storing an entry in a table, with the rebuilding that it may take,
/// puts the entry in the map and changes nothing else there, and leaves a
/// sound array.
pub proof fn lemma_inserted<K: Key, V>(slots: Seq<Slot<K, V>>, key: K, value: V)
    requires
        sound(slots),
        position(slots, key.id()) is None && crowded(slots) ==> grown_capacity(
            count(slots, State::Occupied) as int,
            slots.len() as int,
        ) <= usize::MAX,
    ensures
        sound(inserted(slots, key, value)),
        contents(inserted(slots, key, value)) == contents(slots).insert(key.id(), value),
        count(inserted(slots, key, value), State::Occupied) == count(slots, State::Occupied)
            + if position(slots, key.id()) is None {
            1nat
        } else {
            0nat
        },
        inserted(slots, key, value).len() == if position(slots, key.id()) is None && crowded(
            slots,
        ) {
            grown_capacity(count(slots, State::Occupied) as int, slots.len() as int)
        } else {
            slots.len() as int
        },
        position(slots, key.id()) is None && crowded(slots) ==> count(
            inserted(slots, key, value),
            State::Deleted,
        ) == 0,
        !(position(slots, key.id()) is None && crowded(slots)) ==> count(
            inserted(slots, key, value),
            State::Deleted,
        ) <= count(slots, State::Deleted) <= count(inserted(slots, key, value), State::Deleted)
            + 1,
        position(slots, key.id()) is Some ==> count(inserted(slots, key, value), State::Deleted)
            == count(slots, State::Deleted),
{
    lemma_count_total(slots, slots.len() as int);
    if position(slots, key.id()) is None && crowded(slots) {
        let capacity = grown_capacity(count(slots, State::Occupied) as int, slots.len() as int);
        lemma_rebuilt_keeps_contents(slots, capacity);
        let rest = rebuilt(slots, 0, capacity);
        assert(!contents(slots).contains_key(key.id()));
        assert(!contents(rest).contains_key(key.id()));
        lemma_put(rest, key, value);
    } else {
        lemma_put(slots, key, value);
    }
}

/// An array that is large enough for a list of entries holds, after they
/// were stored in turn, the map that the list describes. It has no
/// tombstone and is sound.
pub proof fn lemma_filled<K: Key, V>(entries: Seq<(K, V)>, capacity: int)
    requires
        0 <= capacity <= usize::MAX,
        entries.len() * 10 <= capacity * 7,
    ensures
        filled(entries, capacity).len() == capacity,
        sound(filled(entries, capacity)),
        contents(filled(entries, capacity)) == collect(entries),
        count(filled(entries, capacity), State::Occupied) <= entries.len(),
        count(filled(entries, capacity), State::Deleted) == 0,
    decreases entries.len(),
{
    if entries.len() == 0 {
        let none = vacant::<K, V>(capacity);
        lemma_contents_vacant(none);
        lemma_count_none(none, capacity, State::Occupied);
        lemma_count_none(none, capacity, State::Deleted);
    } else {
        lemma_filled(entries.drop_last(), capacity);
        lemma_put(filled(entries.drop_last(), capacity), entries.last().0, entries.last().1);
    }
}

} // verus!
