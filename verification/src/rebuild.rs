use crate::key::Key;
use crate::layout::{lemma_rebuilt, rebuilt, vacant};
use crate::search::find_vacant;
use crate::slot::{contents, count, lemma_without_prefix_step, unique_keys, Slot, State};
use vstd::pervasive::VecAdditionalExecFns;
use vstd::prelude::*;

verus! {

/// A backing array of `capacity` slots, all `Empty`.
pub fn vacant_slots<K, V>(capacity: usize) -> (slots: Vec<Slot<K, V>>)
    ensures
        slots@ == vacant::<K, V>(capacity as int),
{
    let mut slots: Vec<Slot<K, V>> = Vec::with_capacity(capacity);
    let mut made: usize = 0;
    while made < capacity
        invariant
            made <= capacity,
            slots.len() == made,
            forall|i: int| 0 <= i < made ==> slots[i] is Empty,
        decreases capacity - made,
    {
        slots.push(Slot::Empty);
        made += 1;
    }
    proof {
        assert(slots@ =~= vacant::<K, V>(capacity as int));
    }
    slots
}

/// Moves every entry of `from` into a new backing array of `capacity` slots.
/// Each entry is stored where an insertion into the new array would store
/// it, the entry of the last slot first; tombstones are left behind. The new
/// array is complete before the old one is given up.
pub fn rehash<K: Key, V>(from: Vec<Slot<K, V>>, capacity: usize) -> (to: Vec<Slot<K, V>>)
    requires
        unique_keys(from@),
        count(from@, State::Occupied) <= capacity,
    ensures
        to@ == rebuilt(from@, 0, capacity as int),
{
    let ghost origin = from@;
    let mut from = from;
    let mut to: Vec<Slot<K, V>> = vacant_slots(capacity);
    while from.len() > 0
        invariant
            from.len() <= origin.len(),
            from@ == origin.subrange(0, from.len() as int),
            unique_keys(origin),
            count(origin, State::Occupied) <= capacity,
            to@ == rebuilt(origin, from.len() as int, capacity as int),
        decreases from.len(),
    {
        let ghost rest = from.len() - 1;
        let slot = from.pop().unwrap();
        proof {
            assert(slot == origin[rest]);
            lemma_rebuilt(origin, rest + 1, capacity as int);
            lemma_without_prefix_step(origin, rest);
        }
        match slot {
            Slot::Occupied { key, value } => {
                proof {
                    assert(!contents(to@).contains_key(key.id()));
                }
                let at = find_vacant(&to, &key);
                to.set(at, Slot::Occupied { key, value });
            },
            _ => {},
        }
    }
    to
}

} // verus!
