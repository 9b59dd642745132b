use crate::key::{get_initial_index, Key};
use crate::layout::{lemma_vacancy, lookup, seek, vacancy, walk};
use crate::probe::{next_index, probe_at};
use crate::slot::{count, home, Slot, State};
use vstd::prelude::*;

verus! {

/// Walks the probe sequence of `key` and returns the index of the slot that
/// holds it. The walk ends without a result at the first `Empty` slot, or
/// when every slot has been visited.
pub fn find<K: Key, V>(slots: &Vec<Slot<K, V>>, key: &K) -> (found: Option<usize>)
    ensures
        match found {
            Some(index) => lookup(slots@, key.id()) == Some(index as int),
            None => lookup(slots@, key.id()) is None,
        },
{
    let capacity = slots.len();
    if capacity == 0 {
        return None;
    }
    let start = get_initial_index(key, capacity);
    let mut index = start;
    let mut step: usize = 0;
    while step < capacity
        invariant
            capacity == slots.len(),
            start == home::<K>(key.id(), capacity as int),
            start < capacity,
            step <= capacity,
            index < capacity,
            index == probe_at(start as int, step as int, capacity as int),
            walk(slots@, key.id(), start as int, step as int) == lookup(slots@, key.id()),
        decreases capacity - step,
    {
        match &slots[index] {
            Slot::Empty => {
                return None;
            },
            Slot::Occupied { key: stored, .. } => {
                if stored.same(key) {
                    return Some(index);
                }
            },
            Slot::Deleted => {},
        }
        index = next_index(index, capacity);
        step += 1;
    }
    None
}

/// Walks the probe sequence of `key` to the first slot that holds no entry.
pub fn find_vacant<K: Key, V>(slots: &Vec<Slot<K, V>>, key: &K) -> (index: usize)
    requires
        count(slots@, State::Occupied) < slots.len(),
    ensures
        index == vacancy(slots@, key.id()),
        index < slots.len(),
{
    let capacity = slots.len();
    let start = get_initial_index(key, capacity);
    let mut index = start;
    let mut step: usize = 0;
    proof {
        lemma_vacancy(slots@, key.id());
    }
    while step < capacity
        invariant
            capacity == slots.len(),
            start == home::<K>(key.id(), capacity as int),
            start < capacity,
            step <= capacity,
            index < capacity,
            index == probe_at(start as int, step as int, capacity as int),
            seek(slots@, start as int, step as int) == vacancy(slots@, key.id()),
        decreases capacity - step,
    {
        match &slots[index] {
            Slot::Occupied { .. } => {},
            _ => {
                return index;
            },
        }
        index = next_index(index, capacity);
        step += 1;
    }
    start
}

} // verus!
