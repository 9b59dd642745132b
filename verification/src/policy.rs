use crate::key::Key;
use crate::slot::{count, well_formed, Slot, State};
use vstd::prelude::*;

verus! {

/// The number of slots of a table that is made without a capacity.
pub const DEFAULT_CAPACITY: usize = 16;

/// The load limit: a table of `capacity` slots is too full when `used` of
/// them are taken and `used / capacity` is over 7/10.
pub open spec fn over_load(used: int, capacity: int) -> bool {
    used * 10 > capacity * 7
}

/// The number of taken slots: those with an entry and those with a
/// tombstone.
pub open spec fn used<K, V>(slots: Seq<Slot<K, V>>) -> nat {
    count(slots, State::Occupied) + count(slots, State::Deleted)
}

/// One entry more would take the backing array over its load limit.
pub open spec fn crowded<K, V>(slots: Seq<Slot<K, V>>) -> bool {
    over_load(used(slots) as int + 1, slots.len() as int)
}

/// What holds of the backing array of every table: it is no longer than an
/// array can be, no key is stored twice, the search for a stored key reaches
/// it, and the taken slots are within the load limit.
pub open spec fn sound<K: Key, V>(slots: Seq<Slot<K, V>>) -> bool {
    &&& slots.len() <= usize::MAX
    &&& well_formed(slots)
    &&& !over_load(used(slots) as int, slots.len() as int)
}

/// The capacity at which a table of `capacity` slots and `live` entries is
/// rebuilt to take one entry more: twice the capacity where the entries alone
/// would fill it too far, else the same capacity, which clears the
/// tombstones.
pub open spec fn grown_capacity(live: int, capacity: int) -> int {
    if capacity == 0 {
        DEFAULT_CAPACITY as int
    } else if over_load(live + 1, capacity) {
        2 * capacity
    } else {
        capacity
    }
}

/// The capacity of a table built from `entries` entries: two slots for each
/// entry, and [`DEFAULT_CAPACITY`] at least.
pub open spec fn capacity_for(entries: int) -> int {
    if 2 * entries < DEFAULT_CAPACITY {
        DEFAULT_CAPACITY as int
    } else {
        2 * entries
    }
}

/// Tells whether one slot more than the `used` taken ones is too many for
/// `capacity` slots.
pub fn crowds(used: usize, capacity: usize) -> (over: bool)
    ensures
        over == over_load(used + 1, capacity as int),
{
    (used as u128 + 1) * 10 > (capacity as u128) * 7
}

/// The capacity to rebuild at, where it fits the machine.
pub fn next_capacity(live: usize, capacity: usize) -> (next: Option<usize>)
    ensures
        next == if grown_capacity(live as int, capacity as int) <= usize::MAX {
            Some(grown_capacity(live as int, capacity as int) as usize)
        } else {
            None
        },
{
    if capacity == 0 {
        Some(DEFAULT_CAPACITY)
    } else if crowds(live, capacity) {
        if capacity > usize::MAX / 2 {
            None
        } else {
            Some(2 * capacity)
        }
    } else {
        Some(capacity)
    }
}

} // verus!
