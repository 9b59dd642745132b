use vstd::prelude::*;

verus! {

/// The index visited at step `step` of the probe sequence that starts at
/// `start`: one slot further at each step, back to index 0 after the last
/// slot.
pub open spec fn probe_at(start: int, step: int, capacity: int) -> int {
    if start + step < capacity {
        start + step
    } else {
        start + step - capacity
    }
}

/// The step at which the probe sequence from `start` visits `index`.
pub open spec fn steps_to(start: int, index: int, capacity: int) -> int {
    if start <= index {
        index - start
    } else {
        index - start + capacity
    }
}

/// The probe sequence is the start plus the step, modulo the capacity.
pub proof fn lemma_probe_is_modular(start: int, step: int, capacity: int)
    requires
        0 <= start < capacity,
        0 <= step < capacity,
    ensures
        probe_at(start, step, capacity) == (start + step) % capacity,
{
    if start + step < capacity {
        vstd::arithmetic::div_mod::lemma_small_mod((start + step) as nat, capacity as nat);
    } else {
        vstd::arithmetic::div_mod::lemma_small_mod(
            (start + step - capacity) as nat,
            capacity as nat,
        );
        vstd::arithmetic::div_mod::lemma_mod_sub_multiples_vanish(start + step, capacity);
    }
}

/// The probe sequence visits every index once in `capacity` steps:
/// `steps_to` is its inverse.
pub proof fn lemma_probe_visits_all(start: int, capacity: int)
    requires
        0 <= start < capacity,
    ensures
        forall|step: int|
            0 <= step < capacity ==> {
                &&& 0 <= #[trigger] probe_at(start, step, capacity) < capacity
                &&& steps_to(start, probe_at(start, step, capacity), capacity) == step
            },
        forall|index: int|
            0 <= index < capacity ==> {
                &&& 0 <= #[trigger] steps_to(start, index, capacity) < capacity
                &&& probe_at(start, steps_to(start, index, capacity), capacity) == index
            },
{
}

/// The index that follows `index` in a probe sequence.
pub fn next_index(index: usize, capacity: usize) -> (next: usize)
    requires
        index < capacity,
    ensures
        next == probe_at(index as int, 1, capacity as int),
        next < capacity,
{
    if index + 1 == capacity {
        0
    } else {
        index + 1
    }
}

} // verus!
