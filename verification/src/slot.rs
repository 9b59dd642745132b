use crate::key::{ideal_index, Key};
use crate::probe::{probe_at, steps_to};
use vstd::prelude::*;

verus! {

/// One place of the backing array.
pub enum Slot<K, V> {
    /// Nothing was stored here since the array was built.
    Empty,
    /// An entry was stored here and removed: a search walks on past it.
    Deleted,
    /// An entry.
    Occupied { key: K, value: V },
}

/// The three states of a slot, for counting.
pub enum State {
    /// Never taken.
    Empty,
    /// Holds a tombstone.
    Deleted,
    /// Holds an entry.
    Occupied,
}

impl<K, V> Slot<K, V> {
    /// The state of the slot.
    pub open spec fn state(self) -> State {
        match self {
            Slot::Empty => State::Empty,
            Slot::Deleted => State::Deleted,
            Slot::Occupied { .. } => State::Occupied,
        }
    }
}

/// Slot `index` holds an entry whose key has the identity `id`.
pub open spec fn holds<K: Key, V>(slots: Seq<Slot<K, V>>, index: int, id: K::Id) -> bool {
    &&& 0 <= index < slots.len()
    &&& slots[index] is Occupied
    &&& slots[index]->key.id() == id
}

/// No key is stored in two slots.
pub open spec fn unique_keys<K: Key, V>(slots: Seq<Slot<K, V>>) -> bool {
    forall|i: int, j: int, id: K::Id| #[trigger]
        holds(slots, i, id) && #[trigger] holds(slots, j, id) ==> i == j
}

/// The index at which the search for the key with identity `id` starts.
pub open spec fn home<K: Key>(id: K::Id, capacity: int) -> int {
    ideal_index(K::hash_of(id), capacity)
}

/// None of the first `steps` slots that the search for `id` visits is
/// `Empty`.
pub open spec fn path_filled<K: Key, V>(slots: Seq<Slot<K, V>>, id: K::Id, steps: int) -> bool {
    forall|t: int|
        0 <= t < steps ==> !(slots[#[trigger] probe_at(
            home::<K>(id, slots.len() as int),
            t,
            slots.len() as int,
        )] is Empty)
}

/// The search for a stored key reaches its slot before it meets an `Empty`
/// one.
pub open spec fn chains_intact<K: Key, V>(slots: Seq<Slot<K, V>>) -> bool {
    forall|i: int, id: K::Id| #[trigger]
        holds(slots, i, id) ==> path_filled(
            slots,
            id,
            steps_to(home::<K>(id, slots.len() as int), i, slots.len() as int),
        )
}

/// What the layout of a backing array must satisfy.
pub open spec fn well_formed<K: Key, V>(slots: Seq<Slot<K, V>>) -> bool {
    &&& unique_keys(slots)
    &&& chains_intact(slots)
}

/// The entries of a backing array, as a map from the identities of the keys
/// to the values.
pub open spec fn contents<K: Key, V>(slots: Seq<Slot<K, V>>) -> Map<K::Id, V> {
    Map::new(
        |id: K::Id| exists|i: int| holds(slots, i, id),
        |id: K::Id| slots[choose|i: int| holds(slots, i, id)]->value,
    )
}

/// How many of the first `n` slots are in state `state`.
pub open spec fn count_upto<K, V>(slots: Seq<Slot<K, V>>, n: int, state: State) -> nat
    decreases n,
{
    if n <= 0 {
        0
    } else {
        count_upto(slots, n - 1, state) + if slots[n - 1].state() == state {
            1nat
        } else {
            0nat
        }
    }
}

/// How many slots are in state `state`.
pub open spec fn count<K, V>(slots: Seq<Slot<K, V>>, state: State) -> nat {
    count_upto(slots, slots.len() as int, state)
}

/// The entry of a slot that holds a key is the map's entry for that key.
pub proof fn lemma_contents_at<K: Key, V>(slots: Seq<Slot<K, V>>, index: int, id: K::Id)
    requires
        unique_keys(slots),
        holds(slots, index, id),
    ensures
        contents(slots).contains_key(id),
        contents(slots)[id] == slots[index]->value,
{
    let chosen = choose|i: int| holds(slots, i, id);
    assert(holds(slots, chosen, id));
}

/// A key of the map is stored in some slot.
pub proof fn lemma_contents_witness<K: Key, V>(slots: Seq<Slot<K, V>>, id: K::Id) -> (index: int)
    requires
        contents(slots).contains_key(id),
    ensures
        holds(slots, index, id),
        contents(slots)[id] == slots[index]->value,
{
    choose|i: int| holds(slots, i, id)
}

/// The counts of the three states add up to the number of slots counted.
pub proof fn lemma_count_total<K, V>(slots: Seq<Slot<K, V>>, n: int)
    requires
        0 <= n <= slots.len(),
    ensures
        count_upto(slots, n, State::Empty) + count_upto(slots, n, State::Deleted) + count_upto(
            slots,
            n,
            State::Occupied,
        ) == n,
    decreases n,
{
    if n > 0 {
        lemma_count_total(slots, n - 1);
    }
}

/// Where no slot is in a state, its count is zero.
pub proof fn lemma_count_none<K, V>(slots: Seq<Slot<K, V>>, n: int, state: State)
    requires
        0 <= n <= slots.len(),
        forall|i: int| 0 <= i < n ==> slots[i].state() != state,
    ensures
        count_upto(slots, n, state) == 0,
    decreases n,
{
    if n > 0 {
        lemma_count_none(slots, n - 1, state);
    }
}

/// Replacing one slot moves one unit from the count of its old state to the
/// count of its new state.
pub proof fn lemma_count_update<K, V>(
    slots: Seq<Slot<K, V>>,
    index: int,
    slot: Slot<K, V>,
    n: int,
    state: State,
)
    requires
        0 <= index < slots.len(),
        0 <= n <= slots.len(),
    ensures
        count_upto(slots.update(index, slot), n, state) + (if index < n && slots[index].state()
            == state {
            1nat
        } else {
            0nat
        }) == count_upto(slots, n, state) + (if index < n && slot.state() == state {
            1nat
        } else {
            0nat
        }),
    decreases n,
{
    if n > 0 {
        lemma_count_update(slots, index, slot, n - 1, state);
    }
}

/// Storing an entry in a slot that is free, or that holds the same key, puts
/// the entry in the map and changes nothing else.
pub proof fn lemma_put_contents<K: Key, V>(slots: Seq<Slot<K, V>>, index: int, key: K, value: V)
    requires
        unique_keys(slots),
        0 <= index < slots.len(),
        forall|i: int| holds(slots, i, key.id()) ==> i == index,
        slots[index] is Occupied ==> holds(slots, index, key.id()),
    ensures
        unique_keys(slots.update(index, Slot::Occupied { key, value })),
        contents(slots.update(index, Slot::Occupied { key, value })) == contents(slots).insert(
            key.id(),
            value,
        ),
{
    let after = slots.update(index, Slot::Occupied { key, value });
    assert forall|i: int, id: K::Id| #[trigger] holds(after, i, id) implies (if i == index {
        id == key.id()
    } else {
        holds(slots, i, id)
    }) by {}
    assert(unique_keys(after));
    assert(holds(after, index, key.id()));
    lemma_contents_at(after, index, key.id());
    assert forall|id: K::Id| id != key.id() && #[trigger] contents(after).contains_key(
        id,
    ) implies contents(slots).contains_key(id) && contents(after)[id] == contents(slots)[id] by {
        let i = lemma_contents_witness(after, id);
        assert(holds(slots, i, id));
        lemma_contents_at(slots, i, id);
    }
    assert forall|id: K::Id| id != key.id() && #[trigger] contents(slots).contains_key(
        id,
    ) implies contents(after).contains_key(id) by {
        let i = lemma_contents_witness(slots, id);
        assert(holds(after, i, id));
    }
    assert(contents(after) =~= contents(slots).insert(key.id(), value));
}

/// Storing an entry in a slot that the search for its key reaches keeps every
/// search intact.
pub proof fn lemma_put_chains<K: Key, V>(slots: Seq<Slot<K, V>>, index: int, key: K, value: V)
    requires
        chains_intact(slots),
        0 <= index < slots.len(),
        slots[index] is Occupied ==> holds(slots, index, key.id()),
        path_filled(
            slots,
            key.id(),
            steps_to(home::<K>(key.id(), slots.len() as int), index, slots.len() as int),
        ),
    ensures
        chains_intact(slots.update(index, Slot::Occupied { key, value })),
{
    let after = slots.update(index, Slot::Occupied { key, value });
    let capacity = slots.len() as int;
    assert forall|i: int, id: K::Id| #[trigger] holds(after, i, id) implies path_filled(
        after,
        id,
        steps_to(home::<K>(id, capacity), i, capacity),
    ) by {
        if i != index {
            assert(holds(slots, i, id));
        }
        assert(path_filled(slots, id, steps_to(home::<K>(id, capacity), i, capacity)));
        assert forall|t: int|
            0 <= t < steps_to(home::<K>(id, capacity), i, capacity) implies !(after[#[trigger] probe_at(
                home::<K>(id, capacity),
                t,
                capacity,
            )] is Empty) by {
            let at = probe_at(home::<K>(id, capacity), t, capacity);
            if at != index {
                assert(after[at] == slots[at]);
            }
        }
    }
}

/// Turning the slot of a key into a tombstone takes the key out of the map
/// and changes nothing else.
pub proof fn lemma_tombstone<K: Key, V>(slots: Seq<Slot<K, V>>, index: int, id: K::Id)
    requires
        well_formed(slots),
        holds(slots, index, id),
    ensures
        well_formed(slots.update(index, Slot::Deleted)),
        contents(slots.update(index, Slot::Deleted)) == contents(slots).remove(id),
{
    let after = slots.update(index, Slot::Deleted);
    let capacity = slots.len() as int;
    assert forall|i: int, other: K::Id| #[trigger] holds(after, i, other) implies holds(
        slots,
        i,
        other,
    ) && i != index by {}
    assert forall|i: int, other: K::Id| #[trigger] holds(after, i, other) implies path_filled(
        after,
        other,
        steps_to(home::<K>(other, capacity), i, capacity),
    ) by {
        assert(holds(slots, i, other));
        assert(path_filled(slots, other, steps_to(home::<K>(other, capacity), i, capacity)));
        assert forall|t: int|
            0 <= t < steps_to(home::<K>(other, capacity), i, capacity) implies !(after[#[trigger] probe_at(
                home::<K>(other, capacity),
                t,
                capacity,
            )] is Empty) by {
            let at = probe_at(home::<K>(other, capacity), t, capacity);
            if at != index {
                assert(after[at] == slots[at]);
            }
        }
    }
    assert forall|other: K::Id| #[trigger] contents(after).contains_key(other) implies other != id
        && contents(slots).contains_key(other) && contents(after)[other] == contents(
        slots,
    )[other] by {
        let i = lemma_contents_witness(after, other);
        assert(holds(slots, i, other));
        lemma_contents_at(slots, i, other);
    }
    assert forall|other: K::Id| other != id && #[trigger] contents(slots).contains_key(
        other,
    ) implies contents(after).contains_key(other) by {
        let i = lemma_contents_witness(slots, other);
        assert(holds(after, i, other));
    }
    assert(contents(after) =~= contents(slots).remove(id));
}

/// The array with its first `n` slots emptied.
pub open spec fn without_prefix<K, V>(slots: Seq<Slot<K, V>>, n: int) -> Seq<Slot<K, V>> {
    Seq::new(
        slots.len(),
        |i: int|
            if i < n {
                Slot::Empty
            } else {
                slots[i]
            },
    )
}

/// Emptying one slot less leaves one entry more, if that slot holds one.
pub proof fn lemma_without_prefix_step<K: Key, V>(slots: Seq<Slot<K, V>>, n: int)
    requires
        unique_keys(slots),
        0 <= n < slots.len(),
    ensures
        unique_keys(without_prefix(slots, n)),
        unique_keys(without_prefix(slots, n + 1)),
        match slots[n] {
            Slot::Occupied { key, value } => {
                &&& !contents(without_prefix(slots, n + 1)).contains_key(key.id())
                &&& contents(without_prefix(slots, n)) == contents(
                    without_prefix(slots, n + 1),
                ).insert(key.id(), value)
            },
            _ => contents(without_prefix(slots, n)) == contents(without_prefix(slots, n + 1)),
        },
{
    let more = without_prefix(slots, n);
    let less = without_prefix(slots, n + 1);
    assert forall|i: int, id: K::Id| #[trigger] holds(more, i, id) implies holds(slots, i, id)
        && n <= i by {}
    assert forall|i: int, id: K::Id| #[trigger] holds(less, i, id) implies holds(slots, i, id)
        && n < i by {}
    match slots[n] {
        Slot::Occupied { key, value } => {
            assert(holds(slots, n, key.id()));
            if contents(less).contains_key(key.id()) {
                let i = lemma_contents_witness(less, key.id());
                assert(holds(slots, i, key.id()));
            }
            lemma_put_contents(less, n, key, value);
            assert(more =~= less.update(n, Slot::Occupied { key, value }));
        },
        _ => {
            assert forall|id: K::Id| #[trigger] contents(more).contains_key(id) implies contents(
                less,
            ).contains_key(id) && contents(more)[id] == contents(less)[id] by {
                let i = lemma_contents_witness(more, id);
                assert(holds(less, i, id));
                lemma_contents_at(less, i, id);
            }
            assert forall|id: K::Id| #[trigger] contents(less).contains_key(id) implies contents(
                more,
            ).contains_key(id) by {
                let i = lemma_contents_witness(less, id);
                assert(holds(more, i, id));
            }
            assert(contents(more) =~= contents(less));
        },
    }
}

/// The map of an array without entries is empty.
pub proof fn lemma_contents_vacant<K: Key, V>(slots: Seq<Slot<K, V>>)
    requires
        forall|i: int| 0 <= i < slots.len() ==> !(slots[i] is Occupied),
    ensures
        contents(slots) == Map::<K::Id, V>::empty(),
        unique_keys(slots),
{
    assert forall|id: K::Id| !contents(slots).contains_key(id) by {
        if contents(slots).contains_key(id) {
            let i = lemma_contents_witness(slots, id);
        }
    }
    assert(contents(slots) =~= Map::<K::Id, V>::empty());
}

/// The slots from `n` on hold as many keys as there are occupied slots among
/// them.
pub proof fn lemma_domain_from<K: Key, V>(slots: Seq<Slot<K, V>>, n: int)
    requires
        unique_keys(slots),
        0 <= n <= slots.len(),
    ensures
        contents(without_prefix(slots, n)).dom().finite(),
        contents(without_prefix(slots, n)).len() + count_upto(slots, n, State::Occupied) == count(
            slots,
            State::Occupied,
        ),
    decreases slots.len() - n,
{
    if n == slots.len() {
        lemma_contents_vacant(without_prefix(slots, n));
    } else {
        lemma_domain_from(slots, n + 1);
        lemma_without_prefix_step(slots, n);
        assert(count_upto(slots, n + 1, State::Occupied) == count_upto(slots, n, State::Occupied)
            + if slots[n] is Occupied {
            1nat
        } else {
            0nat
        });
    }
}

/// The map of an array has as many keys as the array has occupied slots.
pub proof fn lemma_domain_size<K: Key, V>(slots: Seq<Slot<K, V>>)
    requires
        unique_keys(slots),
    ensures
        contents(slots).dom().finite(),
        contents(slots).len() == count(slots, State::Occupied),
{
    lemma_domain_from(slots, 0);
    assert(without_prefix(slots, 0) =~= slots);
}

} // verus!
