use crate::dump::{list_rows, rows_upto, Row};
use crate::error::Error;
use crate::key::Key;
use crate::layout::{
    erased, filled, inserted, lemma_erased, lemma_inserted, lemma_lookup_finds,
    lemma_rebuilt_keeps_contents, vacant,
};
use crate::model::{collect, reads, taken};
use crate::policy::{
    capacity_for, crowded, crowds, grown_capacity, next_capacity, sound, DEFAULT_CAPACITY,
};
use crate::rebuild::{rehash, vacant_slots};
use crate::search::{find, find_vacant};
use crate::slot::{
    contents, count, count_upto, lemma_contents_at, lemma_contents_vacant,
    lemma_contents_witness, lemma_count_none, lemma_count_total, lemma_count_update,
    lemma_domain_size, Slot, State,
};
use vstd::pervasive::VecAdditionalExecFns;
use vstd::prelude::*;

verus! {

/// A hash table with open addressing and linear probing.
///
/// Its view is the map from the keys it holds to their values. The backing
/// array is there for specifications too, as [`Hasheroni::slots`]: the
/// contracts say of each operation what it does to the map and what it does
/// to the array.
pub struct Hasheroni<K: Key, V> {
    size: usize,
    tombstones: usize,
    table: Vec<Slot<K, V>>,
}

impl<K: Key, V> View for Hasheroni<K, V> {
    type V = Map<K::Id, V>;

    open spec fn view(&self) -> Map<K::Id, V> {
        contents(self.slots())
    }
}

impl<K: Key, V> Hasheroni<K, V> {
    #[verifier::type_invariant]
    spec fn valid(self) -> bool {
        &&& sound(self.table@)
        &&& self.size == count(self.table@, State::Occupied)
        &&& self.tombstones == count(self.table@, State::Deleted)
    }

    /// The backing array.
    pub closed spec fn slots(&self) -> Seq<Slot<K, V>> {
        self.table@
    }

    /// The number of slots that hold an entry.
    pub open spec fn spec_size(&self) -> usize {
        count(self.slots(), State::Occupied) as usize
    }

    /// The number of slots of the backing array.
    pub open spec fn spec_capacity(&self) -> usize {
        self.slots().len() as usize
    }

    /// The number of slots that hold a tombstone.
    pub open spec fn spec_tombstones(&self) -> usize {
        count(self.slots(), State::Deleted) as usize
    }

    /// One entry more would take the table over its load limit.
    pub open spec fn must_grow(&self) -> bool {
        crowded(self.slots())
    }

    /// The capacity at which the table is rebuilt when it must grow.
    pub open spec fn rebuilt_capacity(&self) -> int {
        grown_capacity(count(self.slots(), State::Occupied) as int, self.slots().len() as int)
    }

    /// The entry that slot `index` of the backing array holds.
    pub open spec fn spec_entry_at(&self, index: int) -> Option<(&K, &V)> {
        if 0 <= index < self.slots().len() && self.slots()[index] is Occupied {
            Some((&self.slots()[index]->key, &self.slots()[index]->value))
        } else {
            None
        }
    }

    /// Which slots of the backing array hold an entry.
    pub open spec fn spec_occupancy(&self) -> Seq<bool> {
        Seq::new(self.slots().len(), |index: int| self.slots()[index] is Occupied)
    }

    /// The entries of the first `n` slots, each with the index of its slot.
    pub open spec fn spec_entries_upto(&self, n: int) -> Seq<(usize, &K, &V)>
        decreases n,
    {
        if n <= 0 {
            Seq::empty()
        } else {
            match self.spec_entry_at(n - 1) {
                Some((key, value)) => self.spec_entries_upto(n - 1).push(
                    ((n - 1) as usize, key, value),
                ),
                None => self.spec_entries_upto(n - 1),
            }
        }
    }

    /// Takes the table apart: returns the two counts and the backing array,
    /// and leaves a table without slots in their place. What comes out is
    /// put together again with a constructor, where the invariant is
    /// checked.
    fn dismantle(&mut self) -> (parts: (usize, usize, Vec<Slot<K, V>>))
        ensures
            old(self).valid(),
            parts.0 == old(self).size,
            parts.1 == old(self).tombstones,
            parts.2 == old(self).table,
    {
        let mut taken = Hasheroni { size: 0, tombstones: 0, table: Vec::new() };
        proof {
            use_type_invariant(&*self);
            lemma_contents_vacant(taken.table@);
        }
        std::mem::swap(self, &mut taken);
        let Hasheroni { size, tombstones, table } = taken;
        (size, tombstones, table)
    }

    /// An empty table of [`DEFAULT_CAPACITY`] slots.
    pub fn new() -> (table: Self)
        ensures
            table.slots() == vacant::<K, V>(DEFAULT_CAPACITY as int),
            table@ == Map::<K::Id, V>::empty(),
            table.spec_size() == 0,
            table.spec_capacity() == DEFAULT_CAPACITY,
            table.spec_tombstones() == 0,
            sound(table.slots()),
    {
        Self::with_capacity(DEFAULT_CAPACITY)
    }

    /// An empty table of `initial_capacity` slots.
    pub fn with_capacity(initial_capacity: usize) -> (table: Self)
        ensures
            table.slots() == vacant::<K, V>(initial_capacity as int),
            table@ == Map::<K::Id, V>::empty(),
            table.spec_size() == 0,
            table.spec_capacity() == initial_capacity,
            table.spec_tombstones() == 0,
            sound(table.slots()),
    {
        let table: Vec<Slot<K, V>> = vacant_slots(initial_capacity);
        proof {
            lemma_contents_vacant(table@);
            lemma_count_none(table@, initial_capacity as int, State::Occupied);
            lemma_count_none(table@, initial_capacity as int, State::Deleted);
        }
        Hasheroni { size: 0, tombstones: 0, table }
    }

    /// A table that holds the entries of `arr`. Of two entries with one key
    /// the later one stays. The table is made large enough for all of them,
    /// so it is not rebuilt while they are stored.
    pub fn from(arr: Vec<(K, V)>) -> (table: Self)
        requires
            arr.len() <= usize::MAX / 2,
        ensures
            table.slots() == filled(arr@, capacity_for(arr.len() as int)),
            table@ == collect(arr@),
            table.spec_capacity() == capacity_for(arr.len() as int),
            table.spec_tombstones() == 0,
            sound(table.slots()),
    {
        let count = arr.len();
        let capacity = if 2 * count < DEFAULT_CAPACITY {
            DEFAULT_CAPACITY
        } else {
            2 * count
        };
        let ghost entries = arr@;
        let mut table = Self::with_capacity(capacity);
        for entry in it: arr
            invariant
                it.seq() == entries,
                entries.len() == count,
                capacity == capacity_for(count as int),
                table.slots() == filled(entries.take(it.index() as int), capacity as int),
                table@ == collect(entries.take(it.index() as int)),
                table.spec_size() <= it.index(),
                table.spec_capacity() == capacity,
                table.spec_tombstones() == 0,
                sound(table.slots()),
        {
            let ghost done = it.index() as int;
            let (key, value) = entry;
            // The table has room for every entry, so none is refused.
            let stored = table.insert(key, value);
            assert(stored is Ok);
            proof {
                assert(entries.take(done + 1).drop_last() =~= entries.take(done));
            }
        }
        proof {
            assert(entries.take(count as int) =~= entries);
        }
        table
    }

    /// The number of entries.
    #[verifier::when_used_as_spec(spec_size)]
    pub fn size(&self) -> (n: usize)
        ensures
            n == self.spec_size(),
            n == self@.len(),
            self@.dom().finite(),
            sound(self.slots()),
    {
        proof {
            use_type_invariant(self);
            lemma_domain_size(self.table@);
        }
        self.size
    }

    /// The number of slots of the backing array.
    #[verifier::when_used_as_spec(spec_capacity)]
    pub fn capacity(&self) -> (n: usize)
        ensures
            n == self.spec_capacity(),
    {
        self.table.len()
    }

    /// The number of slots that hold a tombstone.
    #[verifier::when_used_as_spec(spec_tombstones)]
    pub fn tombstones(&self) -> (n: usize)
        ensures
            n == self.spec_tombstones(),
    {
        proof {
            use_type_invariant(self);
        }
        self.tombstones
    }

    /// Tells whether `key` is in the table.
    pub fn contains(&self, key: K) -> (present: bool)
        ensures
            present == self@.contains_key(key.id()),
    {
        proof {
            use_type_invariant(self);
            lemma_lookup_finds(self.table@, key.id());
        }
        match find(&self.table, &key) {
            Some(_) => true,
            None => false,
        }
    }

    /// A copy of the value stored for `key`.
    pub fn get(&self, key: K) -> (found: Option<V>) where V: Clone
        ensures
            reads(self@, key.id(), found),
    {
        proof {
            use_type_invariant(self);
            lemma_lookup_finds(self.table@, key.id());
        }
        match find(&self.table, &key) {
            Some(index) => match &self.table[index] {
                Slot::Occupied { value, .. } => Some(value.clone()),
                _ => None,
            },
            None => None,
        }
    }

    /// Stores `value` for `key` and returns the value that `key` had before.
    ///
    /// A key that is there keeps its slot. A new key goes to the first slot
    /// without an entry that the search for it visits. Where one entry more
    /// would take the table over its load limit, the table is rebuilt first,
    /// at the capacity that [`grown_capacity`] gives. The one failure is a
    /// capacity that no backing array can have; the table is then left as it
    /// was.
    pub fn insert(&mut self, key: K, value: V) -> (result: Result<Option<V>, Error>)
        ensures
            result is Err <==> !old(self)@.contains_key(key.id()) && old(self).must_grow() && old(
                self,
            ).rebuilt_capacity() > usize::MAX,
            match result {
                Ok(previous) => {
                    &&& final(self).slots() == inserted(old(self).slots(), key, value)
                    &&& final(self)@ == old(self)@.insert(key.id(), value)
                    &&& previous == old(self)@.get(key.id())
                },
                Err(error) => {
                    &&& error == Error::AllocationFailure
                    &&& *final(self) == *old(self)
                },
            },
            result is Ok && !old(self)@.contains_key(key.id()) && old(self).must_grow() ==> {
                &&& final(self).spec_capacity() == old(self).rebuilt_capacity()
                &&& final(self).spec_tombstones() == 0
            },
            !(result is Ok && !old(self)@.contains_key(key.id()) && old(self).must_grow()) ==> {
                &&& final(self).spec_capacity() == old(self).spec_capacity()
                &&& final(self).spec_tombstones() <= old(self).spec_tombstones()
                    <= final(self).spec_tombstones() + 1
            },
            old(self)@.contains_key(key.id()) ==> final(self).spec_tombstones() == old(
                self,
            ).spec_tombstones(),
            final(self).spec_size() == if result is Ok && !old(self)@.contains_key(key.id()) {
                old(self).spec_size() + 1
            } else {
                old(self).spec_size() as int
            },
            sound(final(self).slots()),
    {
        let (size, tombstones, table) = self.dismantle();
        let mut table = table;
        let mut tombstones = tombstones;
        let ghost before = table@;
        proof {
            lemma_count_total(before, before.len() as int);
            lemma_lookup_finds(before, key.id());
        }
        match find(&table, &key) {
            Some(index) => {
                let mut slot = Slot::Occupied { key, value };
                proof {
                    lemma_inserted(before, key, value);
                }
                table.set_and_swap(index, &mut slot);
                *self = Hasheroni { size, tombstones, table };
                match slot {
                    Slot::Occupied { value: previous, .. } => Ok(Some(previous)),
                    _ => Ok(None),
                }
            },
            None => {
                if crowds(size + tombstones, table.len()) {
                    match next_capacity(size, table.len()) {
                        Some(capacity) => {
                            proof {
                                lemma_rebuilt_keeps_contents(before, capacity as int);
                            }
                            table = rehash(table, capacity);
                            tombstones = 0;
                        },
                        None => {
                            *self = Hasheroni { size, tombstones, table };
                            return Err(Error::AllocationFailure);
                        },
                    }
                }
                proof {
                    lemma_inserted(before, key, value);
                    assert(!contents(table@).contains_key(key.id()));
                }
                let at = find_vacant(&table, &key);
                let reused = match &table[at] {
                    Slot::Deleted => true,
                    _ => false,
                };
                proof {
                    lemma_count_update(
                        table@,
                        at as int,
                        Slot::Occupied { key, value },
                        table.len() as int,
                        State::Deleted,
                    );
                }
                table.set(at, Slot::Occupied { key, value });
                if reused {
                    tombstones -= 1;
                }
                *self = Hasheroni { size: size + 1, tombstones, table };
                Ok(None)
            },
        }
    }

    /// Takes `key` out of the table and returns its value. The slot of the
    /// key becomes a tombstone.
    pub fn remove(&mut self, key: K) -> (result: Result<V, Error>)
        ensures
            result == taken(old(self)@, key.id()),
            final(self).slots() == erased(old(self).slots(), key.id()),
            final(self)@ == old(self)@.remove(key.id()),
            final(self).spec_capacity() == old(self).spec_capacity(),
            match result {
                Ok(_) => {
                    &&& final(self).spec_size() == old(self).spec_size() - 1
                    &&& final(self).spec_tombstones() == old(self).spec_tombstones() + 1
                },
                Err(_) => *final(self) == *old(self),
            },
            sound(final(self).slots()),
    {
        let (size, tombstones, table) = self.dismantle();
        let mut table = table;
        let ghost before = table@;
        proof {
            lemma_erased(before, key.id());
            lemma_lookup_finds(before, key.id());
        }
        match find(&table, &key) {
            Some(index) => {
                let mut slot = Slot::Deleted;
                table.set_and_swap(index, &mut slot);
                *self = Hasheroni { size: size - 1, tombstones: tombstones + 1, table };
                match slot {
                    Slot::Occupied { value, .. } => Ok(value),
                    _ => Err(Error::KeyNotFound),
                }
            },
            None => {
                *self = Hasheroni { size, tombstones, table };
                Err(Error::KeyNotFound)
            },
        }
    }

    /// The entry that slot `index` of the backing array holds, for a reader
    /// that walks the array from index 0 to `capacity() - 1`.
    pub fn entry_at(&self, index: usize) -> (entry: Option<(&K, &V)>)
        ensures
            entry == self.spec_entry_at(index as int),
            entry matches Some((key, value)) ==> self@.contains_pair(key.id(), *value),
    {
        proof {
            use_type_invariant(self);
        }
        if index >= self.table.len() {
            return None;
        }
        match &self.table[index] {
            Slot::Occupied { key, value } => {
                proof {
                    lemma_contents_at(self.table@, index as int, key.id());
                }
                Some((key, value))
            },
            _ => None,
        }
    }

    /// The first `n` slots list as many entries as are occupied among them.
    proof fn lemma_entries_counted(&self, n: int)
        requires
            0 <= n <= self.slots().len(),
        ensures
            self.spec_entries_upto(n).len() == count_upto(self.slots(), n, State::Occupied),
        decreases n,
    {
        if n > 0 {
            self.lemma_entries_counted(n - 1);
        }
    }

    /// The entries in the order of their slots, each with the index of its
    /// slot. Every entry of the table is among them.
    pub fn entries(&self) -> (listed: Vec<(usize, &K, &V)>)
        ensures
            listed@ == self.spec_entries_upto(self.spec_capacity() as int),
            listed.len() == self@.len(),
            forall|id: K::Id| #[trigger]
                self@.contains_key(id) ==> exists|index: int|
                    0 <= index < self.spec_capacity() && self.slots()[index] is Occupied
                        && #[trigger] self.slots()[index]->key.id() == id
                        && self.slots()[index]->value == self@[id],
    {
        proof {
            use_type_invariant(self);
            assert forall|id: K::Id| #[trigger] self@.contains_key(id) implies exists|index: int|
                0 <= index < self.spec_capacity() && self.slots()[index] is Occupied
                    && #[trigger] self.slots()[index]->key.id() == id
                    && self.slots()[index]->value == self@[id] by {
                let index = lemma_contents_witness(self.table@, id);
                assert(self.table@.len() == self.table.len());
                assert(self.slots()[index]->key.id() == id);
            }
            self.lemma_entries_counted(self.table.len() as int);
            lemma_domain_size(self.table@);
        }
        let mut listed: Vec<(usize, &K, &V)> = Vec::new();
        let mut index: usize = 0;
        while index < self.table.len()
            invariant
                index <= self.table.len(),
                listed@ == self.spec_entries_upto(index as int),
            decreases self.table.len() - index,
        {
            match &self.table[index] {
                Slot::Occupied { key, value } => {
                    listed.push((index, key, value));
                },
                _ => {},
            }
            index += 1;
        }
        listed
    }

    /// For each slot of the backing array, whether it holds an entry.
    fn occupancy(&self) -> (flags: Vec<bool>)
        ensures
            flags@ == self.spec_occupancy(),
    {
        let mut flags: Vec<bool> = Vec::with_capacity(self.table.len());
        let mut index: usize = 0;
        while index < self.table.len()
            invariant
                index <= self.table.len(),
                flags.len() == index,
                forall|i: int| 0 <= i < index ==> flags[i] == (self.slots()[i] is Occupied),
            decreases self.table.len() - index,
        {
            let occupied = match &self.table[index] {
                Slot::Occupied { .. } => true,
                _ => false,
            };
            flags.push(occupied);
            index += 1;
        }
        proof {
            assert(flags@ =~= self.spec_occupancy());
        }
        flags
    }

    /// The lines of a listing of the backing array: one for each entry, and
    /// for each run of vacant slots its first few and then one gap.
    pub fn rows(&self) -> (rows: Vec<Row>)
        ensures
            rows@ == rows_upto(self.spec_occupancy(), self.spec_capacity() as int),
    {
        let flags = self.occupancy();
        list_rows(&flags)
    }
}

} // verus!
