use hasheroni::rebuild::{rehash, vacant_slots};
use hasheroni::search::{find, find_vacant};
use hasheroni::slot::Slot;
use hasheroni::Key;

/// A key whose hash is chosen by the test.
#[derive(Debug, Clone, Copy, PartialEq)]
struct At(u64, char);

impl Key for At {
    type Id = At;

    fn id(&self) -> At {
        *self
    }

    fn hash_of(id: At) -> u64 {
        id.0
    }

    fn hash(&self) -> u64 {
        self.0
    }

    fn same(&self, other: &Self) -> bool {
        self == other
    }
}

fn entry(hash: u64, name: char) -> Slot<At, u32> {
    Slot::Occupied {
        key: At(hash, name),
        value: name as u32,
    }
}

fn shape(slots: &Vec<Slot<At, u32>>) -> String {
    slots
        .iter()
        .map(|slot| match slot {
            Slot::Empty => '.',
            Slot::Deleted => 'x',
            Slot::Occupied { key, .. } => key.1,
        })
        .collect()
}

#[test]
fn vacant_slots_are_all_empty() {
    let slots: Vec<Slot<At, u32>> = vacant_slots(5);
    assert_eq!(shape(&slots), ".....");
    let none: Vec<Slot<At, u32>> = vacant_slots(0);
    assert_eq!(none.len(), 0);
}

#[test]
fn find_walks_from_the_home_of_the_key() {
    // a and b start at 1, c starts at 2 and was pushed on to 3.
    let slots = vec![
        Slot::Empty,
        entry(1, 'a'),
        entry(1, 'b'),
        entry(2, 'c'),
        Slot::Empty,
    ];
    assert_eq!(find(&slots, &At(1, 'a')), Some(1));
    assert_eq!(find(&slots, &At(1, 'b')), Some(2));
    assert_eq!(find(&slots, &At(2, 'c')), Some(3));
    assert_eq!(find(&slots, &At(1, 'c')), None);
    assert_eq!(find(&slots, &At(0, 'a')), None);
    assert_eq!(find(&slots, &At(4, 'a')), None);
    // Another key with the same home and the same name is another key.
    assert_eq!(find(&slots, &At(6, 'a')), None);
}

#[test]
fn find_walks_past_a_tombstone_and_ends_at_an_empty_slot() {
    let with_tombstone = vec![
        Slot::Empty,
        entry(1, 'a'),
        Slot::Deleted,
        entry(1, 'c'),
        Slot::Empty,
    ];
    assert_eq!(find(&with_tombstone, &At(1, 'c')), Some(3));
    assert_eq!(find(&with_tombstone, &At(1, 'b')), None);
    // With a hole in place of the tombstone the walk ends at the hole.
    let with_hole = vec![
        Slot::Empty,
        entry(1, 'a'),
        Slot::Empty,
        entry(1, 'c'),
        Slot::Empty,
    ];
    assert_eq!(find(&with_hole, &At(1, 'c')), None);
    assert_eq!(find(&with_hole, &At(1, 'a')), Some(1));
}

#[test]
fn find_wraps_and_visits_every_slot_once() {
    let wrapped = vec![entry(3, 'b'), Slot::Empty, Slot::Empty, entry(3, 'a')];
    assert_eq!(find(&wrapped, &At(3, 'a')), Some(3));
    assert_eq!(find(&wrapped, &At(3, 'b')), Some(0));
    assert_eq!(find(&wrapped, &At(3, 'c')), None);
    // No slot is empty: the walk ends after one round.
    let full = vec![entry(2, 'c'), Slot::Deleted, entry(2, 'a'), entry(2, 'b')];
    assert_eq!(find(&full, &At(2, 'c')), Some(0));
    assert_eq!(find(&full, &At(2, 'd')), None);
    assert_eq!(find(&full, &At(1, 'd')), None);
    let none: Vec<Slot<At, u32>> = Vec::new();
    assert_eq!(find(&none, &At(2, 'a')), None);
}

#[test]
fn find_vacant_gives_the_first_slot_without_an_entry() {
    let slots = vec![
        entry(3, 'd'),
        Slot::Empty,
        entry(2, 'a'),
        entry(2, 'b'),
        Slot::Deleted,
        entry(5, 'c'),
    ];
    assert_eq!(find_vacant(&slots, &At(1, 'z')), 1);
    assert_eq!(find_vacant(&slots, &At(2, 'z')), 4);
    assert_eq!(find_vacant(&slots, &At(4, 'z')), 4);
    assert_eq!(find_vacant(&slots, &At(5, 'z')), 1);
    assert_eq!(find_vacant(&slots, &At(0, 'z')), 1);
    assert_eq!(find_vacant(&slots, &At(11, 'z')), 1);
}

#[test]
fn rehash_stores_the_entries_from_the_last_slot_down() {
    let from = vec![
        entry(7, 'a'),
        Slot::Deleted,
        entry(7, 'b'),
        Slot::Empty,
        entry(2, 'c'),
        entry(15, 'd'),
        Slot::Deleted,
    ];
    let to = rehash(from, 8);
    // d goes to 15 % 8 = 7, c to 2, b to 7 and on to 0, a to 7 and on to 1.
    assert_eq!(shape(&to), "bac....d");
    assert_eq!(find(&to, &At(7, 'a')), Some(1));
    assert_eq!(find(&to, &At(7, 'b')), Some(0));
    assert_eq!(find(&to, &At(2, 'c')), Some(2));
    assert_eq!(find(&to, &At(15, 'd')), Some(7));

    let same_size = rehash(to, 8);
    assert_eq!(shape(&same_size), "abc....d");
}

#[test]
fn rehash_of_nothing() {
    let none: Vec<Slot<At, u32>> = Vec::new();
    assert_eq!(shape(&rehash(none, 3)), "...");
    let tombstones: Vec<Slot<At, u32>> = vec![Slot::Deleted, Slot::Deleted];
    assert_eq!(shape(&rehash(tombstones, 0)), "");
}
