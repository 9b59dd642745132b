use hasheroni::{Error, Hasheroni, DEFAULT_CAPACITY};

#[test]
fn test_get() {
    let mut hm: Hasheroni<u32, String> = Hasheroni::new();
    let _ = hm.insert(10, "Ten".to_string());
    let _ = hm.insert(1, "One".to_string());
    let _ = hm.insert(9, "Nine".to_string());

    assert_eq!(hm.size(), 3);

    assert_eq!(hm.get(10), Some("Ten".to_string()));
    assert_eq!(hm.get(1), Some("One".to_string()));
    assert_eq!(hm.get(9), Some("Nine".to_string()));
    assert_eq!(hm.get(76), None);

    assert_eq!(hm.size(), 3);
}

#[test]
fn test_insert() {
    let mut hm: Hasheroni<usize, String> = Hasheroni::new();

    for i in 0..8192 {
        let result: Result<Option<String>, Error> = hm.insert(i, "value".to_string());
        assert_eq!(result, Ok(None));
    }

    assert_eq!(hm.get(10), Some("value".to_string()));

    // The table grows, so 8192 entries do not fill it, and a key that is
    // there gets its value replaced.
    let again = hm.insert(10, "hello".to_string());
    assert_ne!(
        again.clone().map_err(|e| e.message()),
        Err("Hash table full!".to_string())
    );
    assert_eq!(again, Ok(Some("value".to_string())));
    assert_eq!(hm.get(10), Some("hello".to_string()));

    assert_eq!(hm.size(), 8192);
}

#[test]
fn test_remove() {
    let mut hm: Hasheroni<u32, String> = Hasheroni::new();
    let _ = hm.insert(10, "Ten".to_string());
    let _ = hm.insert(1, "One".to_string());
    let _ = hm.insert(9, "Nine".to_string());

    assert_eq!(hm.get(10), Some("Ten".to_string()));

    assert_eq!(hm.remove(10), Ok("Ten".to_string()));
    assert_eq!(
        hm.remove(10).map_err(|e| e.message()),
        Err("Key does not exist.".to_string())
    );

    assert_eq!(hm.size(), 2);
}

#[test]
fn test_from() {
    let vector: Vec<(u32, String)> = vec![
        (101, String::from("Nice")),
        (2, String::from("Plants")),
        (7, String::from("Guitar")),
    ];
    let mut hm: Hasheroni<u32, String> = Hasheroni::from(vector);

    assert_eq!(hm.get(101), Some("Nice".to_string()));
    assert_eq!(hm.get(2), Some("Plants".to_string()));
    assert_eq!(hm.get(7), Some("Guitar".to_string()));
    assert_eq!(hm.get(76), None);

    assert_eq!(hm.remove(101), Ok("Nice".to_string()));
    assert_eq!(
        hm.remove(101).map_err(|e| e.message()),
        Err("Key does not exist.".to_string())
    );
    assert_eq!(hm.remove(101), Err(Error::KeyNotFound));

    assert_eq!(hm.size(), 2);
}

#[test]
fn new_table_is_empty_with_default_capacity() {
    let hm: Hasheroni<u64, u64> = Hasheroni::new();
    assert_eq!(DEFAULT_CAPACITY, 16);
    assert_eq!(hm.capacity(), 16);
    assert_eq!(hm.size(), 0);
    assert_eq!(hm.tombstones(), 0);
    assert_eq!(hm.get(0), None);
    assert!(!hm.contains(0));
}

#[test]
fn with_capacity_allocates_what_was_asked() {
    let hm: Hasheroni<u64, u64> = Hasheroni::with_capacity(5);
    assert_eq!(hm.capacity(), 5);
    assert_eq!(hm.size(), 0);
}

#[test]
fn table_without_slots_answers_and_grows() {
    let mut hm: Hasheroni<u32, u32> = Hasheroni::with_capacity(0);
    assert_eq!(hm.capacity(), 0);
    assert_eq!(hm.get(1), None);
    assert!(!hm.contains(1));
    assert_eq!(hm.remove(1), Err(Error::KeyNotFound));
    assert_eq!(hm.insert(1, 11), Ok(None));
    assert_eq!(hm.capacity(), 16);
    assert_eq!(hm.get(1), Some(11));
    assert_eq!(hm.size(), 1);
}

#[test]
fn table_of_one_slot_doubles_before_the_first_entry() {
    let mut hm: Hasheroni<u32, u32> = Hasheroni::with_capacity(1);
    assert_eq!(hm.insert(5, 50), Ok(None));
    assert_eq!(hm.capacity(), 2);
    assert_eq!(hm.insert(6, 60), Ok(None));
    assert_eq!(hm.capacity(), 4);
    assert_eq!(hm.insert(7, 70), Ok(None));
    assert_eq!(hm.capacity(), 8);
    assert_eq!(hm.get(5), Some(50));
    assert_eq!(hm.get(6), Some(60));
    assert_eq!(hm.get(7), Some(70));
    assert_eq!(hm.size(), 3);
}

#[test]
fn insert_returns_the_previous_value() {
    let mut hm: Hasheroni<u32, String> = Hasheroni::new();
    assert_eq!(hm.insert(4, "a".to_string()), Ok(None));
    assert_eq!(hm.insert(4, "b".to_string()), Ok(Some("a".to_string())));
    assert_eq!(hm.insert(4, "c".to_string()), Ok(Some("b".to_string())));
    assert_eq!(hm.get(4), Some("c".to_string()));
    assert_eq!(hm.size(), 1);
}

#[test]
fn round_trip_of_unique_keys() {
    let mut hm: Hasheroni<u64, u64> = Hasheroni::new();
    for k in 0..500u64 {
        assert_eq!(hm.insert(k * 7919, k + 1), Ok(None));
    }
    for k in 0..500u64 {
        assert_eq!(hm.get(k * 7919), Some(k + 1));
        assert!(hm.contains(k * 7919));
    }
    assert_eq!(hm.size(), 500);
}

#[test]
fn same_key_twice_keeps_the_size() {
    let mut hm: Hasheroni<u16, u8> = Hasheroni::new();
    let _ = hm.insert(300, 1);
    assert_eq!(hm.size(), 1);
    let _ = hm.insert(300, 2);
    assert_eq!(hm.size(), 1);
    let _ = hm.insert(301, 3);
    assert_eq!(hm.size(), 2);
    assert_eq!(hm.remove(300), Ok(2));
    assert_eq!(hm.size(), 1);
    assert_eq!(hm.remove(300), Err(Error::KeyNotFound));
    assert_eq!(hm.size(), 1);
}

#[test]
fn size_counts_additions_less_removals() {
    let mut hm: Hasheroni<u32, u32> = Hasheroni::new();
    let mut added = 0;
    let mut removed = 0;
    for k in 0..40u32 {
        if hm.insert(k % 25, k) == Ok(None) {
            added += 1;
        }
    }
    for k in 10..50u32 {
        if hm.remove(k).is_ok() {
            removed += 1;
        }
    }
    assert_eq!(added, 25);
    assert_eq!(removed, 15);
    assert_eq!(hm.size(), 10);
    // A key that was taken out and is stored again counts again.
    assert_eq!(hm.insert(12, 0), Ok(None));
    assert_eq!(hm.size(), 11);
}

#[test]
fn removed_key_is_absent() {
    let mut hm: Hasheroni<u8, u8> = Hasheroni::new();
    let _ = hm.insert(1, 10);
    let _ = hm.insert(2, 20);
    assert_eq!(hm.remove(1), Ok(10));
    assert!(!hm.contains(1));
    assert_eq!(hm.get(1), None);
    assert_eq!(hm.remove(1), Err(Error::KeyNotFound));
    assert_eq!(hm.get(2), Some(20));
}

#[test]
fn remove_leaves_a_tombstone_and_keeps_the_capacity() {
    let mut hm: Hasheroni<u32, u32> = Hasheroni::new();
    let _ = hm.insert(1, 1);
    let _ = hm.insert(2, 2);
    assert_eq!(hm.tombstones(), 0);
    assert_eq!(hm.remove(1), Ok(1));
    assert_eq!(hm.tombstones(), 1);
    assert_eq!(hm.capacity(), 16);
    assert_eq!(hm.remove(1), Err(Error::KeyNotFound));
    assert_eq!(hm.tombstones(), 1);
}

#[test]
fn growth_keeps_every_entry() {
    let mut hm: Hasheroni<u32, String> = Hasheroni::with_capacity(4);
    let mut capacities: Vec<usize> = vec![hm.capacity()];
    for k in 0..100u32 {
        assert_eq!(hm.insert(k, format!("v{}", k)), Ok(None));
        if hm.capacity() != *capacities.last().unwrap() {
            capacities.push(hm.capacity());
        }
    }
    assert_eq!(capacities, vec![4, 8, 16, 32, 64, 128, 256]);
    assert!(capacities.len() >= 3);
    for k in 0..100u32 {
        assert_eq!(hm.get(k), Some(format!("v{}", k)));
    }
    assert_eq!(hm.get(100), None);
    assert_eq!(hm.size(), 100);
}

#[test]
fn growth_comes_when_the_load_limit_would_be_passed() {
    let mut hm: Hasheroni<u32, u32> = Hasheroni::new();
    // 11 of 16 slots is under 7/10, 12 of 16 is over.
    for k in 0..11u32 {
        let _ = hm.insert(k, k);
        assert_eq!(hm.capacity(), 16);
    }
    let _ = hm.insert(11, 11);
    assert_eq!(hm.capacity(), 32);
    assert_eq!(hm.size(), 12);
    // 22 of 32 is under 7/10, 23 of 32 is over.
    for k in 12..22u32 {
        let _ = hm.insert(k, k);
        assert_eq!(hm.capacity(), 32);
    }
    let _ = hm.insert(22, 22);
    assert_eq!(hm.capacity(), 64);
}

#[test]
fn tombstones_count_toward_the_load_and_a_rebuild_clears_them() {
    let mut hm: Hasheroni<u32, u32> = Hasheroni::new();
    for k in 0..11u32 {
        let _ = hm.insert(k, k);
    }
    for k in 0..8u32 {
        assert_eq!(hm.remove(k), Ok(k));
    }
    assert_eq!(hm.size(), 3);
    assert_eq!(hm.tombstones(), 8);
    assert_eq!(hm.capacity(), 16);
    // 3 entries, 8 tombstones and one more are over the limit; the entries
    // alone are not, so the table is rebuilt at the same capacity.
    let mut stored = 100u32;
    while hm.tombstones() > 0 {
        assert_eq!(hm.insert(stored, stored), Ok(None));
        stored += 1;
        assert!((hm.size() + hm.tombstones() + 1) * 10 <= 16 * 7 + 10);
    }
    assert_eq!(hm.capacity(), 16);
    for k in 8..11u32 {
        assert_eq!(hm.get(k), Some(k));
    }
    for k in 100..stored {
        assert_eq!(hm.get(k), Some(k));
    }
    for k in 0..8u32 {
        assert_eq!(hm.get(k), None);
    }
}

#[test]
fn from_keeps_the_later_of_two_entries_with_one_key() {
    let hm: Hasheroni<u32, String> = Hasheroni::from(vec![
        (1, "first".to_string()),
        (2, "two".to_string()),
        (1, "second".to_string()),
    ]);
    assert_eq!(hm.get(1), Some("second".to_string()));
    assert_eq!(hm.get(2), Some("two".to_string()));
    assert_eq!(hm.size(), 2);
}

#[test]
fn from_makes_two_slots_for_each_entry() {
    let none: Hasheroni<u32, u32> = Hasheroni::from(Vec::new());
    assert_eq!(none.capacity(), 16);
    assert_eq!(none.size(), 0);
    let few: Hasheroni<u32, u32> = Hasheroni::from(vec![(1, 1), (2, 2), (3, 3)]);
    assert_eq!(few.capacity(), 16);
    let many: Hasheroni<u32, u32> = Hasheroni::from((0..100u32).map(|k| (k, k * 2)).collect());
    assert_eq!(many.capacity(), 200);
    assert_eq!(many.size(), 100);
    assert_eq!(many.tombstones(), 0);
    for k in 0..100u32 {
        assert_eq!(many.get(k), Some(k * 2));
    }
}

#[test]
fn error_messages() {
    assert_eq!(Error::KeyNotFound.message(), "Key does not exist.");
    assert_eq!(Error::AllocationFailure.message(), "Hash table full!");
    assert_ne!(Error::KeyNotFound, Error::AllocationFailure);
}

#[test]
fn string_keys() {
    let mut hm: Hasheroni<String, u32> = Hasheroni::new();
    assert_eq!(hm.insert("one".to_string(), 1), Ok(None));
    assert_eq!(hm.insert("two".to_string(), 2), Ok(None));
    assert_eq!(hm.insert(String::new(), 0), Ok(None));
    // Another string with the same characters is the same key.
    let again = ["o", "n", "e"].concat();
    assert_eq!(hm.insert(again, 11), Ok(Some(1)));
    assert_eq!(hm.size(), 3);
    assert_eq!(hm.get("one".to_string()), Some(11));
    assert_eq!(hm.get("two".to_string()), Some(2));
    assert_eq!(hm.get(String::new()), Some(0));
    assert_eq!(hm.get("three".to_string()), None);
    assert_eq!(hm.get("On".to_string()), None);
    assert_eq!(hm.remove("two".to_string()), Ok(2));
    assert_eq!(hm.remove("two".to_string()), Err(Error::KeyNotFound));
    assert!(hm.contains("one".to_string()));
    for n in 0..200u32 {
        assert_eq!(hm.insert(format!("key {}", n), n), Ok(None));
    }
    for n in 0..200u32 {
        assert_eq!(hm.get(format!("key {}", n)), Some(n));
    }
    assert_eq!(hm.get("één".to_string()), None);
    assert_eq!(hm.insert("één".to_string(), 1), Ok(None));
    assert_eq!(hm.get("één".to_string()), Some(1));
    assert_eq!(hm.size(), 203);
}
