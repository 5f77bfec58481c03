use diagweave::fast_map::{FastMap, FastSet};

#[test]
fn sorted_entries_lists_by_key() {
    let mut map: FastMap<u64, &str> = FastMap::new();
    map.insert(30, "c");
    map.insert(10, "a");
    map.insert(20, "b");
    let entries = map.sorted_entries();
    assert_eq!(entries, vec![(&10, &"a"), (&20, &"b"), (&30, &"c")]);
}

#[test]
fn sorted_entries_of_empty_map() {
    let map: FastMap<u64, u64> = FastMap::new();
    assert!(map.sorted_entries().is_empty());
}

#[test]
fn insert_get_remove_round_trip() {
    let mut map: FastMap<u64, u64> = FastMap::with_capacity(4);
    assert_eq!(map.insert(1, 10), None);
    assert_eq!(map.insert(1, 11), Some(10));
    assert_eq!(map.get(&1), Some(&11));
    assert_eq!(map.len(), 1);
    assert_eq!(map.remove(&1), Some(11));
    assert!(map.is_empty());
}

#[test]
fn set_insert_reports_novelty() {
    let mut set: FastSet<u64> = FastSet::new();
    assert!(set.insert(5));
    assert!(!set.insert(5));
    assert!(set.contains(&5));
    assert!(set.remove(&5));
    assert!(set.is_empty());
}

#[test]
fn into_sorted_entries_moves_pairs_out_by_key() {
    let mut map: FastMap<u64, String> = FastMap::new();
    map.insert(2, "two".to_string());
    map.insert(9, "nine".to_string());
    map.insert(0, "zero".to_string());
    let entries = map.into_sorted_entries();
    assert_eq!(
        entries,
        vec![(0, "zero".to_string()), (2, "two".to_string()), (9, "nine".to_string())]
    );
}

#[test]
fn borrowed_and_owned_sorted_listings_agree() {
    let mut map: FastMap<u64, u64> = FastMap::new();
    for k in [7u64, 3, 11, 5, 1] {
        map.insert(k, k * 10);
    }
    let borrowed: Vec<(u64, u64)> = map.sorted_entries().into_iter().map(|(k, v)| (*k, *v)).collect();
    let owned = map.into_sorted_entries();
    assert_eq!(borrowed, owned);
    assert_eq!(owned, vec![(1, 10), (3, 30), (5, 50), (7, 70), (11, 110)]);
}

#[test]
fn get_mut_changes_only_its_entry_and_lengths_follow_inserts() {
    let mut map: FastMap<u64, u64> = FastMap::new();
    assert_eq!(map.insert(1, 10), None);
    assert_eq!(map.insert(2, 20), None);
    assert_eq!(map.len(), 2);
    assert_eq!(map.insert(2, 21), Some(20));
    assert_eq!(map.len(), 2);
    if let Some(v) = map.get_mut(&1) {
        *v = 11;
    }
    assert_eq!(map.get(&1), Some(&11));
    assert_eq!(map.get(&2), Some(&21));
    assert_eq!(map.remove(&1), Some(11));
    assert_eq!(map.len(), 1);
    assert_eq!(map.remove(&1), None);
    assert_eq!(map.len(), 1);

    let mut set: FastSet<u64> = FastSet::new();
    assert!(set.insert(5));
    assert!(!set.insert(5));
    assert_eq!(set.len(), 1);
    assert!(set.remove(&5));
    assert!(!set.remove(&5));
    assert_eq!(set.len(), 0);
}
