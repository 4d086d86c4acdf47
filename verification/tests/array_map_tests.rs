use tinymap::ArrayMap;

#[test]
fn new_map_is_empty() {
    let map: ArrayMap<&str> = ArrayMap::new(10);
    assert_eq!(map.len(), 0);
    assert!(map.is_empty());
    assert_eq!(map.capacity(), 10);
}

#[test]
fn insert_and_len() {
    let mut a: ArrayMap<&str> = ArrayMap::new(10);
    assert_eq!(a.len(), 0);
    a.insert(1, "a");
    assert_eq!(a.len(), 1);
    assert!(!a.is_empty());
}

#[test]
fn insert_update_returns_old_value() {
    let mut map: ArrayMap<&str> = ArrayMap::new(10);
    assert_eq!(map.insert(37, "a"), None);
    assert_eq!(map.is_empty(), false);
    map.insert(37, "b");
    assert_eq!(map.insert(37, "c"), Some("b"));
    assert_eq!(map.get(&37), Some(&"c"));
}

#[test]
fn update_does_not_change_len() {
    let mut map: ArrayMap<i64> = ArrayMap::new(5);
    map.insert(3, 30);
    map.insert(1, 10);
    let before = map.len();
    assert_eq!(map.insert(3, 33), Some(30));
    assert_eq!(map.len(), before);
    assert_eq!(map.get(&3), Some(&33));
}

#[test]
fn capacity_three_scenario() {
    let mut map: ArrayMap<&str> = ArrayMap::new(3);
    assert_eq!(map.try_insert(37, "a"), Ok(None));
    assert_eq!(map.try_insert(2, "b"), Ok(None));
    assert_eq!(map.try_insert(16, "c"), Ok(None));
    assert_eq!(map.try_insert(0, "d"), Err((0, "d")));
    let mut it = map.iter();
    assert_eq!(it.next(), Some(&(2, "b")));
    assert_eq!(it.next(), Some(&(16, "c")));
    assert_eq!(it.next(), Some(&(37, "a")));
    assert_eq!(it.next(), None);
}

#[test]
fn capacity_boundary() {
    let n: i64 = 8;
    let mut map: ArrayMap<i64> = ArrayMap::new(n as usize);
    for k in 0..n {
        assert_eq!(map.try_insert(3 * k, k), Ok(None));
    }
    assert_eq!(map.len(), n as usize);
    assert_eq!(map.try_insert(1, 99), Err((1, 99)));
    assert_eq!(map.len(), n as usize);
    // at capacity even an update of a present key is rejected
    assert_eq!(map.try_insert(0, 42), Err((0, 42)));
    assert_eq!(map.get(&0), Some(&0));
}

#[test]
fn insert_remove_scenario() {
    let mut map: ArrayMap<&str> = ArrayMap::new(10);
    assert_eq!(map.insert(1, "a"), None);
    assert_eq!(map.remove(&1), Some("a"));
    assert_eq!(map.remove(&1), None);
}

#[test]
fn round_trip_insert_get_remove() {
    let mut map: ArrayMap<String> = ArrayMap::new(4);
    map.insert(7, String::from("seven"));
    assert_eq!(map.get(&7), Some(&String::from("seven")));
    assert_eq!(map.remove(&7), Some(String::from("seven")));
    assert_eq!(map.get(&7), None);
}

#[test]
fn contains_key_reports_presence() {
    let mut map: ArrayMap<&str> = ArrayMap::new(10);
    map.insert(1, "a");
    assert_eq!(map.contains_key(&1), true);
    assert_eq!(map.contains_key(&2), false);
}

#[test]
fn get_mut_updates_value() {
    let mut map: ArrayMap<&str> = ArrayMap::new(10);
    map.insert(1, "a");
    if let Some(x) = map.get_mut(&1) {
        *x = "b";
    }
    assert_eq!(map.get(&1), Some(&"b"));
    assert_eq!(map.get_mut(&2), None);
}

#[test]
fn iteration_is_sorted_by_key() {
    let mut map: ArrayMap<&str> = ArrayMap::new(10);
    map.insert(3, "c");
    map.insert(2, "b");
    map.insert(1, "a");
    let mut it = map.iter();
    assert_eq!(it.next(), Some(&(1, "a")));
    assert_eq!(it.next(), Some(&(2, "b")));
    assert_eq!(it.next(), Some(&(3, "c")));
    assert_eq!(it.next(), None);
}

#[test]
fn keys_and_values_are_sorted() {
    let mut a: ArrayMap<&str> = ArrayMap::new(10);
    a.insert(2, "b");
    a.insert(1, "a");
    let mut keys = a.keys();
    assert_eq!(keys.next(), Some(1));
    assert_eq!(keys.next(), Some(2));
    assert_eq!(keys.next(), None);
    let mut values = a.values();
    assert_eq!(values.next(), Some(&"a"));
    assert_eq!(values.next(), Some(&"b"));
    assert_eq!(values.next(), None);
}

#[test]
fn into_iter_yields_owned_entries_in_order() {
    let mut map: ArrayMap<String> = ArrayMap::new(4);
    map.insert(9, String::from("ix"));
    map.insert(4, String::from("iv"));
    let mut it = map.into_iter();
    assert_eq!(it.next(), Some((4, String::from("iv"))));
    assert_eq!(it.next(), Some((9, String::from("ix"))));
    assert_eq!(it.next(), None);
}

#[test]
fn clear_empties_but_keeps_capacity() {
    let mut a: ArrayMap<&str> = ArrayMap::new(10);
    a.insert(1, "a");
    a.clear();
    assert!(a.is_empty());
    assert_eq!(a.capacity(), 10);
}

#[test]
fn copy_preserves_entries() {
    let mut map: ArrayMap<i64> = ArrayMap::new(10);
    map.insert(10, 1);
    map.insert(20, 2);
    map.insert(30, 3);
    let copy = map.copy();
    assert_eq!(copy.len(), 3);
    assert_eq!(copy.get(&20), Some(&2));
    assert_eq!(map.len(), 3);
}

#[test]
fn value_at_mut_updates_in_key_order() {
    let mut map: ArrayMap<i64> = ArrayMap::new(10);
    map.insert(1, 1);
    map.insert(2, 2);
    map.insert(3, 3);
    // add 10 to every value whose key is not 1
    let mut i = 0;
    while i < map.len() {
        if map.entry_at(i).0 != 1 {
            *map.value_at_mut(i) += 10;
        }
        i += 1;
    }
    assert_eq!(map.get(&1), Some(&1));
    assert_eq!(map.get(&2), Some(&12));
    assert_eq!(map.get(&3), Some(&13));
}
