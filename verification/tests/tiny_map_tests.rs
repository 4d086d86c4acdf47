use tinymap::TinyMap;

#[test]
fn new_tiny_map_is_empty() {
    let map: TinyMap<&str> = TinyMap::new(2);
    assert_eq!(map.len(), 0);
    assert!(map.is_empty());
    assert_eq!(map.capacity(), 2);
}

#[test]
fn tiny_insert_update_returns_old_value() {
    let mut map: TinyMap<&str> = TinyMap::new(2);
    assert_eq!(map.insert(37, "a"), None);
    assert_eq!(map.is_empty(), false);
    map.insert(37, "b");
    assert_eq!(map.insert(37, "c"), Some("b"));
    assert_eq!(map.get(&37), Some(&"c"));
}

#[test]
fn promotion_transparency() {
    let n: i64 = 4;
    let mut map: TinyMap<i64> = TinyMap::new(n as usize);
    // inserting one key more than the capacity succeeds, unlike ArrayMap
    for k in 0..(n + 1) {
        assert_eq!(map.insert(10 * k, k), None);
    }
    assert_eq!(map.len(), (n + 1) as usize);
    for k in 0..(n + 1) {
        assert_eq!(map.get(&(10 * k)), Some(&k));
    }
    // iteration order stays ascending after promotion
    let mut it = map.iter();
    let mut previous: Option<i64> = None;
    let mut seen: usize = 0;
    while let Some(&(k, _)) = it.next() {
        if let Some(p) = previous {
            assert!(p < k);
        }
        previous = Some(k);
        seen += 1;
    }
    assert_eq!(seen, (n + 1) as usize);
    // the capacity no longer bounds the map
    for k in 100..130 {
        assert_eq!(map.insert(k, 0), None);
    }
    assert_eq!(map.len(), (n + 1 + 30) as usize);
    assert_eq!(map.capacity(), n as usize);
}

#[test]
fn full_stack_update_promotes_and_keeps_value() {
    // at capacity even an insert of an already present key promotes,
    // returning the previous value
    let mut map: TinyMap<&str> = TinyMap::new(2);
    map.insert(1, "a");
    map.insert(2, "b");
    assert_eq!(map.insert(1, "c"), Some("a"));
    assert_eq!(map.len(), 2);
    assert_eq!(map.get(&1), Some(&"c"));
    assert_eq!(map.get(&2), Some(&"b"));
}

#[test]
fn insert_remove_roundtrip() {
    let mut map: TinyMap<&str> = TinyMap::new(2);
    map.insert(1, "a");
    assert_eq!(map.remove(&1), Some("a"));
    assert_eq!(map.remove(&1), None);
}

#[test]
fn contains_and_get_mut() {
    let mut map: TinyMap<&str> = TinyMap::new(2);
    map.insert(1, "a");
    assert_eq!(map.contains_key(&1), true);
    assert_eq!(map.contains_key(&2), false);
    if let Some(x) = map.get_mut(&1) {
        *x = "b";
    }
    assert_eq!(map.get(&1), Some(&"b"));
}

#[test]
fn tiny_iteration_is_sorted_by_key() {
    let mut map: TinyMap<&str> = TinyMap::new(2);
    map.insert(3, "c");
    map.insert(2, "b");
    map.insert(1, "a");
    let mut it = map.iter();
    assert_eq!(it.next(), Some(&(1, "a")));
    assert_eq!(it.next(), Some(&(2, "b")));
    assert_eq!(it.next(), Some(&(3, "c")));
    assert_eq!(it.next(), None);
}

#[test]
fn keys_and_values_after_promotion() {
    let mut a: TinyMap<&str> = TinyMap::new(1);
    a.insert(2, "b");
    a.insert(1, "a");
    let mut keys = a.keys();
    assert_eq!(keys.next(), Some(1));
    assert_eq!(keys.next(), Some(2));
    assert_eq!(keys.next(), None);
    let mut values = a.values();
    assert_eq!(values.next(), Some(&"a"));
    assert_eq!(values.next(), Some(&"b"));
    assert_eq!(values.next(), None);
}

#[test]
fn clear_returns_to_fixed_representation() {
    let mut a: TinyMap<&str> = TinyMap::new(1);
    a.insert(1, "a");
    a.insert(2, "b");
    a.clear();
    assert!(a.is_empty());
    assert_eq!(a.capacity(), 1);
    // after clearing, the fixed capacity bounds the map again until it
    // overflows once more
    assert_eq!(a.insert(5, "e"), None);
    assert_eq!(a.len(), 1);
}

#[test]
fn removal_never_demotes() {
    let mut map: TinyMap<i64> = TinyMap::new(2);
    map.insert(1, 1);
    map.insert(2, 2);
    map.insert(3, 3);
    assert_eq!(map.len(), 3);
    assert_eq!(map.remove(&1), Some(1));
    assert_eq!(map.remove(&2), Some(2));
    assert_eq!(map.remove(&3), Some(3));
    assert!(map.is_empty());
    // still promoted: inserts beyond the fixed capacity keep succeeding
    for k in 0..10 {
        assert_eq!(map.insert(k, k), None);
    }
    assert_eq!(map.len(), 10);
}

#[test]
fn tiny_value_at_mut_updates_in_key_order() {
    let mut a: TinyMap<String> = TinyMap::new(2);
    a.insert(1, String::from("hello"));
    a.insert(2, String::from("goodbye"));
    a.insert(3, String::from("late"));
    let mut i = 0;
    while i < a.len() {
        a.value_at_mut(i).push_str("!");
        i += 1;
    }
    assert_eq!(a.get(&1), Some(&String::from("hello!")));
    assert_eq!(a.get(&2), Some(&String::from("goodbye!")));
    assert_eq!(a.get(&3), Some(&String::from("late!")));
}
