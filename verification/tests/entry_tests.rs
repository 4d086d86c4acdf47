use tinymap::array_map;
use tinymap::tiny_map;
use tinymap::{ArrayMap, TinyMap};

#[test]
fn entry_or_insert_counts_occurrences() {
    let mut count: ArrayMap<i64> = ArrayMap::new(10);
    for x in vec![2, 5, 2, 7, 2, 5] {
        let e = count.entry(x);
        *e.or_insert(&mut count, 0) += 1;
    }
    assert_eq!(count.get(&2), Some(&3));
    assert_eq!(count.get(&5), Some(&2));
    assert_eq!(count.get(&7), Some(&1));
}

#[test]
fn entry_key_reports_searched_key() {
    let map: ArrayMap<usize> = ArrayMap::new(10);
    assert_eq!(map.entry(12).key(), 12);
}

#[test]
fn entry_or_try_insert_rejects_when_full() {
    let mut map: ArrayMap<i64> = ArrayMap::new(2);
    let e = map.entry(1);
    assert!(e.or_try_insert(&mut map, 12).is_ok());
    assert_eq!(map.get(&1), Some(&12));
    let e = map.entry(2);
    assert!(e.or_try_insert(&mut map, 20).is_ok());
    let e = map.entry(3);
    assert_eq!(e.or_try_insert(&mut map, 7).err(), Some((3, 7)));
    assert_eq!(map.len(), 2);
}

#[test]
fn entry_or_insert_with_runs_lazily() {
    let mut map: ArrayMap<String> = ArrayMap::new(10);
    let e = map.entry(5);
    e.or_insert_with(&mut map, || String::from("hoho"));
    assert_eq!(map.get(&5), Some(&String::from("hoho")));
    // an occupied entry keeps its value
    let e = map.entry(5);
    e.or_insert_with(&mut map, || String::from("wewe"));
    assert_eq!(map.get(&5), Some(&String::from("hoho")));
}

#[test]
fn entry_or_default_inserts_default() {
    let mut map: ArrayMap<Option<usize>> = ArrayMap::new(10);
    let e = map.entry(3);
    e.or_default(&mut map);
    assert_eq!(map.get(&3), Some(&None));
}

#[test]
fn vacant_entry_insert_returns_value_slot() {
    let mut map: ArrayMap<i64> = ArrayMap::new(4);
    match map.entry(8) {
        array_map::Entry::Vacant(e) => {
            assert_eq!(e.key(), 8);
            let slot = e.insert(&mut map, 80);
            *slot += 1;
        }
        array_map::Entry::Occupied(_) => panic!("the key should be absent"),
    }
    assert_eq!(map.get(&8), Some(&81));
}

#[test]
fn occupied_entry_operations() {
    let mut map: ArrayMap<i64> = ArrayMap::new(4);
    map.insert(8, 80);
    match map.entry(8) {
        array_map::Entry::Occupied(e) => {
            assert_eq!(e.key(), 8);
            assert_eq!(*e.get(&map), 80);
            assert_eq!(e.insert(&mut map, 88), 80);
            assert_eq!(e.remove_entry(&mut map), (8, 88));
        }
        array_map::Entry::Vacant(_) => panic!("the key should be present"),
    }
    assert_eq!(map.len(), 0);
}

#[test]
fn occupied_entry_remove_returns_value() {
    let mut map: ArrayMap<&str> = ArrayMap::new(4);
    map.insert(2, "two");
    match map.entry(2) {
        array_map::Entry::Occupied(e) => {
            assert_eq!(e.remove(&mut map), "two");
        }
        array_map::Entry::Vacant(_) => panic!("the key should be present"),
    }
    assert!(map.is_empty());
}

#[test]
fn tiny_entry_or_insert_counts_occurrences() {
    let mut count: TinyMap<i64> = TinyMap::new(10);
    for x in vec![2, 5, 2, 7, 2, 5] {
        let e = count.entry(x);
        *e.or_insert(&mut count, 0) += 1;
    }
    assert_eq!(count.get(&2), Some(&3));
    assert_eq!(count.get(&5), Some(&2));
    assert_eq!(count.get(&7), Some(&1));
}

#[test]
fn tiny_entry_key_and_or_insert_with() {
    let mut map: TinyMap<String> = TinyMap::new(10);
    assert_eq!(map.entry(4).key(), 4);
    let e = map.entry(4);
    e.or_insert_with(&mut map, || String::from("hoho"));
    assert_eq!(map.get(&4), Some(&String::from("hoho")));
    let e = map.entry(4);
    match e {
        tiny_map::Entry::Occupied(_) => {}
        tiny_map::Entry::Vacant(_) => panic!("the key should be present"),
    }
}

#[test]
fn entry_and_modify_then_or_insert() {
    let mut map: ArrayMap<usize> = ArrayMap::new(10);
    let e = map.entry(9);
    let e = e.and_modify(&mut map, |v| v + 1);
    e.or_insert(&mut map, 42);
    assert_eq!(map.get(&9), Some(&42));
    let e = map.entry(9);
    let e = e.and_modify(&mut map, |v| v + 1);
    e.or_insert(&mut map, 42);
    assert_eq!(map.get(&9), Some(&43));
}

#[test]
fn tiny_entry_and_modify_then_or_insert() {
    let mut map: TinyMap<usize> = TinyMap::new(10);
    let e = map.entry(9);
    let e = e.and_modify(&mut map, |v| v + 1);
    e.or_insert(&mut map, 42);
    assert_eq!(map.get(&9), Some(&42));
    let e = map.entry(9);
    let e = e.and_modify(&mut map, |v| v + 1);
    e.or_insert(&mut map, 42);
    assert_eq!(map.get(&9), Some(&43));
}

#[test]
fn tiny_entry_or_default_inserts_default() {
    let mut map: TinyMap<Option<usize>> = TinyMap::new(10);
    let e = map.entry(3);
    e.or_default(&mut map);
    assert_eq!(map.get(&3), Some(&None));
}
