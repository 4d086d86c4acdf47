use tinymap::{ArraySet, TinySet};

#[test]
fn array_set_insert_and_len() {
    let mut set = ArraySet::new(10);
    assert_eq!(set.insert(2), true);
    assert_eq!(set.insert(2), false);
    assert_eq!(set.len(), 1);
    assert_eq!(set.capacity(), 10);
}

#[test]
fn array_set_try_insert_boundary() {
    let mut set = ArraySet::new(3);
    assert!(set.try_insert(37).is_ok());
    assert!(set.try_insert(2).is_ok());
    assert!(set.try_insert(16).is_ok());
    assert_eq!(set.try_insert(0), Err(0));
    assert_eq!(set.len(), 3);
}

#[test]
fn array_set_contains_and_get() {
    let mut set = ArraySet::new(3);
    set.insert(1);
    set.insert(2);
    set.insert(3);
    assert_eq!(set.contains(&1), true);
    assert_eq!(set.contains(&4), false);
    assert_eq!(set.get(&2), Some(&2));
    assert_eq!(set.get(&4), None);
}

#[test]
fn array_set_remove() {
    let mut set = ArraySet::new(10);
    set.insert(2);
    assert_eq!(set.remove(&2), true);
    assert_eq!(set.remove(&2), false);
}

#[test]
fn array_set_iter_is_sorted() {
    let mut set = ArraySet::new(3);
    set.insert(3);
    set.insert(1);
    set.insert(2);
    let mut it = set.iter();
    assert_eq!(it.next(), Some(1));
    assert_eq!(it.next(), Some(2));
    assert_eq!(it.next(), Some(3));
    assert_eq!(it.next(), None);
}

#[test]
fn array_set_clear_and_copy() {
    let mut set = ArraySet::new(10);
    set.insert(1);
    set.insert(2);
    set.insert(3);
    let copy = set.copy();
    assert_eq!(3, copy.len());
    set.clear();
    assert!(set.is_empty());
    assert_eq!(copy.contains(&2), true);
}

#[test]
fn array_set_into_iter() {
    let mut set = ArraySet::new(3);
    set.insert(3);
    set.insert(1);
    let mut it = set.into_iter();
    assert_eq!(it.next(), Some(1));
    assert_eq!(it.next(), Some(3));
    assert_eq!(it.next(), None);
}

#[test]
fn tiny_set_insert_and_len() {
    let mut set = TinySet::new(2);
    assert_eq!(set.insert(2), true);
    assert_eq!(set.insert(2), false);
    assert_eq!(set.len(), 1);
}

#[test]
fn tiny_set_promotion_transparency() {
    let n: i64 = 3;
    let mut set = TinySet::new(n as usize);
    for v in 0..(n + 1) {
        assert_eq!(set.insert(7 * v), true);
    }
    assert_eq!(set.len(), (n + 1) as usize);
    for v in 0..(n + 1) {
        assert!(set.contains(&(7 * v)));
    }
    let mut it = set.iter();
    let mut previous: Option<i64> = None;
    while let Some(v) = it.next() {
        if let Some(p) = previous {
            assert!(p < v);
        }
        previous = Some(v);
    }
    assert_eq!(set.capacity(), n as usize);
}

#[test]
fn tiny_set_remove_and_get() {
    let mut set = TinySet::new(2);
    set.insert(2);
    assert_eq!(set.get(&2), Some(&2));
    assert_eq!(set.remove(&2), true);
    assert_eq!(set.remove(&2), false);
    assert_eq!(set.get(&2), None);
}

#[test]
fn tiny_set_clear() {
    let mut v = TinySet::new(2);
    v.insert(1);
    v.clear();
    assert!(v.is_empty());
}

#[test]
fn tiny_set_into_iter_is_sorted() {
    let mut set = TinySet::new(2);
    set.insert(5);
    set.insert(1);
    set.insert(3);
    let mut it = set.into_iter();
    assert_eq!(it.next(), Some(1));
    assert_eq!(it.next(), Some(3));
    assert_eq!(it.next(), Some(5));
    assert_eq!(it.next(), None);
}
