use std::sync::atomic::{AtomicU32, Ordering};
use std::sync::Arc;

use tinymap::{ArrayMap, TinyMap, TinySet};

struct Foo(Arc<AtomicU32>);

impl Drop for Foo {
    fn drop(&mut self) {
        self.0.fetch_add(1, Ordering::Relaxed);
    }
}

#[test]
fn into_iter_empty() {
    let map: TinyMap<usize> = TinyMap::new(10);
    let mut map_iter = map.into_iter();
    while let Some(_) = map_iter.next() {
        panic!("Iterating, but the map is empty")
    }
    let set = TinySet::new(10);
    let mut set_iter = set.into_iter();
    while let Some(_) = set_iter.next() {
        panic!("Iterating, but the set is empty")
    }
}

#[test]
fn drop_map() {
    let counter = Arc::new(AtomicU32::new(0));
    let get_counter = || Arc::clone(&counter);

    {
        let mut map: ArrayMap<Foo> = ArrayMap::new(10);
        map.insert(1, Foo(get_counter()));
        map.insert(2, Foo(get_counter()));
        map.insert(3, Foo(get_counter()));
        map.insert(4, Foo(get_counter()));
        map.insert(5, Foo(get_counter()));

        assert_eq!(0, counter.load(Ordering::Relaxed));

        map.remove(&1);
        map.remove(&2);

        assert_eq!(2, counter.load(Ordering::Relaxed));
    }

    assert_eq!(5, counter.load(Ordering::Relaxed));
}

#[test]
fn drop_tiny_map_after_promotion() {
    let counter = Arc::new(AtomicU32::new(0));
    let get_counter = || Arc::clone(&counter);

    {
        let mut map: TinyMap<Foo> = TinyMap::new(3);
        map.insert(1, Foo(get_counter()));
        map.insert(2, Foo(get_counter()));
        map.insert(3, Foo(get_counter()));
        // this one promotes: every element is moved, not cloned
        map.insert(4, Foo(get_counter()));

        assert_eq!(0, counter.load(Ordering::Relaxed));

        map.remove(&1);

        assert_eq!(1, counter.load(Ordering::Relaxed));
    }

    assert_eq!(4, counter.load(Ordering::Relaxed));
}

#[test]
fn overwrite_drops_old_value_once() {
    let counter = Arc::new(AtomicU32::new(0));

    {
        let mut map: ArrayMap<Foo> = ArrayMap::new(2);
        map.insert(1, Foo(Arc::clone(&counter)));
        let old = map.insert(1, Foo(Arc::clone(&counter)));
        assert_eq!(0, counter.load(Ordering::Relaxed));
        drop(old);
        assert_eq!(1, counter.load(Ordering::Relaxed));
    }

    assert_eq!(2, counter.load(Ordering::Relaxed));
}
