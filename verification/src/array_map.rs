//! An array-backed, map-like data structure.
//!
//! [`ArrayMap`] keeps key-value pairs in a contiguous buffer of fixed
//! capacity, in strictly ascending key order.  Lookup is by binary search;
//! insert and remove shift the surrounding entries.  The only failure mode
//! is capacity exhaustion on insert, surfaced by [`ArrayMap::try_insert`]
//! as a result carrying back the rejected pair.

use vstd::prelude::*;

use crate::sorted::{
    sorted_keys, has_key, spec_get, ipoint, spec_insert, spec_remove, lemma_get_at_ipoint,
    lemma_insert_props, lemma_remove_props, lemma_ipoint_prefix,
};
use crate::sorted_map::SortedMap;

verus! {

/// An array-backed, map-like data structure with a fixed capacity chosen at
/// construction time.
pub struct ArrayMap<V> {
    store: SortedMap<V>,
    cap: usize,
}

impl<V> View for ArrayMap<V> {
    type V = Seq<(i64, V)>;

    closed spec fn view(&self) -> Seq<(i64, V)> {
        self.store@
    }
}

impl<V> ArrayMap<V> {
    /// The fixed capacity the map was created with.
    pub closed spec fn spec_capacity(self) -> usize {
        self.cap
    }

    /// The map's invariant: entries in strictly ascending key order, never
    /// more of them than the capacity.
    pub open spec fn wf(self) -> bool {
        &&& sorted_keys(self@)
        &&& self@.len() <= self.spec_capacity()
    }

    /// Creates a new empty map that can hold up to `capacity` entries.
    pub fn new(capacity: usize) -> (r: Self)
        ensures
            r.wf(),
            r@ == Seq::<(i64, V)>::empty(),
            r.spec_capacity() == capacity,
    {
        ArrayMap { store: SortedMap::new(), cap: capacity }
    }

    /// Returns the number of entries in the map.
    pub fn len(&self) -> (n: usize)
        ensures
            n == self@.len(),
    {
        self.store.len()
    }

    /// Returns `true` if the map contains no entries.
    pub fn is_empty(&self) -> (r: bool)
        ensures
            r == (self@.len() == 0),
    {
        self.store.is_empty()
    }

    /// Returns the maximum number of entries the map can contain.
    pub fn capacity(&self) -> (n: usize)
        ensures
            n == self.spec_capacity(),
    {
        self.cap
    }

    /// Clears the map, removing all entries; the capacity is kept.
    pub fn clear(&mut self)
        ensures
            final(self).wf(),
            final(self)@ == Seq::<(i64, V)>::empty(),
            final(self).spec_capacity() == old(self).spec_capacity(),
    {
        self.store.clear();
    }

    /// Returns `true` if the map contains an entry for `key`.
    pub fn contains_key(&self, key: &i64) -> (r: bool)
        requires
            self.wf(),
        ensures
            r == has_key(self@, *key),
    {
        self.store.contains_key(key)
    }

    /// Returns a reference to the value stored under `key`, if any.
    pub fn get(&self, key: &i64) -> (r: Option<&V>)
        requires
            self.wf(),
        ensures
            match r {
                Some(v) => spec_get(self@, *key) == Some(*v) && has_key(self@, *key),
                None => spec_get::<V>(self@, *key) is None && !has_key(self@, *key),
            },
    {
        self.store.get(key)
    }

    /// Returns a mutable reference to the value stored under `key`, if any;
    /// the key itself cannot be changed through it.
    pub fn get_mut(&mut self, key: &i64) -> (r: Option<&mut V>)
        requires
            old(self).wf(),
        ensures
            final(self).wf(),
            final(self).spec_capacity() == old(self).spec_capacity(),
            match r {
                None => !has_key(old(self)@, *key) && final(self)@ == old(self)@,
                Some(v) => has_key(old(self)@, *key) && spec_get(old(self)@, *key) == Some(*v)
                    && final(self)@ == old(self)@.update(
                        ipoint(old(self)@, *key),
                        (*key, *final(v)),
                    ),
            },
    {
        proof {
            lemma_get_at_ipoint(self@, *key);
            lemma_ipoint_prefix(self@, *key);
        }
        self.store.get_mut(key)
    }

    /// Attempts to insert a key-value pair.  When the map is full the pair
    /// is handed back unchanged; otherwise an entry under an already
    /// present key is overwritten in place (returning the previous value)
    /// and a fresh key is inserted at its sorted position.
    pub fn try_insert(&mut self, key: i64, value: V) -> (r: Result<Option<V>, (i64, V)>)
        requires
            old(self).wf(),
        ensures
            final(self).wf(),
            final(self).spec_capacity() == old(self).spec_capacity(),
            match r {
                Err(p) => old(self)@.len() == old(self).spec_capacity() && p == (key, value)
                    && final(self)@ == old(self)@,
                Ok(o) => old(self)@.len() < old(self).spec_capacity() && final(self)@
                    == spec_insert(old(self)@, key, value) && o == spec_get(old(self)@, key),
            },
    {
        if self.store.len() == self.cap {
            return Err((key, value));
        }
        proof {
            lemma_insert_props(self@, key, value);
        }
        Ok(self.store.insert(key, value))
    }

    /// Inserts a key-value pair, returning the previous value stored under
    /// the key, if any.  The caller must leave room: unlike
    /// [`ArrayMap::try_insert`] this has no graceful capacity-exceeded
    /// path.
    pub fn insert(&mut self, key: i64, value: V) -> (r: Option<V>)
        requires
            old(self).wf(),
            old(self)@.len() < old(self).spec_capacity(),
        ensures
            final(self).wf(),
            final(self).spec_capacity() == old(self).spec_capacity(),
            final(self)@ == spec_insert(old(self)@, key, value),
            r == spec_get(old(self)@, key),
    {
        match self.try_insert(key, value) {
            Ok(o) => o,
            Err(_) => {
                proof {
                    assert(false);
                }
                unreached()
            },
        }
    }

    /// Removes the entry stored under `key`, if any, and returns its value.
    pub fn remove(&mut self, key: &i64) -> (r: Option<V>)
        requires
            old(self).wf(),
        ensures
            final(self).wf(),
            final(self).spec_capacity() == old(self).spec_capacity(),
            final(self)@ == spec_remove(old(self)@, *key),
            r == spec_get(old(self)@, *key),
    {
        proof {
            lemma_remove_props(self@, *key);
        }
        self.store.remove(key)
    }

    /// Hands the entries out, still in ascending key order; the map is
    /// consumed.
    pub fn into_entries(self) -> (r: Vec<(i64, V)>)
        ensures
            r@ == self@,
    {
        let ArrayMap { store, cap: _ } = self;
        store.into_entries()
    }

    /// The entry at position `i` in key order; with [`ArrayMap::len`]
    /// this walks the map in ascending key order.
    pub fn entry_at(&self, i: usize) -> (r: &(i64, V))
        requires
            i < self@.len(),
        ensures
            *r == self@[i as int],
    {
        self.store.entry_at(i)
    }

    /// Binary search: the position of `key`, or the position at which it
    /// would be inserted.
    pub(crate) fn find(&self, key: i64) -> (r: Result<usize, usize>)
        requires
            self.wf(),
        ensures
            match r {
                Ok(i) => i < self@.len() && self@[i as int].0 == key && i as int == ipoint(
                    self@,
                    key,
                ) && has_key(self@, key),
                Err(i) => i as int == ipoint(self@, key) && !has_key(self@, key),
            },
    {
        self.store.find(key)
    }

    /// A mutable reference to the value at position `i` in key order;
    /// with [`ArrayMap::len`] this mutates the values in ascending key
    /// order, in place of an iterator over mutable references.
    pub fn value_at_mut(&mut self, i: usize) -> (r: &mut V)
        requires
            old(self).wf(),
            i < old(self)@.len(),
        ensures
            final(self).wf(),
            final(self).spec_capacity() == old(self).spec_capacity(),
            *r == old(self)@[i as int].1,
            final(self)@ == old(self)@.update(i as int, (old(self)@[i as int].0, *final(r))),
    {
        self.store.value_at_mut(i)
    }

    /// Removes and returns the entry at position `i`.
    pub(crate) fn remove_at(&mut self, i: usize) -> (r: (i64, V))
        requires
            old(self).wf(),
            i < old(self)@.len(),
        ensures
            final(self).wf(),
            final(self).spec_capacity() == old(self).spec_capacity(),
            final(self)@ == old(self)@.remove(i as int),
            r == old(self)@[i as int],
    {
        proof {
            self@.remove_ensures(i as int);
        }
        self.store.remove_at(i)
    }

    /// Inserts a fresh entry at its insertion point; the caller must leave
    /// room.
    pub(crate) fn insert_at(&mut self, i: usize, key: i64, value: V)
        requires
            old(self).wf(),
            old(self)@.len() < old(self).spec_capacity(),
            i as int == ipoint(old(self)@, key),
            !has_key(old(self)@, key),
        ensures
            final(self).wf(),
            final(self).spec_capacity() == old(self).spec_capacity(),
            final(self)@ == spec_insert(old(self)@, key, value),
    {
        proof {
            lemma_insert_props(self@, key, value);
        }
        self.store.insert_at(i, key, value);
    }
}

impl<V> ArrayMap<V> {
    /// Gets the given key's corresponding entry for in-place manipulation:
    /// the outcome of a single binary search, reusable by the entry's
    /// methods without searching again.
    pub fn entry(&self, key: i64) -> (r: Entry)
        requires
            self.wf(),
        ensures
            r.wf_for(*self),
            r.spec_key() == key,
            r.is_occupied() == has_key(self@, key),
    {
        match self.store.find(key) {
            Ok(i) => Entry::Occupied(OccupiedEntry { index: i, key }),
            Err(i) => Entry::Vacant(VacantEntry { index: i, key }),
        }
    }

    /// Gets an iterator over the entries of the map, in ascending key
    /// order.
    pub fn iter(&self) -> (r: Iter<'_, V>)
        ensures
            r.entries() == self@,
            r.position() == 0,
    {
        Iter { map: self, pos: 0 }
    }

    /// Gets an iterator over the keys of the map, in ascending order.
    pub fn keys(&self) -> (r: Keys<'_, V>)
        ensures
            r.entries() == self@,
            r.position() == 0,
    {
        Keys { map: self, pos: 0 }
    }

    /// Gets an iterator over the values of the map, in ascending key order.
    pub fn values(&self) -> (r: Values<'_, V>)
        ensures
            r.entries() == self@,
            r.position() == 0,
    {
        Values { map: self, pos: 0 }
    }

    /// Turns the map into a consuming iterator over its entries, in
    /// ascending key order.
    pub fn into_iter(self) -> (r: IntoIter<V>)
        ensures
            r.remaining() == self@,
    {
        IntoIter { entries: self.into_entries() }
    }
}

/// A view into a single entry in a map, which may either be vacant or
/// occupied: the recorded outcome of one binary search.  It stays valid as
/// long as the map is not modified by anything but the entry's own methods.
pub enum Entry {
    /// The key is absent from the map.
    Vacant(VacantEntry),
    /// The key is present in the map.
    Occupied(OccupiedEntry),
}

/// An entry in an ArrayMap that is vacant: the searched key together with
/// the position at which it would have to be inserted to keep the order.
pub struct VacantEntry {
    index: usize,
    key: i64,
}

/// An entry in an ArrayMap that is occupied: the searched key together
/// with the position at which it stands.
pub struct OccupiedEntry {
    index: usize,
    key: i64,
}

impl VacantEntry {
    /// The key this entry was searched with.
    pub closed spec fn spec_key(self) -> i64 {
        self.key
    }

    /// The insertion position recorded by the search.
    pub closed spec fn spec_index(self) -> int {
        self.index as int
    }

    /// The entry matches the map it was produced from: the key is absent
    /// and the recorded position is its insertion point.
    pub open spec fn wf_for<V>(self, m: ArrayMap<V>) -> bool {
        &&& self.spec_index() == ipoint(m@, self.spec_key())
        &&& !has_key(m@, self.spec_key())
    }

    /// Returns the key that would be used when inserting through this
    /// entry.
    pub fn key(&self) -> (k: i64)
        ensures
            k == self.spec_key(),
    {
        self.key
    }

    /// Takes ownership of the key.
    pub fn into_key(self) -> (k: i64)
        ensures
            k == self.spec_key(),
    {
        self.key
    }

    /// Inserts `value` under the entry's key at the recorded position and
    /// returns a mutable reference to it.  The map must have room.
    pub fn insert<V>(self, map: &mut ArrayMap<V>, value: V) -> (r: &mut V)
        requires
            old(map).wf(),
            self.wf_for(*old(map)),
            old(map)@.len() < old(map).spec_capacity(),
        ensures
            final(map).wf(),
            final(map).spec_capacity() == old(map).spec_capacity(),
            *r == value,
            final(map)@ == spec_insert(old(map)@, self.spec_key(), *final(r)),
    {
        let ghost s0 = map@;
        let ghost k = self.spec_key();
        proof {
            lemma_ipoint_prefix(s0, k);
            lemma_insert_props(s0, k, value);
        }
        map.store.insert_at(self.index, self.key, value);
        proof {
            assert forall|w: V|
                spec_insert(s0, k, value).update(self.spec_index(), (k, w)) == spec_insert(
                    s0,
                    k,
                    w,
                ) by {
                s0.insert_ensures(self.spec_index(), (k, value));
                s0.insert_ensures(self.spec_index(), (k, w));
                assert(spec_insert(s0, k, value).update(self.spec_index(), (k, w)) =~= spec_insert(
                    s0,
                    k,
                    w,
                ));
            }
        }
        map.store.value_at_mut(self.index)
    }

    /// Attempts to insert `value` under the entry's key; hands the pair
    /// back unchanged when the map is full.
    pub fn try_insert<V>(self, map: &mut ArrayMap<V>, value: V) -> (r: Result<
        &mut V,
        (i64, V),
    >)
        requires
            old(map).wf(),
            self.wf_for(*old(map)),
        ensures
            final(map).wf(),
            final(map).spec_capacity() == old(map).spec_capacity(),
            match r {
                Err(p) => old(map)@.len() == old(map).spec_capacity() && p == (
                    self.spec_key(),
                    value,
                ) && final(map)@ == old(map)@,
                Ok(v) => old(map)@.len() < old(map).spec_capacity() && *v == value && final(map)@ == spec_insert(old(map)@, self.spec_key(), *final(v)),
            },
    {
        if map.len() == map.capacity() {
            Err((self.key, value))
        } else {
            Ok(self.insert(map, value))
        }
    }
}

impl OccupiedEntry {
    /// The key this entry was searched with.
    pub closed spec fn spec_key(self) -> i64 {
        self.key
    }

    /// The position recorded by the search.
    pub closed spec fn spec_index(self) -> int {
        self.index as int
    }

    /// The entry matches the map it was produced from: the key stands at
    /// the recorded position.
    pub open spec fn wf_for<V>(self, m: ArrayMap<V>) -> bool {
        &&& 0 <= self.spec_index() < m@.len()
        &&& m@[self.spec_index()].0 == self.spec_key()
        &&& self.spec_index() == ipoint(m@, self.spec_key())
    }

    /// Returns the key in the entry.
    pub fn key(&self) -> (k: i64)
        ensures
            k == self.spec_key(),
    {
        self.key
    }

    /// Returns a reference to the value in the entry.
    pub fn get<'a, V>(&self, map: &'a ArrayMap<V>) -> (r: &'a V)
        requires
            map.wf(),
            self.wf_for(*map),
        ensures
            spec_get(map@, self.spec_key()) == Some(*r),
    {
        proof {
            lemma_get_at_ipoint(map@, self.spec_key());
        }
        &map.store.entry_at(self.index).1
    }

    /// Returns a mutable reference to the value in the entry.
    pub fn get_mut<'a, V>(&self, map: &'a mut ArrayMap<V>) -> (r: &'a mut V)
        requires
            old(map).wf(),
            self.wf_for(*old(map)),
        ensures
            final(map).wf(),
            final(map).spec_capacity() == old(map).spec_capacity(),
            spec_get(old(map)@, self.spec_key()) == Some(*r),
            final(map)@ == spec_insert(old(map)@, self.spec_key(), *final(r)),
    {
        proof {
            lemma_get_at_ipoint(map@, self.spec_key());
            let s = map@;
            let k = self.spec_key();
            assert forall|w: V| s.update(self.spec_index(), (s[self.spec_index()].0, w))
                == spec_insert(s, k, w) by {
                assert(has_key(s, k));
            }
        }
        map.store.value_at_mut(self.index)
    }

    /// Converts the entry into a mutable reference to its value.
    pub fn into_mut<'a, V>(self, map: &'a mut ArrayMap<V>) -> (r: &'a mut V)
        requires
            old(map).wf(),
            self.wf_for(*old(map)),
        ensures
            final(map).wf(),
            final(map).spec_capacity() == old(map).spec_capacity(),
            spec_get(old(map)@, self.spec_key()) == Some(*r),
            final(map)@ == spec_insert(old(map)@, self.spec_key(), *final(r)),
    {
        self.get_mut(map)
    }

    /// Sets the value of the entry and returns the entry's old value.
    pub fn insert<V>(&self, map: &mut ArrayMap<V>, value: V) -> (r: V)
        requires
            old(map).wf(),
            self.wf_for(*old(map)),
        ensures
            final(map).wf(),
            final(map).spec_capacity() == old(map).spec_capacity(),
            spec_get(old(map)@, self.spec_key()) == Some(r),
            final(map)@ == spec_insert(old(map)@, self.spec_key(), value),
    {
        proof {
            lemma_get_at_ipoint(map@, self.spec_key());
            assert(has_key(map@, self.spec_key()));
        }
        let slot = map.store.value_at_mut(self.index);
        let mut out = value;
        core::mem::swap(slot, &mut out);
        out
    }

    /// Takes the value of the entry out of the map and returns it.
    pub fn remove<V>(self, map: &mut ArrayMap<V>) -> (r: V)
        requires
            old(map).wf(),
            self.wf_for(*old(map)),
        ensures
            final(map).wf(),
            final(map).spec_capacity() == old(map).spec_capacity(),
            final(map)@ == spec_remove(old(map)@, self.spec_key()),
            spec_get(old(map)@, self.spec_key()) == Some(r),
    {
        self.remove_entry(map).1
    }

    /// Takes the key-value pair of the entry out of the map and returns it.
    pub fn remove_entry<V>(self, map: &mut ArrayMap<V>) -> (r: (i64, V))
        requires
            old(map).wf(),
            self.wf_for(*old(map)),
        ensures
            final(map).wf(),
            final(map).spec_capacity() == old(map).spec_capacity(),
            final(map)@ == spec_remove(old(map)@, self.spec_key()),
            r.0 == self.spec_key(),
            spec_get(old(map)@, self.spec_key()) == Some(r.1),
    {
        proof {
            lemma_get_at_ipoint(map@, self.spec_key());
            assert(has_key(map@, self.spec_key()));
        }
        map.store.remove_at(self.index)
    }
}

impl Entry {
    /// The key this entry was searched with.
    pub open spec fn spec_key(self) -> i64 {
        match self {
            Entry::Vacant(e) => e.spec_key(),
            Entry::Occupied(e) => e.spec_key(),
        }
    }

    /// Whether the key was found.
    pub open spec fn is_occupied(self) -> bool {
        self matches Entry::Occupied(_)
    }

    /// The entry matches the map it was produced from.
    pub open spec fn wf_for<V>(self, m: ArrayMap<V>) -> bool {
        match self {
            Entry::Vacant(e) => e.wf_for(m),
            Entry::Occupied(e) => e.wf_for(m),
        }
    }

    /// Returns this entry's key.
    pub fn key(&self) -> (k: i64)
        ensures
            k == self.spec_key(),
    {
        match self {
            Entry::Vacant(e) => e.key(),
            Entry::Occupied(e) => e.key(),
        }
    }

    /// Ensures a value is in the entry by inserting `default` if it is
    /// vacant, and returns a mutable reference to the value.  The map must
    /// have room when the entry is vacant.
    pub fn or_insert<V>(self, map: &mut ArrayMap<V>, default: V) -> (r: &mut V)
        requires
            old(map).wf(),
            self.wf_for(*old(map)),
            !self.is_occupied() ==> old(map)@.len() < old(map).spec_capacity(),
        ensures
            final(map).wf(),
            final(map).spec_capacity() == old(map).spec_capacity(),
            final(map)@ == spec_insert(old(map)@, self.spec_key(), *final(r)),
            self.is_occupied() ==> spec_get(old(map)@, self.spec_key()) == Some(*r),
            !self.is_occupied() ==> *r == default,
    {
        match self {
            Entry::Vacant(e) => e.insert(map, default),
            Entry::Occupied(e) => e.into_mut(map),
        }
    }

    /// Attempts to ensure a value is in the entry by inserting `default`
    /// if it is vacant; hands the pair back unchanged when that insertion
    /// would exceed the capacity.
    pub fn or_try_insert<V>(self, map: &mut ArrayMap<V>, default: V) -> (r: Result<
        &mut V,
        (i64, V),
    >)
        requires
            old(map).wf(),
            self.wf_for(*old(map)),
        ensures
            final(map).wf(),
            final(map).spec_capacity() == old(map).spec_capacity(),
            match r {
                Err(p) => !self.is_occupied() && old(map)@.len() == old(map).spec_capacity()
                    && p == (self.spec_key(), default) && final(map)@ == old(map)@,
                Ok(v) => final(map)@ == spec_insert(old(map)@, self.spec_key(), *final(v))
                    && (self.is_occupied() ==> spec_get(old(map)@, self.spec_key()) == Some(
                    *v,
                )) && (!self.is_occupied() ==> *v == default),
            },
    {
        match self {
            Entry::Vacant(e) => e.try_insert(map, default),
            Entry::Occupied(e) => Ok(e.into_mut(map)),
        }
    }

    /// Ensures a value is in the entry by inserting the result of
    /// `default` if it is vacant, and returns a mutable reference to the
    /// value; `default` is only run when the entry is vacant.
    pub fn or_insert_with<V, F: FnOnce() -> V>(self, map: &mut ArrayMap<V>, default: F) -> (r:
        &mut V)
        requires
            old(map).wf(),
            self.wf_for(*old(map)),
            !self.is_occupied() ==> old(map)@.len() < old(map).spec_capacity(),
            !self.is_occupied() ==> call_requires(default, ()),
        ensures
            final(map).wf(),
            final(map).spec_capacity() == old(map).spec_capacity(),
            final(map)@ == spec_insert(old(map)@, self.spec_key(), *final(r)),
            self.is_occupied() ==> spec_get(old(map)@, self.spec_key()) == Some(*r),
            !self.is_occupied() ==> call_ensures(default, (), *r),
    {
        match self {
            Entry::Vacant(e) => e.insert(map, default()),
            Entry::Occupied(e) => e.into_mut(map),
        }
    }

    /// Provides access to an occupied entry before any potential inserts
    /// into the map: when the entry is occupied its value is replaced by
    /// `f` applied to it, and the entry is returned again, still matching
    /// the map, for chaining.  The closure takes the value and hands the
    /// new one back.
    pub fn and_modify<V, F: FnOnce(V) -> V>(self, map: &mut ArrayMap<V>, f: F) -> (r: Entry)
        requires
            old(map).wf(),
            self.wf_for(*old(map)),
            forall|v: V|
                spec_get(old(map)@, self.spec_key()) == Some(v) ==> call_requires(f, (v,)),
        ensures
            final(map).wf(),
            final(map).spec_capacity() == old(map).spec_capacity(),
            r.wf_for(*final(map)),
            r.spec_key() == self.spec_key(),
            r.is_occupied() == self.is_occupied(),
            !self.is_occupied() ==> final(map)@ == old(map)@,
            self.is_occupied() ==> exists|v: V, w: V|
                {
                    &&& spec_get(old(map)@, self.spec_key()) == Some(v)
                    &&& #[trigger] call_ensures(f, (v,), w)
                    &&& final(map)@ == spec_insert(old(map)@, self.spec_key(), w)
                },
    {
        match self {
            Entry::Occupied(e) => {
                let ghost s0 = map@;
                let ghost k = e.spec_key();
                let ghost i = e.spec_index();
                proof {
                    lemma_get_at_ipoint(s0, k);
                    lemma_remove_props(s0, k);
                    s0.remove_ensures(i);
                    lemma_ipoint_prefix(s0, k);
                    crate::sorted::lemma_ipoint_suffix(s0, k);
                }
                let (key, value) = map.store.remove_at(e.index);
                proof {
                    let s1 = map@;
                    assert(s1 == s0.remove(i));
                    assert(s1 == spec_remove(s0, k));
                    assert forall|j: int| 0 <= j < i implies s1[j].0 < k by {
                        assert(s1[j] == s0[j]);
                    }
                    assert forall|j: int| i <= j < s1.len() implies s1[j].0 > k by {
                        assert(s1[j] == s0[j + 1]);
                        assert(s0[i].0 < s0[j + 1].0);
                    }
                    crate::sorted::lemma_ipoint_from_bounds(s1, k, i);
                }
                let new_value = f(value);
                map.store.insert_at(e.index, key, new_value);
                proof {
                    let s1 = s0.remove(i);
                    lemma_insert_props(s1, k, new_value);
                    s1.insert_ensures(i, (k, new_value));
                    assert(map@ == s1.insert(i, (k, new_value)));
                    assert(map@ =~= s0.update(i, (k, new_value)));
                    assert(spec_insert(s0, k, new_value) == s0.update(i, (k, new_value)));
                    assert(call_ensures(f, (value,), new_value));
                    crate::sorted::lemma_ipoint_of_present_key(map@, k, i);
                }
                Entry::Occupied(e)
            },
            Entry::Vacant(e) => Entry::Vacant(e),
        }
    }

    /// Ensures a value is in the entry by inserting the value type's
    /// default if it is vacant, and returns a mutable reference to the
    /// value.  The map must have room when the entry is vacant.
    pub fn or_default<V: Default>(self, map: &mut ArrayMap<V>) -> (r: &mut V)
        requires
            old(map).wf(),
            self.wf_for(*old(map)),
            !self.is_occupied() ==> old(map)@.len() < old(map).spec_capacity(),
        ensures
            final(map).wf(),
            final(map).spec_capacity() == old(map).spec_capacity(),
            final(map)@ == spec_insert(old(map)@, self.spec_key(), *final(r)),
            self.is_occupied() ==> spec_get(old(map)@, self.spec_key()) == Some(*r),
            !self.is_occupied() ==> call_ensures(V::default, (), *r),
    {
        match self {
            Entry::Vacant(e) => e.insert(map, V::default()),
            Entry::Occupied(e) => e.into_mut(map),
        }
    }

    /// Attempts to ensure a value is in the entry by inserting the result
    /// of `default` if it is vacant; hands the key and the computed value
    /// back when that insertion would exceed the capacity.
    pub fn or_try_insert_with<V, F: FnOnce() -> V>(
        self,
        map: &mut ArrayMap<V>,
        default: F,
    ) -> (r: Result<&mut V, (i64, V)>)
        requires
            old(map).wf(),
            self.wf_for(*old(map)),
            !self.is_occupied() ==> call_requires(default, ()),
        ensures
            final(map).wf(),
            final(map).spec_capacity() == old(map).spec_capacity(),
            match r {
                Err(p) => !self.is_occupied() && old(map)@.len() == old(map).spec_capacity()
                    && p.0 == self.spec_key() && call_ensures(default, (), p.1) && final(map)@
                    == old(map)@,
                Ok(v) => final(map)@ == spec_insert(old(map)@, self.spec_key(), *final(v))
                    && (self.is_occupied() ==> spec_get(old(map)@, self.spec_key()) == Some(
                    *v,
                )) && (!self.is_occupied() ==> call_ensures(default, (), *v)),
            },
    {
        match self {
            Entry::Vacant(e) => e.try_insert(map, default()),
            Entry::Occupied(e) => Ok(e.into_mut(map)),
        }
    }
}

/// An iterator over references to the entries of an ArrayMap, in ascending
/// key order.
pub struct Iter<'a, V> {
    map: &'a ArrayMap<V>,
    pos: usize,
}

impl<'a, V> Iter<'a, V> {
    /// The entries being walked, in key order.
    pub closed spec fn entries(self) -> Seq<(i64, V)> {
        self.map@
    }

    /// How many entries have been handed out so far.
    pub closed spec fn position(self) -> int {
        self.pos as int
    }

    /// The next entry in key order, or `None` once all entries have been
    /// handed out.
    pub fn next(&mut self) -> (r: Option<&'a (i64, V)>)
        ensures
            final(self).entries() == old(self).entries(),
            match r {
                Some(e) => old(self).position() < old(self).entries().len() && *e == old(self).entries()[old(self).position()] && final(self).position() == old(self).position() + 1,
                None => old(self).position() >= old(self).entries().len() && final(self).position() == old(self).position(),
            },
    {
        if self.pos < self.map.store.len() {
            let e = self.map.store.entry_at(self.pos);
            self.pos += 1;
            Some(e)
        } else {
            None
        }
    }
}

/// An iterator over the keys of an ArrayMap, in ascending order.
pub struct Keys<'a, V> {
    map: &'a ArrayMap<V>,
    pos: usize,
}

impl<'a, V> Keys<'a, V> {
    /// The entries whose keys are being walked.
    pub closed spec fn entries(self) -> Seq<(i64, V)> {
        self.map@
    }

    /// How many keys have been handed out so far.
    pub closed spec fn position(self) -> int {
        self.pos as int
    }

    /// The next key in ascending order, or `None` once all keys have been
    /// handed out.
    pub fn next(&mut self) -> (r: Option<i64>)
        ensures
            final(self).entries() == old(self).entries(),
            match r {
                Some(k) => old(self).position() < old(self).entries().len() && k == old(self).entries()[old(self).position()].0 && final(self).position() == old(self).position() + 1,
                None => old(self).position() >= old(self).entries().len() && final(self).position() == old(self).position(),
            },
    {
        if self.pos < self.map.store.len() {
            let e = self.map.store.entry_at(self.pos);
            self.pos += 1;
            Some(e.0)
        } else {
            None
        }
    }
}

/// An iterator over references to the values of an ArrayMap, in ascending
/// key order.
pub struct Values<'a, V> {
    map: &'a ArrayMap<V>,
    pos: usize,
}

impl<'a, V> Values<'a, V> {
    /// The entries whose values are being walked.
    pub closed spec fn entries(self) -> Seq<(i64, V)> {
        self.map@
    }

    /// How many values have been handed out so far.
    pub closed spec fn position(self) -> int {
        self.pos as int
    }

    /// The next value in ascending key order, or `None` once all values
    /// have been handed out.
    pub fn next(&mut self) -> (r: Option<&'a V>)
        ensures
            final(self).entries() == old(self).entries(),
            match r {
                Some(v) => old(self).position() < old(self).entries().len() && *v == old(self).entries()[old(self).position()].1 && final(self).position() == old(self).position() + 1,
                None => old(self).position() >= old(self).entries().len() && final(self).position() == old(self).position(),
            },
    {
        if self.pos < self.map.store.len() {
            let e = self.map.store.entry_at(self.pos);
            self.pos += 1;
            Some(&e.1)
        } else {
            None
        }
    }
}

/// A consuming iterator over the entries of an ArrayMap, in ascending key
/// order.
pub struct IntoIter<V> {
    entries: Vec<(i64, V)>,
}

impl<V> IntoIter<V> {
    /// The entries not yet handed out, in key order.
    pub closed spec fn remaining(self) -> Seq<(i64, V)> {
        self.entries@
    }

    /// The next entry in key order, or `None` once all entries have been
    /// handed out.
    pub fn next(&mut self) -> (r: Option<(i64, V)>)
        ensures
            match r {
                Some(e) => old(self).remaining().len() > 0 && e == old(self).remaining()[0]
                    && final(self).remaining() == old(self).remaining().drop_first(),
                None => old(self).remaining().len() == 0 && final(self).remaining() == old(self).remaining(),
            },
    {
        if self.entries.len() > 0 {
            let e = self.entries.remove(0);
            proof {
                assert(self.entries@ =~= old(self).remaining().drop_first());
            }
            Some(e)
        } else {
            None
        }
    }
}

impl<V: Copy> ArrayMap<V> {
    /// Returns a copy of this map, entry by entry.
    pub fn copy(&self) -> (r: Self)
        requires
            self.wf(),
        ensures
            r.wf(),
            r@ == self@,
            r.spec_capacity() == self.spec_capacity(),
    {
        let mut entries: Vec<(i64, V)> = Vec::new();
        let n = self.store.len();
        let mut i: usize = 0;
        while i < n
            invariant
                n == self@.len(),
                i <= n,
                self.wf(),
                entries@ == self@.take(i as int),
            decreases n - i,
        {
            let e = *self.store.entry_at(i);
            entries.push(e);
            proof {
                assert(entries@ =~= self@.take(i + 1));
            }
            i += 1;
        }
        proof {
            assert(entries@ =~= self@);
        }
        ArrayMap { store: SortedMap::from_sorted(entries), cap: self.cap }
    }
}

} // verus!
