//! A map that starts on the stack but automatically moves to the heap.
//!
//! [`TinyMap`] presents the same sorted-map interface as
//! [`crate::array_map::ArrayMap`], but instead of failing when an insert
//! would exceed the fixed capacity it moves all entries, once and for all,
//! into the unbounded [`crate::sorted_map::SortedMap`] representation and
//! carries on there.  Promotion is one-directional: a promoted map never
//! returns to the fixed representation (clearing the map builds a fresh
//! fixed one).

use vstd::prelude::*;

use crate::array_map::ArrayMap;
use crate::sorted_map::SortedMap;
use crate::sorted::{
    has_key, spec_get, ipoint, spec_insert, spec_remove, lemma_insert_props, lemma_get_at_ipoint,
};

verus! {

/// A map that starts on the stack but automatically moves to the heap the
/// first time an insert finds the fixed representation full.
pub enum TinyMap<V> {
    /// The entries still live in the fixed-capacity representation.
    Stack(ArrayMap<V>),
    /// The entries have moved to the unbounded representation; the fixed
    /// capacity they outgrew is kept for reporting.
    Heap(SortedMap<V>, usize),
}

impl<V> View for TinyMap<V> {
    type V = Seq<(i64, V)>;

    open spec fn view(&self) -> Seq<(i64, V)> {
        match self {
            TinyMap::Stack(m) => m@,
            TinyMap::Heap(m, _) => m@,
        }
    }
}

impl<V> TinyMap<V> {
    /// The ordering invariant of whichever representation is active.
    pub open spec fn wf(self) -> bool {
        match self {
            TinyMap::Stack(m) => m.wf(),
            TinyMap::Heap(m, _) => m.wf(),
        }
    }

    /// The fixed capacity the map was created with; it only bounds the map
    /// while the fixed representation is active.
    pub open spec fn spec_capacity(self) -> usize {
        match self {
            TinyMap::Stack(m) => m.spec_capacity(),
            TinyMap::Heap(_, c) => c,
        }
    }

    /// Whether the map has been promoted to the unbounded representation.
    pub open spec fn is_heap(self) -> bool {
        self matches TinyMap::Heap(..)
    }

    /// Creates a new empty map that holds up to `capacity` entries before
    /// moving to the heap.
    pub fn new(capacity: usize) -> (r: Self)
        ensures
            r.wf(),
            r@ == Seq::<(i64, V)>::empty(),
            r.spec_capacity() == capacity,
            !r.is_heap(),
    {
        TinyMap::Stack(ArrayMap::new(capacity))
    }

    /// Clears the map, removing all elements and returning to the fixed
    /// representation.
    pub fn clear(&mut self)
        ensures
            final(self).wf(),
            final(self)@ == Seq::<(i64, V)>::empty(),
            final(self).spec_capacity() == old(self).spec_capacity(),
            !final(self).is_heap(),
    {
        let cap = self.capacity();
        *self = TinyMap::Stack(ArrayMap::new(cap));
    }

    /// Returns the number of entries in the map.
    pub fn len(&self) -> (n: usize)
        ensures
            n == self@.len(),
    {
        match self {
            TinyMap::Stack(m) => m.len(),
            TinyMap::Heap(m, _) => m.len(),
        }
    }

    /// Returns `true` if the map contains no entries.
    pub fn is_empty(&self) -> (r: bool)
        ensures
            r == (self@.len() == 0),
    {
        self.len() == 0
    }

    /// Returns the number of entries the map can hold before moving to the
    /// heap.
    pub fn capacity(&self) -> (n: usize)
        ensures
            n == self.spec_capacity(),
    {
        match self {
            TinyMap::Stack(m) => m.capacity(),
            TinyMap::Heap(_, c) => *c,
        }
    }

    /// Inserts a key-value pair, returning the previous value stored under
    /// the key, if any.  Never fails: an insert that finds the fixed
    /// representation full first moves every entry to the unbounded
    /// representation, then inserts there.
    pub fn insert(&mut self, key: i64, value: V) -> (r: Option<V>)
        requires
            old(self).wf(),
        ensures
            final(self).wf(),
            final(self).spec_capacity() == old(self).spec_capacity(),
            final(self)@ == spec_insert(old(self)@, key, value),
            r == spec_get(old(self)@, key),
            final(self).is_heap() == (old(self).is_heap() || old(self)@.len() == old(self).spec_capacity()),
    {
        let full_stack = match &*self {
            TinyMap::Stack(m) => m.len() == m.capacity(),
            TinyMap::Heap(..) => false,
        };
        if full_stack {
            let cap = self.capacity();
            let mut tmp = TinyMap::Stack(ArrayMap::new(0));
            core::mem::swap(self, &mut tmp);
            match tmp {
                TinyMap::Stack(m) => {
                    let entries = m.into_entries();
                    let mut heap = SortedMap::from_sorted(entries);
                    let r = heap.insert(key, value);
                    *self = TinyMap::Heap(heap, cap);
                    r
                },
                TinyMap::Heap(..) => {
                    proof {
                        assert(false);
                    }
                    unreached()
                },
            }
        } else {
            match self {
                TinyMap::Stack(m) => m.insert(key, value),
                TinyMap::Heap(m, _) => m.insert(key, value),
            }
        }
    }

    /// Returns `true` if the map contains an entry for `key`.
    pub fn contains_key(&self, key: &i64) -> (r: bool)
        requires
            self.wf(),
        ensures
            r == has_key(self@, *key),
    {
        match self {
            TinyMap::Stack(m) => m.contains_key(key),
            TinyMap::Heap(m, _) => m.contains_key(key),
        }
    }

    /// Returns a reference to the value stored under `key`, if any.
    pub fn get(&self, key: &i64) -> (r: Option<&V>)
        requires
            self.wf(),
        ensures
            match r {
                Some(v) => spec_get(self@, *key) == Some(*v) && has_key(self@, *key),
                None => spec_get::<V>(self@, *key) is None && !has_key(self@, *key),
            },
    {
        match self {
            TinyMap::Stack(m) => m.get(key),
            TinyMap::Heap(m, _) => m.get(key),
        }
    }

    /// Returns a mutable reference to the value stored under `key`, if
    /// any; the key itself cannot be changed through it.
    pub fn get_mut(&mut self, key: &i64) -> (r: Option<&mut V>)
        requires
            old(self).wf(),
        ensures
            final(self).wf(),
            final(self).spec_capacity() == old(self).spec_capacity(),
            final(self).is_heap() == old(self).is_heap(),
            match r {
                None => !has_key(old(self)@, *key) && final(self)@ == old(self)@,
                Some(v) => has_key(old(self)@, *key) && spec_get(old(self)@, *key) == Some(*v)
                    && final(self)@ == old(self)@.update(
                        ipoint(old(self)@, *key),
                        (*key, *final(v)),
                    ),
            },
    {
        match self {
            TinyMap::Stack(m) => m.get_mut(key),
            TinyMap::Heap(m, _) => m.get_mut(key),
        }
    }

    /// Removes the entry stored under `key`, if any, and returns its
    /// value.  Removal never demotes a promoted map back to the fixed
    /// representation.
    pub fn remove(&mut self, key: &i64) -> (r: Option<V>)
        requires
            old(self).wf(),
        ensures
            final(self).wf(),
            final(self).spec_capacity() == old(self).spec_capacity(),
            final(self).is_heap() == old(self).is_heap(),
            final(self)@ == spec_remove(old(self)@, *key),
            r == spec_get(old(self)@, *key),
    {
        match self {
            TinyMap::Stack(m) => m.remove(key),
            TinyMap::Heap(m, _) => m.remove(key),
        }
    }

    /// Gets an iterator over the entries of the map, in ascending key
    /// order.
    pub fn iter(&self) -> (r: Iter<'_, V>)
        ensures
            r.entries() == self@,
            r.position() == 0,
    {
        Iter { map: self, pos: 0 }
    }

    /// Gets an iterator over the keys of the map, in ascending order.
    pub fn keys(&self) -> (r: Keys<'_, V>)
        ensures
            r.entries() == self@,
            r.position() == 0,
    {
        Keys { map: self, pos: 0 }
    }

    /// Gets an iterator over the values of the map, in ascending key
    /// order.
    pub fn values(&self) -> (r: Values<'_, V>)
        ensures
            r.entries() == self@,
            r.position() == 0,
    {
        Values { map: self, pos: 0 }
    }

    /// Turns the map into a consuming iterator over its entries, in
    /// ascending key order.
    pub fn into_iter(self) -> (r: IntoIter<V>)
        ensures
            r.remaining() == self@,
    {
        match self {
            TinyMap::Stack(m) => IntoIter { entries: m.into_entries() },
            TinyMap::Heap(m, _) => IntoIter { entries: m.into_entries() },
        }
    }

    /// Binary search: the position of `key`, or the position at which it
    /// would be inserted.
    pub(crate) fn find(&self, key: i64) -> (r: Result<usize, usize>)
        requires
            self.wf(),
        ensures
            match r {
                Ok(i) => i < self@.len() && self@[i as int].0 == key && i as int == ipoint(
                    self@,
                    key,
                ) && has_key(self@, key),
                Err(i) => i as int == ipoint(self@, key) && !has_key(self@, key),
            },
    {
        match self {
            TinyMap::Stack(m) => m.find(key),
            TinyMap::Heap(m, _) => m.find(key),
        }
    }

    /// Hands the entries out, still in ascending key order; the map is
    /// consumed.
    pub(crate) fn into_entries(self) -> (r: Vec<(i64, V)>)
        ensures
            r@ == self@,
    {
        match self {
            TinyMap::Stack(m) => m.into_entries(),
            TinyMap::Heap(m, _) => m.into_entries(),
        }
    }

    /// The entry at position `i` in key order; with [`TinyMap::len`]
    /// this walks the map in ascending key order.
    pub fn entry_at(&self, i: usize) -> (r: &(i64, V))
        requires
            i < self@.len(),
        ensures
            *r == self@[i as int],
    {
        match self {
            TinyMap::Stack(m) => m.entry_at(i),
            TinyMap::Heap(m, _) => m.entry_at(i),
        }
    }

    /// A mutable reference to the value at position `i` in key order;
    /// with [`TinyMap::len`] this mutates the values in ascending key
    /// order, in place of an iterator over mutable references.
    pub fn value_at_mut(&mut self, i: usize) -> (r: &mut V)
        requires
            old(self).wf(),
            i < old(self)@.len(),
        ensures
            final(self).wf(),
            final(self).spec_capacity() == old(self).spec_capacity(),
            final(self).is_heap() == old(self).is_heap(),
            *r == old(self)@[i as int].1,
            final(self)@ == old(self)@.update(i as int, (old(self)@[i as int].0, *final(r))),
    {
        match self {
            TinyMap::Stack(m) => m.value_at_mut(i),
            TinyMap::Heap(m, _) => m.value_at_mut(i),
        }
    }

    /// Removes and returns the entry at position `i`.
    pub(crate) fn remove_at(&mut self, i: usize) -> (r: (i64, V))
        requires
            old(self).wf(),
            i < old(self)@.len(),
        ensures
            final(self).wf(),
            final(self).spec_capacity() == old(self).spec_capacity(),
            final(self).is_heap() == old(self).is_heap(),
            final(self)@ == old(self)@.remove(i as int),
            r == old(self)@[i as int],
    {
        proof {
            self@.remove_ensures(i as int);
        }
        match self {
            TinyMap::Stack(m) => m.remove_at(i),
            TinyMap::Heap(m, _) => m.remove_at(i),
        }
    }

    /// Gets the given key's corresponding entry for in-place manipulation:
    /// the outcome of a single binary search, reusable by the entry's
    /// methods without searching again.
    pub fn entry(&self, key: i64) -> (r: Entry)
        requires
            self.wf(),
        ensures
            r.wf_for(*self),
            r.spec_key() == key,
            r.is_occupied() == has_key(self@, key),
    {
        let found = match self {
            TinyMap::Stack(m) => m.find(key),
            TinyMap::Heap(m, _) => m.find(key),
        };
        match found {
            Ok(i) => Entry::Occupied(OccupiedEntry { index: i, key }),
            Err(i) => Entry::Vacant(VacantEntry { index: i, key }),
        }
    }

    /// Inserts a fresh entry at its insertion point.  The entry path never
    /// promotes: in the fixed representation the caller must leave room.
    pub(crate) fn insert_at(&mut self, i: usize, key: i64, value: V)
        requires
            old(self).wf(),
            i as int == ipoint(old(self)@, key),
            !has_key(old(self)@, key),
            !old(self).is_heap() ==> old(self)@.len() < old(self).spec_capacity(),
        ensures
            final(self).wf(),
            final(self).spec_capacity() == old(self).spec_capacity(),
            final(self).is_heap() == old(self).is_heap(),
            final(self)@ == spec_insert(old(self)@, key, value),
    {
        match self {
            TinyMap::Stack(m) => m.insert_at(i, key, value),
            TinyMap::Heap(m, _) => {
                proof {
                    lemma_insert_props(m@, key, value);
                }
                m.insert_at(i, key, value);
            },
        }
    }
}

/// A view into a single entry in a TinyMap, which may either be vacant or
/// occupied: the recorded outcome of one binary search.  It stays valid as
/// long as the map is not modified by anything but the entry's own
/// methods.  The entry path never promotes the map to the heap
/// representation; only the plain insert path does.
pub enum Entry {
    /// The key is absent from the map.
    Vacant(VacantEntry),
    /// The key is present in the map.
    Occupied(OccupiedEntry),
}

/// An entry in a TinyMap that is vacant: the searched key together with
/// the position at which it would have to be inserted to keep the order.
pub struct VacantEntry {
    index: usize,
    key: i64,
}

/// An entry in a TinyMap that is occupied: the searched key together with
/// the position at which it stands.
pub struct OccupiedEntry {
    index: usize,
    key: i64,
}

impl VacantEntry {
    /// The key this entry was searched with.
    pub closed spec fn spec_key(self) -> i64 {
        self.key
    }

    /// The insertion position recorded by the search.
    pub closed spec fn spec_index(self) -> int {
        self.index as int
    }

    /// The entry matches the map it was produced from.
    pub open spec fn wf_for<V>(self, m: TinyMap<V>) -> bool {
        &&& self.spec_index() == ipoint(m@, self.spec_key())
        &&& !has_key(m@, self.spec_key())
    }
}

impl OccupiedEntry {
    /// The key this entry was searched with.
    pub closed spec fn spec_key(self) -> i64 {
        self.key
    }

    /// The position recorded by the search.
    pub closed spec fn spec_index(self) -> int {
        self.index as int
    }

    /// The entry matches the map it was produced from.
    pub open spec fn wf_for<V>(self, m: TinyMap<V>) -> bool {
        &&& 0 <= self.spec_index() < m@.len()
        &&& m@[self.spec_index()].0 == self.spec_key()
        &&& self.spec_index() == ipoint(m@, self.spec_key())
    }
}

impl Entry {
    /// The key this entry was searched with.
    pub open spec fn spec_key(self) -> i64 {
        match self {
            Entry::Vacant(e) => e.spec_key(),
            Entry::Occupied(e) => e.spec_key(),
        }
    }

    /// Whether the key was found.
    pub open spec fn is_occupied(self) -> bool {
        self matches Entry::Occupied(_)
    }

    /// The entry matches the map it was produced from.
    pub open spec fn wf_for<V>(self, m: TinyMap<V>) -> bool {
        match self {
            Entry::Vacant(e) => e.wf_for(m),
            Entry::Occupied(e) => e.wf_for(m),
        }
    }

    /// Returns this entry's key.
    pub fn key(&self) -> (k: i64)
        ensures
            k == self.spec_key(),
    {
        match self {
            Entry::Vacant(e) => e.key,
            Entry::Occupied(e) => e.key,
        }
    }

    /// Ensures a value is in the entry by inserting `default` if it is
    /// vacant, and returns a mutable reference to the value.  The entry
    /// path never promotes, so a map still in the fixed representation
    /// must have room when the entry is vacant.
    pub fn or_insert<V>(self, map: &mut TinyMap<V>, default: V) -> (r: &mut V)
        requires
            old(map).wf(),
            self.wf_for(*old(map)),
            !self.is_occupied() && !old(map).is_heap() ==> old(map)@.len() < old(map).spec_capacity(),
        ensures
            final(map).wf(),
            final(map).spec_capacity() == old(map).spec_capacity(),
            final(map).is_heap() == old(map).is_heap(),
            final(map)@ == spec_insert(old(map)@, self.spec_key(), *final(r)),
            self.is_occupied() ==> spec_get(old(map)@, self.spec_key()) == Some(*r),
            !self.is_occupied() ==> *r == default,
    {
        match self {
            Entry::Occupied(e) => {
                proof {
                    lemma_get_at_ipoint(map@, e.spec_key());
                    let s = map@;
                    let k = e.spec_key();
                    assert forall|w: V| s.update(e.spec_index(), (s[e.spec_index()].0, w))
                        == spec_insert(s, k, w) by {
                        assert(has_key(s, k));
                    }
                }
                map.value_at_mut(e.index)
            },
            Entry::Vacant(e) => {
                let ghost s0 = map@;
                let ghost k = e.spec_key();
                proof {
                    crate::sorted::lemma_ipoint_prefix(s0, k);
                    lemma_insert_props(s0, k, default);
                }
                map.insert_at(e.index, e.key, default);
                proof {
                    assert forall|w: V|
                        spec_insert(s0, k, default).update(e.spec_index(), (k, w)) == spec_insert(
                            s0,
                            k,
                            w,
                        ) by {
                        s0.insert_ensures(e.spec_index(), (k, default));
                        s0.insert_ensures(e.spec_index(), (k, w));
                        assert(spec_insert(s0, k, default).update(e.spec_index(), (k, w))
                            =~= spec_insert(s0, k, w));
                    }
                }
                map.value_at_mut(e.index)
            },
        }
    }

    /// Ensures a value is in the entry by inserting the result of
    /// `default` if it is vacant, and returns a mutable reference to the
    /// value; `default` is only run when the entry is vacant.  The entry
    /// path never promotes, so a map still in the fixed representation
    /// must have room when the entry is vacant.
    pub fn or_insert_with<V, F: FnOnce() -> V>(self, map: &mut TinyMap<V>, default: F) -> (r:
        &mut V)
        requires
            old(map).wf(),
            self.wf_for(*old(map)),
            !self.is_occupied() && !old(map).is_heap() ==> old(map)@.len() < old(map).spec_capacity(),
            !self.is_occupied() ==> call_requires(default, ()),
        ensures
            final(map).wf(),
            final(map).spec_capacity() == old(map).spec_capacity(),
            final(map).is_heap() == old(map).is_heap(),
            final(map)@ == spec_insert(old(map)@, self.spec_key(), *final(r)),
            self.is_occupied() ==> spec_get(old(map)@, self.spec_key()) == Some(*r),
            !self.is_occupied() ==> call_ensures(default, (), *r),
    {
        match self {
            Entry::Occupied(e) => {
                proof {
                    lemma_get_at_ipoint(map@, e.spec_key());
                    let s = map@;
                    let k = e.spec_key();
                    assert forall|w: V| s.update(e.spec_index(), (s[e.spec_index()].0, w))
                        == spec_insert(s, k, w) by {
                        assert(has_key(s, k));
                    }
                }
                map.value_at_mut(e.index)
            },
            Entry::Vacant(e) => {
                let v = default();
                Entry::Vacant(e).or_insert(map, v)
            },
        }
    }

    /// Provides access to an occupied entry before any potential inserts
    /// into the map: when the entry is occupied its value is replaced by
    /// `f` applied to it, and the entry is returned again, still matching
    /// the map, for chaining.  The closure takes the value and hands the
    /// new one back.
    pub fn and_modify<V, F: FnOnce(V) -> V>(self, map: &mut TinyMap<V>, f: F) -> (r: Entry)
        requires
            old(map).wf(),
            self.wf_for(*old(map)),
            forall|v: V|
                spec_get(old(map)@, self.spec_key()) == Some(v) ==> call_requires(f, (v,)),
        ensures
            final(map).wf(),
            final(map).spec_capacity() == old(map).spec_capacity(),
            final(map).is_heap() == old(map).is_heap(),
            r.wf_for(*final(map)),
            r.spec_key() == self.spec_key(),
            r.is_occupied() == self.is_occupied(),
            !self.is_occupied() ==> final(map)@ == old(map)@,
            self.is_occupied() ==> exists|v: V, w: V|
                {
                    &&& spec_get(old(map)@, self.spec_key()) == Some(v)
                    &&& #[trigger] call_ensures(f, (v,), w)
                    &&& final(map)@ == spec_insert(old(map)@, self.spec_key(), w)
                },
    {
        match self {
            Entry::Occupied(e) => {
                let ghost s0 = map@;
                let ghost k = e.spec_key();
                let ghost i = e.spec_index();
                proof {
                    lemma_get_at_ipoint(s0, k);
                    crate::sorted::lemma_remove_props(s0, k);
                    s0.remove_ensures(i);
                    crate::sorted::lemma_ipoint_prefix(s0, k);
                    crate::sorted::lemma_ipoint_suffix(s0, k);
                }
                let (key, value) = map.remove_at(e.index);
                proof {
                    let s1 = map@;
                    assert(s1 == s0.remove(i));
                    assert forall|j: int| 0 <= j < i implies s1[j].0 < k by {
                        assert(s1[j] == s0[j]);
                    }
                    assert forall|j: int| i <= j < s1.len() implies s1[j].0 > k by {
                        assert(s1[j] == s0[j + 1]);
                        assert(s0[i].0 < s0[j + 1].0);
                    }
                    crate::sorted::lemma_ipoint_from_bounds(s1, k, i);
                }
                let new_value = f(value);
                map.insert_at(e.index, key, new_value);
                proof {
                    let s1 = s0.remove(i);
                    lemma_insert_props(s1, k, new_value);
                    s1.insert_ensures(i, (k, new_value));
                    assert(map@ == s1.insert(i, (k, new_value)));
                    assert(map@ =~= s0.update(i, (k, new_value)));
                    assert(spec_insert(s0, k, new_value) == s0.update(i, (k, new_value)));
                    assert(call_ensures(f, (value,), new_value));
                    crate::sorted::lemma_ipoint_of_present_key(map@, k, i);
                }
                Entry::Occupied(e)
            },
            Entry::Vacant(e) => Entry::Vacant(e),
        }
    }

    /// Ensures a value is in the entry by inserting the value type's
    /// default if it is vacant, and returns a mutable reference to the
    /// value.  The entry path never promotes, so a map still in the fixed
    /// representation must have room when the entry is vacant.
    pub fn or_default<V: Default>(self, map: &mut TinyMap<V>) -> (r: &mut V)
        requires
            old(map).wf(),
            self.wf_for(*old(map)),
            !self.is_occupied() && !old(map).is_heap() ==> old(map)@.len() < old(map).spec_capacity(),
        ensures
            final(map).wf(),
            final(map).spec_capacity() == old(map).spec_capacity(),
            final(map).is_heap() == old(map).is_heap(),
            final(map)@ == spec_insert(old(map)@, self.spec_key(), *final(r)),
            self.is_occupied() ==> spec_get(old(map)@, self.spec_key()) == Some(*r),
            !self.is_occupied() ==> call_ensures(V::default, (), *r),
    {
        self.or_insert(map, V::default())
    }
}

/// An iterator over references to the entries of a TinyMap, in ascending
/// key order.
pub struct Iter<'a, V> {
    map: &'a TinyMap<V>,
    pos: usize,
}

impl<'a, V> Iter<'a, V> {
    /// The entries being walked, in key order.
    pub closed spec fn entries(self) -> Seq<(i64, V)> {
        self.map@
    }

    /// How many entries have been handed out so far.
    pub closed spec fn position(self) -> int {
        self.pos as int
    }

    /// The next entry in key order, or `None` once all entries have been
    /// handed out.
    pub fn next(&mut self) -> (r: Option<&'a (i64, V)>)
        ensures
            final(self).entries() == old(self).entries(),
            match r {
                Some(e) => old(self).position() < old(self).entries().len() && *e == old(self).entries()[old(self).position()] && final(self).position() == old(self).position() + 1,
                None => old(self).position() >= old(self).entries().len() && final(self).position() == old(self).position(),
            },
    {
        if self.pos < self.map.len() {
            let e = self.map.entry_at(self.pos);
            self.pos += 1;
            Some(e)
        } else {
            None
        }
    }
}

/// An iterator over the keys of a TinyMap, in ascending order.
pub struct Keys<'a, V> {
    map: &'a TinyMap<V>,
    pos: usize,
}

impl<'a, V> Keys<'a, V> {
    /// The entries whose keys are being walked.
    pub closed spec fn entries(self) -> Seq<(i64, V)> {
        self.map@
    }

    /// How many keys have been handed out so far.
    pub closed spec fn position(self) -> int {
        self.pos as int
    }

    /// The next key in ascending order, or `None` once all keys have been
    /// handed out.
    pub fn next(&mut self) -> (r: Option<i64>)
        ensures
            final(self).entries() == old(self).entries(),
            match r {
                Some(k) => old(self).position() < old(self).entries().len() && k == old(self).entries()[old(self).position()].0 && final(self).position() == old(self).position() + 1,
                None => old(self).position() >= old(self).entries().len() && final(self).position() == old(self).position(),
            },
    {
        if self.pos < self.map.len() {
            let e = self.map.entry_at(self.pos);
            self.pos += 1;
            Some(e.0)
        } else {
            None
        }
    }
}

/// An iterator over references to the values of a TinyMap, in ascending
/// key order.
pub struct Values<'a, V> {
    map: &'a TinyMap<V>,
    pos: usize,
}

impl<'a, V> Values<'a, V> {
    /// The entries whose values are being walked.
    pub closed spec fn entries(self) -> Seq<(i64, V)> {
        self.map@
    }

    /// How many values have been handed out so far.
    pub closed spec fn position(self) -> int {
        self.pos as int
    }

    /// The next value in ascending key order, or `None` once all values
    /// have been handed out.
    pub fn next(&mut self) -> (r: Option<&'a V>)
        ensures
            final(self).entries() == old(self).entries(),
            match r {
                Some(v) => old(self).position() < old(self).entries().len() && *v == old(self).entries()[old(self).position()].1 && final(self).position() == old(self).position() + 1,
                None => old(self).position() >= old(self).entries().len() && final(self).position() == old(self).position(),
            },
    {
        if self.pos < self.map.len() {
            let e = self.map.entry_at(self.pos);
            self.pos += 1;
            Some(&e.1)
        } else {
            None
        }
    }
}

/// A consuming iterator over the entries of a TinyMap, in ascending key
/// order.
pub struct IntoIter<V> {
    entries: Vec<(i64, V)>,
}

impl<V> IntoIter<V> {
    /// The entries not yet handed out, in key order.
    pub closed spec fn remaining(self) -> Seq<(i64, V)> {
        self.entries@
    }

    /// The next entry in key order, or `None` once all entries have been
    /// handed out.
    pub fn next(&mut self) -> (r: Option<(i64, V)>)
        ensures
            match r {
                Some(e) => old(self).remaining().len() > 0 && e == old(self).remaining()[0]
                    && final(self).remaining() == old(self).remaining().drop_first(),
                None => old(self).remaining().len() == 0 && final(self).remaining() == old(self).remaining(),
            },
    {
        if self.entries.len() > 0 {
            let e = self.entries.remove(0);
            proof {
                assert(self.entries@ =~= old(self).remaining().drop_first());
            }
            Some(e)
        } else {
            None
        }
    }
}

} // verus!
