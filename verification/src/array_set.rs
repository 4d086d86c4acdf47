//! An array-backed, set-like data structure.
//!
//! [`ArraySet`] keeps its elements inline in a buffer of fixed capacity,
//! in strictly ascending order: it is a sorted map whose entries carry no
//! value.  Lookup is by binary search; insert and remove shift the
//! surrounding elements.

use vstd::prelude::*;

use crate::array_map::ArrayMap;
use crate::sorted::{
    entry_keys, sorted_elems, set_insert, set_remove, lemma_contains_keys, lemma_keys_sorted_iff,
    lemma_set_insert_keys, lemma_set_remove_keys, lemma_get_at_ipoint, lemma_get_some_iff,
};

verus! {

/// An array-backed, set-like data structure with a fixed capacity chosen
/// at construction time.
pub struct ArraySet {
    inner: ArrayMap<()>,
}

impl View for ArraySet {
    type V = Seq<i64>;

    closed spec fn view(&self) -> Seq<i64> {
        entry_keys(self.inner@)
    }
}

impl ArraySet {
    /// The fixed capacity the set was created with.
    pub closed spec fn spec_capacity(self) -> usize {
        self.inner.spec_capacity()
    }

    /// The set's invariant: elements strictly ascending, never more of
    /// them than the capacity.
    pub open spec fn wf(self) -> bool {
        &&& sorted_elems(self@)
        &&& self@.len() <= self.spec_capacity()
    }

    /// Creates a new empty set that can hold up to `capacity` elements.
    pub fn new(capacity: usize) -> (r: Self)
        ensures
            r.wf(),
            r@ == Seq::<i64>::empty(),
            r.spec_capacity() == capacity,
    {
        let inner = ArrayMap::new(capacity);
        proof {
            assert(entry_keys(inner@) =~= Seq::<i64>::empty());
        }
        ArraySet { inner }
    }

    /// Clears the set, removing all elements; the capacity is kept.
    pub fn clear(&mut self)
        ensures
            final(self).wf(),
            final(self)@ == Seq::<i64>::empty(),
            final(self).spec_capacity() == old(self).spec_capacity(),
    {
        self.inner.clear();
        proof {
            assert(self@ =~= Seq::<i64>::empty());
        }
    }

    /// Returns the number of elements in the set.
    pub fn len(&self) -> (n: usize)
        ensures
            n == self@.len(),
    {
        self.inner.len()
    }

    /// Returns `true` if the set contains no elements.
    pub fn is_empty(&self) -> (r: bool)
        ensures
            r == (self@.len() == 0),
    {
        self.inner.is_empty()
    }

    /// Returns the maximum number of elements the set can contain.
    pub fn capacity(&self) -> (n: usize)
        ensures
            n == self.spec_capacity(),
    {
        self.inner.capacity()
    }

    /// Returns `true` if the set contains `value`.
    pub fn contains(&self, value: &i64) -> (r: bool)
        requires
            self.wf(),
        ensures
            r == self@.contains(*value),
    {
        proof {
            lemma_keys_sorted_iff(self.inner@);
            lemma_contains_keys(self.inner@, *value);
        }
        self.inner.contains_key(value)
    }

    /// Returns a reference to the stored element equal to `value`, if it
    /// is present.
    pub fn get(&self, value: &i64) -> (r: Option<&i64>)
        requires
            self.wf(),
        ensures
            match r {
                Some(x) => *x == *value && self@.contains(*value),
                None => !self@.contains(*value),
            },
    {
        proof {
            lemma_keys_sorted_iff(self.inner@);
            lemma_contains_keys(self.inner@, *value);
            lemma_get_at_ipoint(self.inner@, *value);
        }
        match self.inner.find(*value) {
            Ok(i) => Some(&self.inner.entry_at(i).0),
            Err(_) => None,
        }
    }

    /// Attempts to insert `value`.  When the set is full the value is
    /// handed back unchanged; otherwise the result says whether the value
    /// was newly inserted (`true`) or already present (`false`, and the
    /// set is untouched).
    pub fn try_insert(&mut self, value: i64) -> (r: Result<bool, i64>)
        requires
            old(self).wf(),
        ensures
            final(self).wf(),
            final(self).spec_capacity() == old(self).spec_capacity(),
            match r {
                Err(v) => old(self)@.len() == old(self).spec_capacity() && v == value && final(self)@ == old(self)@,
                Ok(fresh) => old(self)@.len() < old(self).spec_capacity() && fresh == !old(self)@.contains(value) && final(self)@ == set_insert(old(self)@, value),
            },
    {
        proof {
            lemma_keys_sorted_iff(self.inner@);
            lemma_contains_keys(self.inner@, value);
            lemma_set_insert_keys(self.inner@, value);
            lemma_get_some_iff(self.inner@, value);
            assert(self@.len() == self.inner@.len());
        }
        match self.inner.try_insert(value, ()) {
            Ok(o) => Ok(o.is_none()),
            Err((v, ())) => Err(v),
        }
    }

    /// Inserts `value`, returning whether it was newly inserted.  The
    /// caller must leave room: unlike [`ArraySet::try_insert`] this has no
    /// graceful capacity-exceeded path.
    pub fn insert(&mut self, value: i64) -> (r: bool)
        requires
            old(self).wf(),
            old(self)@.len() < old(self).spec_capacity(),
        ensures
            final(self).wf(),
            final(self).spec_capacity() == old(self).spec_capacity(),
            r == !old(self)@.contains(value),
            final(self)@ == set_insert(old(self)@, value),
    {
        match self.try_insert(value) {
            Ok(fresh) => fresh,
            Err(_) => {
                proof {
                    assert(false);
                }
                unreached()
            },
        }
    }

    /// Removes `value` from the set and returns whether it was present.
    pub fn remove(&mut self, value: &i64) -> (r: bool)
        requires
            old(self).wf(),
        ensures
            final(self).wf(),
            final(self).spec_capacity() == old(self).spec_capacity(),
            r == old(self)@.contains(*value),
            final(self)@ == set_remove(old(self)@, *value),
    {
        proof {
            lemma_keys_sorted_iff(self.inner@);
            lemma_contains_keys(self.inner@, *value);
            lemma_set_remove_keys(self.inner@, *value);
            lemma_get_some_iff(self.inner@, *value);
        }
        self.inner.remove(value).is_some()
    }

    /// Gets an iterator over the elements of the set, in ascending order.
    pub fn iter(&self) -> (r: Iter<'_>)
        ensures
            r.elements() == self@,
            r.position() == 0,
    {
        Iter { set: self, pos: 0 }
    }

    /// Turns the set into a consuming iterator over its elements, in
    /// ascending order.
    pub fn into_iter(self) -> (r: IntoIter)
        ensures
            r.remaining() == self@,
    {
        IntoIter { entries: self.inner.into_entries() }
    }
}

impl ArraySet {
    /// Returns a copy of this set, element by element.
    pub fn copy(&self) -> (r: Self)
        requires
            self.wf(),
        ensures
            r.wf(),
            r@ == self@,
            r.spec_capacity() == self.spec_capacity(),
    {
        proof {
            lemma_keys_sorted_iff(self.inner@);
        }
        ArraySet { inner: self.inner.copy() }
    }
}

/// An iterator over the elements of an ArraySet, in ascending order.
pub struct Iter<'a> {
    set: &'a ArraySet,
    pos: usize,
}

impl<'a> Iter<'a> {
    /// The elements being walked, in ascending order.
    pub closed spec fn elements(self) -> Seq<i64> {
        self.set@
    }

    /// How many elements have been handed out so far.
    pub closed spec fn position(self) -> int {
        self.pos as int
    }

    /// The next element in ascending order, or `None` once all elements
    /// have been handed out.
    pub fn next(&mut self) -> (r: Option<i64>)
        ensures
            final(self).elements() == old(self).elements(),
            match r {
                Some(v) => old(self).position() < old(self).elements().len() && v == old(self).elements()[old(self).position()] && final(self).position() == old(self).position() + 1,
                None => old(self).position() >= old(self).elements().len() && final(self).position() == old(self).position(),
            },
    {
        if self.pos < self.set.inner.len() {
            let e = self.set.inner.entry_at(self.pos);
            self.pos += 1;
            Some(e.0)
        } else {
            None
        }
    }
}

/// A consuming iterator over the elements of an ArraySet, in ascending
/// order.
pub struct IntoIter {
    entries: Vec<(i64, ())>,
}

impl IntoIter {
    /// The elements not yet handed out, in ascending order.
    pub closed spec fn remaining(self) -> Seq<i64> {
        entry_keys(self.entries@)
    }

    /// The next element in ascending order, or `None` once all elements
    /// have been handed out.
    pub fn next(&mut self) -> (r: Option<i64>)
        ensures
            match r {
                Some(v) => old(self).remaining().len() > 0 && v == old(self).remaining()[0]
                    && final(self).remaining() == old(self).remaining().drop_first(),
                None => old(self).remaining().len() == 0 && final(self).remaining() == old(self).remaining(),
            },
    {
        if self.entries.len() > 0 {
            let e = self.entries.remove(0);
            proof {
                assert(entry_keys(self.entries@) =~= old(self).remaining().drop_first());
            }
            Some(e.0)
        } else {
            None
        }
    }
}

} // verus!
