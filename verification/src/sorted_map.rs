//! The unbounded sorted store: a heap-allocated vector of key-value pairs
//! kept in strictly ascending key order.
//!
//! [`crate::array_map::ArrayMap`] wraps this store with a fixed capacity,
//! and [`crate::tiny_map::TinyMap`] uses it directly as the promoted,
//! no-longer-bounded representation.  All lookups are by binary search;
//! insert and remove shift the surrounding entries with an explicit
//! index-based loop over the contiguous buffer.

use vstd::prelude::*;
use vstd::pervasive::VecAdditionalExecFns;

use crate::sorted::{
    sorted_keys, has_key, spec_get, ipoint, spec_insert, spec_remove,
    lemma_ipoint_prefix, lemma_ipoint_suffix, lemma_get_at_ipoint, lemma_get_some_iff,
    lemma_ipoint_of_present_key, lemma_insert_props, lemma_remove_props,
};

verus! {

/// A sorted key-value store with no capacity bound.
pub struct SortedMap<V> {
    entries: Vec<(i64, V)>,
}

impl<V> View for SortedMap<V> {
    type V = Seq<(i64, V)>;

    closed spec fn view(&self) -> Seq<(i64, V)> {
        self.entries@
    }
}

impl<V> SortedMap<V> {
    /// The ordering invariant: entries carry strictly ascending keys.
    pub open spec fn wf(self) -> bool {
        sorted_keys(self@)
    }

    /// Creates a new empty store.
    pub fn new() -> (r: Self)
        ensures
            r.wf(),
            r@ == Seq::<(i64, V)>::empty(),
    {
        SortedMap { entries: Vec::new() }
    }

    /// Builds a store from entries already in strictly ascending key order.
    pub fn from_sorted(entries: Vec<(i64, V)>) -> (r: Self)
        requires
            sorted_keys(entries@),
        ensures
            r.wf(),
            r@ == entries@,
    {
        SortedMap { entries }
    }

    /// Hands the backing entries out, still sorted.
    pub fn into_entries(self) -> (r: Vec<(i64, V)>)
        ensures
            r@ == self@,
    {
        let SortedMap { entries } = self;
        entries
    }

    /// The number of entries in the store.
    pub fn len(&self) -> (n: usize)
        ensures
            n == self@.len(),
    {
        self.entries.len()
    }

    /// Whether the store holds no entries.
    pub fn is_empty(&self) -> (r: bool)
        ensures
            r == (self@.len() == 0),
    {
        self.entries.len() == 0
    }

    /// Removes all entries.
    pub fn clear(&mut self)
        ensures
            final(self).wf(),
            final(self)@ == Seq::<(i64, V)>::empty(),
    {
        self.entries.clear();
    }

    /// The entry at position `i` in key order.
    pub fn entry_at(&self, i: usize) -> (r: &(i64, V))
        requires
            i < self@.len(),
        ensures
            *r == self@[i as int],
    {
        &self.entries[i]
    }

    /// Binary search over the sorted entries: `Ok` with the position of the
    /// entry carrying `key`, or `Err` with the position at which `key`
    /// would have to be inserted to preserve the order.
    pub fn find(&self, key: i64) -> (r: Result<usize, usize>)
        requires
            self.wf(),
        ensures
            match r {
                Ok(i) => i < self@.len() && self@[i as int].0 == key && i as int == ipoint(
                    self@,
                    key,
                ) && has_key(self@, key),
                Err(i) => i as int == ipoint(self@, key) && !has_key(self@, key),
            },
    {
        let mut lo: usize = 0;
        let mut hi: usize = self.entries.len();
        while lo < hi
            invariant
                self.wf(),
                lo <= hi <= self@.len(),
                forall|j: int| 0 <= j < lo ==> self@[j].0 < key,
                forall|j: int| hi <= j < self@.len() ==> self@[j].0 > key,
            decreases hi - lo,
        {
            let mid = lo + (hi - lo) / 2;
            let k = self.entries[mid].0;
            if k < key {
                assert forall|j: int| 0 <= j < mid + 1 implies self@[j].0 < key by {
                    if j < mid {
                        assert(self@[j].0 < self@[mid as int].0);
                    }
                }
                lo = mid + 1;
            } else if k > key {
                assert forall|j: int| mid <= j < self@.len() implies self@[j].0 > key by {
                    if j > mid {
                        assert(self@[mid as int].0 < self@[j].0);
                    }
                }
                hi = mid;
            } else {
                proof {
                    lemma_ipoint_of_present_key(self@, key, mid as int);
                }
                return Ok(mid);
            }
        }
        proof {
            lemma_ipoint_prefix(self@, key);
            lemma_ipoint_suffix(self@, key);
            let ip = ipoint(self@, key);
            if ip < lo {
                assert(self@[ip].0 < key);
                assert(self@[ip].0 >= key);
            }
            if ip > lo {
                assert(self@[lo as int].0 < key);
                assert(self@[lo as int].0 > key);
            }
            if has_key(self@, key) {
                let i = choose|i: int| 0 <= i < self@.len() && self@[i].0 == key;
                assert(false);
            }
        }
        Err(lo)
    }

    /// Whether the store holds an entry under `key`.
    pub fn contains_key(&self, key: &i64) -> (r: bool)
        requires
            self.wf(),
        ensures
            r == has_key(self@, *key),
    {
        self.find(*key).is_ok()
    }

    /// A reference to the value stored under `key`, if any.
    pub fn get(&self, key: &i64) -> (r: Option<&V>)
        requires
            self.wf(),
        ensures
            match r {
                Some(v) => spec_get(self@, *key) == Some(*v) && has_key(self@, *key),
                None => spec_get::<V>(self@, *key) is None && !has_key(self@, *key),
            },
    {
        proof {
            lemma_get_at_ipoint(self@, *key);
        }
        match self.find(*key) {
            Ok(i) => Some(&self.entries[i].1),
            Err(_) => None,
        }
    }

    /// A mutable reference to the value stored under `key`, if any; the key
    /// itself cannot be changed through it.
    pub fn get_mut(&mut self, key: &i64) -> (r: Option<&mut V>)
        requires
            old(self).wf(),
        ensures
            final(self).wf(),
            match r {
                None => !has_key(old(self)@, *key) && final(self)@ == old(self)@,
                Some(v) => has_key(old(self)@, *key) && spec_get(old(self)@, *key) == Some(*v)
                    && final(self)@ == old(self)@.update(
                        ipoint(old(self)@, *key),
                        (*key, *final(v)),
                    ),
            },
    {
        proof {
            lemma_get_at_ipoint(self@, *key);
            lemma_ipoint_prefix(self@, *key);
            let s = self@;
            let ip = ipoint(s, *key);
            if has_key(s, *key) {
                assert(0 <= ip < s.len());
                assert(s[ip].0 == *key);
                assert forall|w: V| sorted_keys(s.update(ip, (*key, w))) by {
                    let t = s.update(ip, (*key, w));
                    assert(t.len() == s.len());
                    assert forall|a: int, b: int| 0 <= a < b < t.len() implies t[a].0 < t[b].0 by {
                        if a == ip {
                            assert(t[a] == (*key, w));
                        } else {
                            assert(t[a] == s[a]);
                        }
                        if b == ip {
                            assert(t[b] == (*key, w));
                        } else {
                            assert(t[b] == s[b]);
                        }
                        assert(t[a].0 == s[a].0);
                        assert(t[b].0 == s[b].0);
                    }
                }
            }
        }
        match self.find(*key) {
            Ok(i) => Some(&mut self.entries[i].1),
            Err(_) => None,
        }
    }

    /// Stores `value` under `key`: overwrites in place when the key is
    /// present (returning the previous value), otherwise inserts the new
    /// entry at its insertion point, shifting later entries to the right.
    pub fn insert(&mut self, key: i64, value: V) -> (r: Option<V>)
        requires
            old(self).wf(),
        ensures
            final(self).wf(),
            final(self)@ == spec_insert(old(self)@, key, value),
            r == spec_get(old(self)@, key),
    {
        proof {
            lemma_get_at_ipoint(self@, key);
            lemma_insert_props(self@, key, value);
        }
        match self.find(key) {
            Ok(i) => {
                let mut pair = (key, value);
                self.entries.set_and_swap(i, &mut pair);
                Some(pair.1)
            },
            Err(i) => {
                self.insert_at(i, key, value);
                None
            },
        }
    }

    /// A mutable reference to the value at position `i`; the key at that
    /// position cannot be changed through it.
    pub(crate) fn value_at_mut(&mut self, i: usize) -> (r: &mut V)
        requires
            old(self).wf(),
            i < old(self)@.len(),
        ensures
            final(self).wf(),
            *r == old(self)@[i as int].1,
            final(self)@ == old(self)@.update(i as int, (old(self)@[i as int].0, *final(r))),
    {
        proof {
            let s = self@;
            let ip = i as int;
            assert forall|w: V| sorted_keys(s.update(ip, (s[ip].0, w))) by {
                let t = s.update(ip, (s[ip].0, w));
                assert forall|a: int, b: int| 0 <= a < b < t.len() implies t[a].0 < t[b].0 by {
                    if a == ip {
                        assert(t[a] == (s[ip].0, w));
                    } else {
                        assert(t[a] == s[a]);
                    }
                    if b == ip {
                        assert(t[b] == (s[ip].0, w));
                    } else {
                        assert(t[b] == s[b]);
                    }
                    assert(t[a].0 == s[a].0);
                    assert(t[b].0 == s[b].0);
                }
            }
        }
        &mut self.entries[i].1
    }

    /// Inserts a fresh entry at its insertion point, shifting the entries
    /// from that point on one position to the right.
    pub(crate) fn insert_at(&mut self, i: usize, key: i64, value: V)
        requires
            old(self).wf(),
            i as int == ipoint(old(self)@, key),
            !has_key(old(self)@, key),
        ensures
            final(self).wf(),
            final(self)@ == spec_insert(old(self)@, key, value),
    {
        proof {
            lemma_ipoint_prefix(old(self)@, key);
        }
        let ghost s0 = self@;
        let mut carry = (key, value);
        let mut j: usize = i;
        while j < self.entries.len()
            invariant
                i <= j <= s0.len(),
                self@.len() == s0.len(),
                j == i as int ==> self@ == s0 && carry == (key, value),
                j > i as int ==> carry == s0[j - 1] && self@ == s0.take(i as int) + seq![
                    (key, value),
                ] + s0.subrange(i as int, j - 1) + s0.subrange(j as int, s0.len() as int),
            decreases s0.len() - j,
        {
            let ghost pre = self@;
            let ghost carry_pre = carry;
            self.entries.set_and_swap(j, &mut carry);
            proof {
                if j == i {
                    assert(carry == s0[j as int]);
                    assert(self@ =~= s0.take(i as int) + seq![(key, value)] + s0.subrange(
                        i as int,
                        j as int,
                    ) + s0.subrange(j + 1, s0.len() as int));
                } else {
                    assert(pre[j as int] == s0[j as int]);
                    assert(carry == s0[j as int]);
                    assert(self@ =~= s0.take(i as int) + seq![(key, value)] + s0.subrange(
                        i as int,
                        j as int,
                    ) + s0.subrange(j + 1, s0.len() as int));
                }
            }
            j += 1;
        }
        self.entries.push(carry);
        proof {
            s0.insert_ensures(i as int, (key, value));
            if i as int == s0.len() as int {
                assert(self@ =~= s0.insert(i as int, (key, value)));
            } else {
                assert(carry == s0[s0.len() - 1]);
                assert(self@ =~= s0.insert(i as int, (key, value)));
            }
            lemma_insert_props(s0, key, value);
            assert(spec_insert(s0, key, value) == s0.insert(i as int, (key, value)));
        }
    }

    /// Removes the entry stored under `key`, if any, shifting the entries
    /// after it one position to the left, and returns its value.
    pub fn remove(&mut self, key: &i64) -> (r: Option<V>)
        requires
            old(self).wf(),
        ensures
            final(self).wf(),
            final(self)@ == spec_remove(old(self)@, *key),
            r == spec_get(old(self)@, *key),
    {
        proof {
            lemma_get_at_ipoint(self@, *key);
            lemma_remove_props(self@, *key);
        }
        match self.find(*key) {
            Ok(i) => {
                let pair = self.remove_at(i);
                Some(pair.1)
            },
            Err(_) => None,
        }
    }

    /// Removes and returns the entry at position `i`, closing the gap by
    /// shifting the entries after it one position to the left.
    pub(crate) fn remove_at(&mut self, i: usize) -> (r: (i64, V))
        requires
            old(self).wf(),
            i < old(self)@.len(),
        ensures
            final(self).wf(),
            final(self)@ == old(self)@.remove(i as int),
            r == old(self)@[i as int],
    {
        let ghost s0 = self@;
        let last = self.entries.pop();
        let mut carry = match last {
            Some(p) => p,
            None => {
                proof {
                    assert(false);
                }
                unreached()
            },
        };
        let mut j: usize = self.entries.len();
        proof {
            assert(carry == s0[s0.len() - 1]);
            assert(self@ =~= s0.take(s0.len() - 1) + s0.subrange(s0.len() as int, s0.len() as int));
        }
        while j > i
            invariant
                i <= j <= s0.len() - 1,
                self@.len() == s0.len() - 1,
                carry == s0[j as int],
                self@ == s0.take(j as int) + s0.subrange(j + 1, s0.len() as int),
            decreases j,
        {
            let ghost pre = self@;
            j -= 1;
            self.entries.set_and_swap(j, &mut carry);
            proof {
                assert(pre[j as int] == s0[j as int]);
                assert(self@ =~= s0.take(j as int) + s0.subrange(j + 1, s0.len() as int));
            }
        }
        proof {
            assert(self@ =~= s0.remove(i as int));
            s0.remove_ensures(i as int);
            assert forall|a: int, b: int|
                0 <= a < b < self@.len() implies self@[a].0 < self@[b].0 by {
                if a < i {
                    assert(self@[a] == s0[a]);
                } else {
                    assert(self@[a] == s0[a + 1]);
                }
                if b < i {
                    assert(self@[b] == s0[b]);
                } else {
                    assert(self@[b] == s0[b + 1]);
                }
            }
        }
        carry
    }
}

} // verus!
