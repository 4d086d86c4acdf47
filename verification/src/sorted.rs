//! The mathematical model shared by all containers in this crate: sequences
//! of key-value pairs with strictly ascending keys, and the insert, remove
//! and lookup operations on them.
//!
//! Every container's contract is stated over these functions, so the laws
//! proved here (round trips, update-in-place, distinctness of keys) carry
//! over to the executable containers through their `ensures` clauses.

use vstd::prelude::*;

verus! {

/// The keys of `s`, in order of appearance.
pub open spec fn entry_keys<V>(s: Seq<(i64, V)>) -> Seq<i64> {
    s.map_values(|p: (i64, V)| p.0)
}

/// The keys of `s` are strictly ascending; this is the ordering invariant
/// of every container in this crate.
pub open spec fn sorted_keys<V>(s: Seq<(i64, V)>) -> bool {
    forall|i: int, j: int| 0 <= i < j < s.len() ==> s[i].0 < s[j].0
}

/// Some entry of `s` carries the key `k`.
pub open spec fn has_key<V>(s: Seq<(i64, V)>, k: i64) -> bool {
    exists|i: int| 0 <= i < s.len() && s[i].0 == k
}

/// The value stored under `k`: the value of the first entry whose key is
/// `k`, or `None` when no entry carries that key.
pub open spec fn spec_get<V>(s: Seq<(i64, V)>, k: i64) -> Option<V>
    decreases s.len(),
{
    if s.len() == 0 {
        None
    } else if s[0].0 == k {
        Some(s[0].1)
    } else {
        spec_get(s.drop_first(), k)
    }
}

/// The length of the longest prefix of `s` whose keys are strictly below
/// `k`. On a sequence with sorted keys this is the position at which `k`
/// stands, or at which it would be inserted.
pub open spec fn ipoint<V>(s: Seq<(i64, V)>, k: i64) -> int
    decreases s.len(),
{
    if s.len() == 0 {
        0
    } else if s[0].0 < k {
        1 + ipoint(s.drop_first(), k)
    } else {
        0
    }
}

/// The sequence after storing `v` under `k`: an entry with key `k` is
/// overwritten in place, a fresh key is inserted at its insertion point.
pub open spec fn spec_insert<V>(s: Seq<(i64, V)>, k: i64, v: V) -> Seq<(i64, V)> {
    if has_key(s, k) {
        s.update(ipoint(s, k), (k, v))
    } else {
        s.insert(ipoint(s, k), (k, v))
    }
}

/// The sequence after removing the entry with key `k`, if there is one.
pub open spec fn spec_remove<V>(s: Seq<(i64, V)>, k: i64) -> Seq<(i64, V)> {
    if has_key(s, k) {
        s.remove(ipoint(s, k))
    } else {
        s
    }
}

/// Entries strictly before the insertion point of `k` have keys below `k`.
pub proof fn lemma_ipoint_prefix<V>(s: Seq<(i64, V)>, k: i64)
    ensures
        0 <= ipoint(s, k) <= s.len(),
        forall|i: int| 0 <= i < ipoint(s, k) ==> s[i].0 < k,
    decreases s.len(),
{
    if s.len() > 0 && s[0].0 < k {
        lemma_ipoint_prefix(s.drop_first(), k);
        assert forall|i: int| 0 <= i < ipoint(s, k) implies s[i].0 < k by {
            if i > 0 {
                assert(s[i] == s.drop_first()[i - 1]);
            }
        }
    }
}

/// On a sequence with sorted keys, entries at or after the insertion point
/// of `k` have keys at or above `k`.
pub proof fn lemma_ipoint_suffix<V>(s: Seq<(i64, V)>, k: i64)
    requires
        sorted_keys(s),
    ensures
        forall|i: int| ipoint(s, k) <= i < s.len() ==> s[i].0 >= k,
    decreases s.len(),
{
    if s.len() > 0 && s[0].0 < k {
        assert(sorted_keys(s.drop_first()));
        lemma_ipoint_prefix(s.drop_first(), k);
        lemma_ipoint_suffix(s.drop_first(), k);
        assert forall|i: int| ipoint(s, k) <= i < s.len() implies s[i].0 >= k by {
            assert(i >= 1);
            assert(s.drop_first()[i - 1] == s[i]);
        }
    }
}

/// `spec_get` returns a value exactly when the key is present.
pub proof fn lemma_get_some_iff<V>(s: Seq<(i64, V)>, k: i64)
    ensures
        spec_get(s, k) is Some <==> has_key(s, k),
    decreases s.len(),
{
    if s.len() > 0 && s[0].0 != k {
        lemma_get_some_iff(s.drop_first(), k);
        if has_key(s, k) {
            let i = choose|i: int| 0 <= i < s.len() && s[i].0 == k;
            assert(s.drop_first()[i - 1] == s[i]);
        }
        if has_key(s.drop_first(), k) {
            let i = choose|i: int| 0 <= i < s.drop_first().len() && s.drop_first()[i].0 == k;
            assert(s[i + 1] == s.drop_first()[i]);
        }
    }
}

/// On a sequence with sorted keys, `spec_get` and `has_key` are determined
/// by what stands at the insertion point.
pub proof fn lemma_get_at_ipoint<V>(s: Seq<(i64, V)>, k: i64)
    requires
        sorted_keys(s),
    ensures
        has_key(s, k) <==> (ipoint(s, k) < s.len() && s[ipoint(s, k)].0 == k),
        has_key(s, k) ==> spec_get(s, k) == Some(s[ipoint(s, k)].1),
        !has_key(s, k) ==> spec_get(s, k) is None,
    decreases s.len(),
{
    lemma_ipoint_prefix(s, k);
    lemma_ipoint_suffix(s, k);
    lemma_get_some_iff(s, k);
    if s.len() == 0 {
    } else if s[0].0 == k {
        assert(has_key(s, k));
        assert(ipoint(s, k) == 0);
    } else if s[0].0 < k {
        let rest = s.drop_first();
        assert(sorted_keys(rest));
        lemma_get_at_ipoint(rest, k);
        if has_key(s, k) {
            let i = choose|i: int| 0 <= i < s.len() && s[i].0 == k;
            assert(rest[i - 1] == s[i]);
            assert(has_key(rest, k));
        }
        if has_key(rest, k) {
            let i = choose|i: int| 0 <= i < rest.len() && rest[i].0 == k;
            assert(s[i + 1] == rest[i]);
            assert(has_key(s, k));
        }
        assert(ipoint(s, k) == 1 + ipoint(rest, k));
        if has_key(s, k) {
            assert(s[ipoint(s, k)] == rest[ipoint(rest, k)]);
        }
    } else {
        // s[0].0 > k: the key cannot appear anywhere in a sorted sequence.
        assert(ipoint(s, k) == 0);
        if has_key(s, k) {
            let i = choose|i: int| 0 <= i < s.len() && s[i].0 == k;
            assert(i > 0 ==> s[0].0 < s[i].0);
            assert(false);
        }
    }
}

/// On a sequence with sorted keys, an entry carrying `k` stands exactly at
/// the insertion point of `k`.
pub proof fn lemma_ipoint_of_present_key<V>(s: Seq<(i64, V)>, k: i64, i: int)
    requires
        sorted_keys(s),
        0 <= i < s.len(),
        s[i].0 == k,
    ensures
        ipoint(s, k) == i,
{
    lemma_ipoint_prefix(s, k);
    lemma_ipoint_suffix(s, k);
    let ip = ipoint(s, k);
    if i < ip {
        assert(s[i].0 < k);
        assert(false);
    }
    if i > ip {
        assert(s[ip].0 >= k);
        assert(s[ip].0 < s[i].0);
        assert(false);
    }
}

/// A position with smaller keys before it and larger keys from it on is
/// the insertion point.
pub proof fn lemma_ipoint_from_bounds<V>(s: Seq<(i64, V)>, k: i64, i: int)
    requires
        sorted_keys(s),
        0 <= i <= s.len(),
        forall|j: int| 0 <= j < i ==> s[j].0 < k,
        forall|j: int| i <= j < s.len() ==> s[j].0 > k,
    ensures
        ipoint(s, k) == i,
        !has_key(s, k),
{
    lemma_ipoint_prefix(s, k);
    lemma_ipoint_suffix(s, k);
    let ip = ipoint(s, k);
    if ip < i {
        assert(s[ip].0 < k);
        assert(s[ip].0 >= k);
    }
    if ip > i {
        assert(s[i].0 < k);
        assert(s[i].0 > k);
    }
    if has_key(s, k) {
        let j = choose|j: int| 0 <= j < s.len() && s[j].0 == k;
        assert(false);
    }
}

/// What storing a value does to the model: the keys stay sorted, the length
/// grows by one exactly for a fresh key, and a lookup afterwards finds the
/// new value under `k` and is otherwise unchanged.
pub proof fn lemma_insert_props<V>(s: Seq<(i64, V)>, k: i64, v: V)
    requires
        sorted_keys(s),
    ensures
        sorted_keys(spec_insert(s, k, v)),
        spec_insert(s, k, v).len() == if has_key(s, k) {
            s.len() as int
        } else {
            s.len() + 1 as int
        },
        forall|k2: i64| #[trigger]
            has_key(spec_insert(s, k, v), k2) <==> (k2 == k || has_key(s, k2)),
        forall|k2: i64| #[trigger] spec_get(spec_insert(s, k, v), k2) == if k2 == k {
            Some(v)
        } else {
            spec_get(s, k2)
        },
{
    let t = spec_insert(s, k, v);
    let ip = ipoint(s, k);
    lemma_ipoint_prefix(s, k);
    lemma_ipoint_suffix(s, k);
    lemma_get_at_ipoint(s, k);
    if has_key(s, k) {
        // Overwrite in place: the keys are untouched.
        assert(s[ip].0 == k);
        assert(t =~= s.update(ip, (k, v)));
        assert(forall|j: int| 0 <= j < t.len() ==> t[j].0 == s[j].0);
        assert(sorted_keys(t));
        assert forall|k2: i64| #[trigger] has_key(t, k2) <==> (k2 == k || has_key(s, k2)) by {
            if has_key(t, k2) {
                let i = choose|i: int| 0 <= i < t.len() && t[i].0 == k2;
                assert(s[i].0 == k2);
            }
            if has_key(s, k2) {
                let i = choose|i: int| 0 <= i < s.len() && s[i].0 == k2;
                assert(t[i].0 == k2);
            }
            if k2 == k {
                assert(t[ip].0 == k2);
            }
        }
        assert forall|k2: i64| #[trigger] spec_get(t, k2) == (if k2 == k {
            Some(v)
        } else {
            spec_get(s, k2)
        }) by {
            lemma_get_at_ipoint(t, k2);
            lemma_get_at_ipoint(s, k2);
            if k2 == k {
                lemma_ipoint_of_present_key(t, k, ip);
            } else if has_key(s, k2) {
                let i = choose|i: int| 0 <= i < s.len() && s[i].0 == k2;
                assert(t[i].0 == k2);
                lemma_ipoint_of_present_key(s, k2, i);
                lemma_ipoint_of_present_key(t, k2, i);
                assert(i != ip);
                assert(t[i] == s[i]);
            }
        }
    } else {
        // Fresh key: it goes in at its insertion point.
        s.insert_ensures(ip, (k, v));
        assert(t == s.insert(ip, (k, v)));
        assert(t.len() == s.len() + 1);
        // Keys at or after the insertion point are strictly above `k`.
        assert forall|j: int| ip <= j < s.len() implies s[j].0 > k by {
            assert(s[j].0 >= k);
            assert(s[j].0 != k);
        }
        assert forall|i: int, j: int| 0 <= i < j < t.len() implies t[i].0 < t[j].0 by {
            if i < ip {
                assert(t[i] == s[i]);
            } else if i == ip {
                assert(t[i] == (k, v));
            } else {
                assert(t[i] == s[i - 1]);
            }
            if j < ip {
                assert(t[j] == s[j]);
            } else if j == ip {
                assert(t[j] == (k, v));
            } else {
                assert(t[j] == s[j - 1]);
            }
        }
        assert(sorted_keys(t));
        assert forall|k2: i64| #[trigger] has_key(t, k2) <==> (k2 == k || has_key(s, k2)) by {
            if has_key(t, k2) && k2 != k {
                let i = choose|i: int| 0 <= i < t.len() && t[i].0 == k2;
                if i < ip {
                    assert(s[i].0 == k2);
                } else {
                    assert(i != ip);
                    assert(s[i - 1].0 == k2);
                }
            }
            if has_key(s, k2) {
                let i = choose|i: int| 0 <= i < s.len() && s[i].0 == k2;
                if i < ip {
                    assert(t[i].0 == k2);
                } else {
                    assert(t[i + 1].0 == k2);
                }
            }
            assert(t[ip].0 == k);
        }
        assert forall|k2: i64| #[trigger] spec_get(t, k2) == (if k2 == k {
            Some(v)
        } else {
            spec_get(s, k2)
        }) by {
            lemma_get_at_ipoint(t, k2);
            lemma_get_at_ipoint(s, k2);
            if k2 == k {
                lemma_ipoint_of_present_key(t, k, ip);
                assert(t[ip] == (k, v));
            } else if has_key(s, k2) {
                let i = choose|i: int| 0 <= i < s.len() && s[i].0 == k2;
                lemma_ipoint_of_present_key(s, k2, i);
                if i < ip {
                    assert(t[i] == s[i]);
                    lemma_ipoint_of_present_key(t, k2, i);
                } else {
                    assert(t[i + 1] == s[i]);
                    lemma_ipoint_of_present_key(t, k2, i + 1);
                }
            }
        }
    }
}

/// What removing a key does to the model: the keys stay sorted, the length
/// shrinks by one exactly when the key was present, and a lookup afterwards
/// finds nothing under `k` and is otherwise unchanged.
pub proof fn lemma_remove_props<V>(s: Seq<(i64, V)>, k: i64)
    requires
        sorted_keys(s),
    ensures
        sorted_keys(spec_remove(s, k)),
        spec_remove(s, k).len() == if has_key(s, k) {
            s.len() - 1
        } else {
            s.len() as int
        },
        forall|k2: i64| #[trigger]
            has_key(spec_remove(s, k), k2) <==> (k2 != k && has_key(s, k2)),
        forall|k2: i64| #[trigger] spec_get(spec_remove(s, k), k2) == if k2 == k {
            None::<V>
        } else {
            spec_get(s, k2)
        },
{
    let t = spec_remove(s, k);
    let ip = ipoint(s, k);
    lemma_ipoint_prefix(s, k);
    lemma_ipoint_suffix(s, k);
    lemma_get_at_ipoint(s, k);
    if has_key(s, k) {
        assert(s[ip].0 == k);
        s.remove_ensures(ip);
        assert(t == s.remove(ip));
        assert forall|i: int, j: int| 0 <= i < j < t.len() implies t[i].0 < t[j].0 by {
            if i < ip {
                assert(t[i] == s[i]);
            } else {
                assert(t[i] == s[i + 1]);
            }
            if j < ip {
                assert(t[j] == s[j]);
            } else {
                assert(t[j] == s[j + 1]);
            }
        }
        assert(sorted_keys(t));
        assert forall|k2: i64| #[trigger] has_key(t, k2) <==> (k2 != k && has_key(s, k2)) by {
            if has_key(t, k2) {
                let i = choose|i: int| 0 <= i < t.len() && t[i].0 == k2;
                if i < ip {
                    assert(s[i].0 == k2);
                    assert(i != ip);
                    assert(k2 != k ==> has_key(s, k2));
                    if k2 == k {
                        lemma_ipoint_of_present_key(s, k, i);
                        assert(false);
                    }
                } else {
                    assert(s[i + 1].0 == k2);
                    if k2 == k {
                        lemma_ipoint_of_present_key(s, k, i + 1);
                        assert(false);
                    }
                }
            }
            if k2 != k && has_key(s, k2) {
                let i = choose|i: int| 0 <= i < s.len() && s[i].0 == k2;
                assert(i != ip);
                if i < ip {
                    assert(t[i].0 == k2);
                } else {
                    assert(t[i - 1].0 == k2);
                }
            }
        }
        assert forall|k2: i64| #[trigger] spec_get(t, k2) == (if k2 == k {
            None::<V>
        } else {
            spec_get(s, k2)
        }) by {
            lemma_get_at_ipoint(t, k2);
            lemma_get_at_ipoint(s, k2);
            if k2 != k && has_key(s, k2) {
                let i = choose|i: int| 0 <= i < s.len() && s[i].0 == k2;
                lemma_ipoint_of_present_key(s, k2, i);
                assert(i != ip);
                if i < ip {
                    assert(t[i] == s[i]);
                    lemma_ipoint_of_present_key(t, k2, i);
                } else {
                    assert(t[i - 1] == s[i]);
                    lemma_ipoint_of_present_key(t, k2, i - 1);
                }
            }
        }
    } else {
        assert(t == s);
        assert forall|k2: i64| #[trigger] spec_get(t, k2) == (if k2 == k {
            None::<V>
        } else {
            spec_get(s, k2)
        }) by {
            if k2 == k {
                lemma_get_some_iff(s, k);
            }
        }
    }
}

/// The elements of a set sequence are strictly ascending; this is the
/// ordering invariant of the set containers.
pub open spec fn sorted_elems(s: Seq<i64>) -> bool {
    forall|i: int, j: int| 0 <= i < j < s.len() ==> s[i] < s[j]
}

/// The length of the longest prefix of `s` whose elements are strictly
/// below `v`: on a sorted sequence, the position at which `v` stands or
/// would be inserted.
pub open spec fn epoint(s: Seq<i64>, v: i64) -> int
    decreases s.len(),
{
    if s.len() == 0 {
        0
    } else if s[0] < v {
        1 + epoint(s.drop_first(), v)
    } else {
        0
    }
}

/// The set sequence after inserting `v`: unchanged when already present,
/// otherwise `v` goes in at its insertion point.
pub open spec fn set_insert(s: Seq<i64>, v: i64) -> Seq<i64> {
    if s.contains(v) {
        s
    } else {
        s.insert(epoint(s, v), v)
    }
}

/// The set sequence after removing `v`, if present.
pub open spec fn set_remove(s: Seq<i64>, v: i64) -> Seq<i64> {
    if s.contains(v) {
        s.remove(epoint(s, v))
    } else {
        s
    }
}

/// The insertion point among the keys is the insertion point among the
/// entries.
pub proof fn lemma_epoint_keys<V>(s: Seq<(i64, V)>, k: i64)
    ensures
        epoint(entry_keys(s), k) == ipoint(s, k),
    decreases s.len(),
{
    if s.len() > 0 {
        assert(entry_keys(s)[0] == s[0].0);
        assert(entry_keys(s).drop_first() =~= entry_keys(s.drop_first()));
        if s[0].0 < k {
            lemma_epoint_keys(s.drop_first(), k);
        }
    }
}

/// A key occurs among the keys exactly when an entry carries it.
pub proof fn lemma_contains_keys<V>(s: Seq<(i64, V)>, k: i64)
    ensures
        entry_keys(s).contains(k) <==> has_key(s, k),
{
    if entry_keys(s).contains(k) {
        let i = choose|i: int| 0 <= i < entry_keys(s).len() && entry_keys(s)[i] == k;
        assert(s[i].0 == k);
    }
    if has_key(s, k) {
        let i = choose|i: int| 0 <= i < s.len() && s[i].0 == k;
        assert(entry_keys(s)[i] == k);
    }
}

/// Keys are sorted exactly when the entries are.
pub proof fn lemma_keys_sorted_iff<V>(s: Seq<(i64, V)>)
    ensures
        sorted_keys(s) <==> sorted_elems(entry_keys(s)),
{
    let ks = entry_keys(s);
    assert(forall|i: int| 0 <= i < s.len() ==> ks[i] == s[i].0);
    if sorted_keys(s) {
        assert forall|i: int, j: int| 0 <= i < j < ks.len() implies ks[i] < ks[j] by {
            assert(s[i].0 < s[j].0);
        }
    }
    if sorted_elems(ks) {
        assert forall|i: int, j: int| 0 <= i < j < s.len() implies s[i].0 < s[j].0 by {
            assert(ks[i] < ks[j]);
        }
    }
}

/// Inserting into a unit-valued entry sequence inserts among its keys.
pub proof fn lemma_set_insert_keys(s: Seq<(i64, ())>, k: i64)
    requires
        sorted_keys(s),
    ensures
        entry_keys(spec_insert(s, k, ())) == set_insert(entry_keys(s), k),
{
    lemma_contains_keys(s, k);
    lemma_epoint_keys(s, k);
    lemma_get_at_ipoint(s, k);
    lemma_ipoint_prefix(s, k);
    let ip = ipoint(s, k);
    if has_key(s, k) {
        assert(s[ip] == (k, ()));
        assert(s.update(ip, (k, ())) =~= s);
        assert(entry_keys(spec_insert(s, k, ())) =~= set_insert(entry_keys(s), k));
    } else {
        s.insert_ensures(ip, (k, ()));
        entry_keys(s).insert_ensures(ip, k);
        assert(entry_keys(spec_insert(s, k, ())) =~= set_insert(entry_keys(s), k));
    }
}

/// Removing from a unit-valued entry sequence removes among its keys.
pub proof fn lemma_set_remove_keys(s: Seq<(i64, ())>, k: i64)
    requires
        sorted_keys(s),
    ensures
        entry_keys(spec_remove(s, k)) == set_remove(entry_keys(s), k),
{
    lemma_contains_keys(s, k);
    lemma_epoint_keys(s, k);
    lemma_get_at_ipoint(s, k);
    lemma_ipoint_prefix(s, k);
    let ip = ipoint(s, k);
    if has_key(s, k) {
        s.remove_ensures(ip);
        entry_keys(s).remove_ensures(ip);
        assert(entry_keys(spec_remove(s, k)) =~= set_remove(entry_keys(s), k));
    }
}

/// Sorted keys are distinct keys: a container whose entries have strictly
/// ascending keys holds exactly one entry per key, so its length is the
/// number of unique keys it holds.
pub proof fn lemma_sorted_keys_distinct<V>(s: Seq<(i64, V)>)
    requires
        sorted_keys(s),
    ensures
        entry_keys(s).len() == s.len(),
        entry_keys(s).no_duplicates(),
{
    assert forall|i: int, j: int|
        0 <= i < entry_keys(s).len() && 0 <= j < entry_keys(s).len() && i != j
        implies entry_keys(s)[i] != entry_keys(s)[j] by {
        assert(entry_keys(s)[i] == s[i].0);
        assert(entry_keys(s)[j] == s[j].0);
    }
}

/// Round trip: after storing `v` under `k`, a lookup of `k` yields `v`;
/// removing `k` from that state yields `v` as the removed value and leaves
/// a state in which `k` is absent while every other key is untouched.
pub proof fn lemma_round_trip<V>(s: Seq<(i64, V)>, k: i64, v: V)
    requires
        sorted_keys(s),
    ensures
        spec_get(spec_insert(s, k, v), k) == Some(v),
        spec_get(spec_remove(spec_insert(s, k, v), k), k) is None,
        forall|k2: i64|
            k2 != k ==> #[trigger] spec_get(spec_remove(spec_insert(s, k, v), k), k2)
                == spec_get(s, k2),
{
    lemma_insert_props(s, k, v);
    lemma_remove_props(spec_insert(s, k, v), k);
}

/// Sorted elements are distinct elements: a set whose elements are
/// strictly ascending holds each element once.
pub proof fn lemma_sorted_elems_distinct(s: Seq<i64>)
    requires
        sorted_elems(s),
    ensures
        s.no_duplicates(),
{
    assert forall|i: int, j: int|
        0 <= i < s.len() && 0 <= j < s.len() && i != j implies s[i] != s[j] by {
        if i < j {
            assert(s[i] < s[j]);
        } else {
            assert(s[j] < s[i]);
        }
    }
}

/// Round trip for sets: after inserting `v` the set contains it and is
/// still sorted; removing it afterwards leaves a set in which `v` is
/// absent while every other element is untouched.
pub proof fn lemma_set_round_trip(s: Seq<i64>, v: i64)
    requires
        sorted_elems(s),
    ensures
        sorted_elems(set_insert(s, v)),
        set_insert(s, v).contains(v),
        !set_remove(set_insert(s, v), v).contains(v),
        forall|w: i64|
            w != v ==> (#[trigger] set_remove(set_insert(s, v), v).contains(w) <==> s.contains(
                w,
            )),
{
    let p = s.map_values(|k: i64| (k, ()));
    assert(entry_keys(p) =~= s);
    lemma_keys_sorted_iff(p);
    lemma_contains_keys(p, v);
    lemma_insert_props(p, v, ());
    lemma_set_insert_keys(p, v);
    let p1 = spec_insert(p, v, ());
    lemma_keys_sorted_iff(p1);
    lemma_contains_keys(p1, v);
    lemma_set_remove_keys(p1, v);
    lemma_remove_props(p1, v);
    let p2 = spec_remove(p1, v);
    lemma_contains_keys(p2, v);
    assert forall|w: i64|
        w != v implies (#[trigger] set_remove(set_insert(s, v), v).contains(w) <==> s.contains(
        w,
    )) by {
        lemma_contains_keys(p2, w);
        lemma_contains_keys(p, w);
    }
}

/// Update in place: storing under a key that is already present keeps the
/// length, replaces that key's value, and touches no other key.
pub proof fn lemma_update_in_place<V>(s: Seq<(i64, V)>, k: i64, v: V)
    requires
        sorted_keys(s),
        has_key(s, k),
    ensures
        spec_insert(s, k, v).len() == s.len(),
        spec_get(spec_insert(s, k, v), k) == Some(v),
        forall|k2: i64|
            k2 != k ==> #[trigger] spec_get(spec_insert(s, k, v), k2) == spec_get(s, k2),
{
    lemma_insert_props(s, k, v);
}

} // verus!
