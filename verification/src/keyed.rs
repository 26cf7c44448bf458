//! Association sequences keyed by small integers.
//!
//! The draft buffer and the in-memory backend both hold their entries as a
//! vector of key/value pairs with pairwise-distinct keys.  This module gives
//! that representation its mathematical reading — the sequence of keys in
//! insertion order and the finite map from key to value view — and proves how
//! the reading changes under the vector operations the callers use.

use vstd::prelude::*;

verus! {

/// The keys of an association sequence, in order.
pub open spec fn keys_of<V>(s: Seq<(u32, V)>) -> Seq<u32> {
    s.map_values(|p: (u32, V)| p.0)
}

/// No key occurs twice.
pub open spec fn unique_keys<V>(s: Seq<(u32, V)>) -> bool {
    forall|i: int, j: int| 0 <= i < j < s.len() ==> s[i].0 != s[j].0
}

/// The finite map an association sequence represents, reading each value
/// through its view; a later entry would win over an earlier one with the
/// same key, though callers keep keys unique.
pub open spec fn map_of<V: View>(s: Seq<(u32, V)>) -> Map<u32, V::V>
    decreases s.len(),
{
    if s.len() == 0 {
        Map::empty()
    } else {
        map_of(s.drop_last()).insert(s.last().0, s.last().1@)
    }
}

/// A key is in the map exactly when it is among the keys.
pub proof fn lemma_map_of_contains<V: View>(s: Seq<(u32, V)>, k: u32)
    ensures
        map_of(s).contains_key(k) <==> keys_of(s).contains(k),
    decreases s.len(),
{
    if s.len() == 0 {
    } else {
        lemma_map_of_contains(s.drop_last(), k);
        if s.last().0 == k {
            assert(keys_of(s)[s.len() - 1] == k);
        }
        if keys_of(s.drop_last()).contains(k) {
            let i = choose|i: int| 0 <= i < s.len() - 1 && keys_of(s.drop_last())[i] == k;
            assert(keys_of(s)[i] == k);
        }
        if keys_of(s).contains(k) {
            let i = choose|i: int| 0 <= i < s.len() && keys_of(s)[i] == k;
            if i < s.len() - 1 {
                assert(keys_of(s.drop_last())[i] == k);
            }
        }
    }
}

/// A key that no entry carries is not in the map.
pub proof fn lemma_map_of_absent<V: View>(s: Seq<(u32, V)>, k: u32)
    requires
        forall|i: int| 0 <= i < s.len() ==> s[i].0 != k,
    ensures
        !map_of(s).contains_key(k),
{
    lemma_map_of_contains(s, k);
    if keys_of(s).contains(k) {
        let j = choose|j: int| 0 <= j < keys_of(s).len() && keys_of(s)[j] == k;
        assert(s[j].0 == k);
    }
}

/// With unique keys, the map reads each entry back unchanged.
pub proof fn lemma_map_of_index<V: View>(s: Seq<(u32, V)>, i: int)
    requires
        unique_keys(s),
        0 <= i < s.len(),
    ensures
        map_of(s).contains_key(s[i].0),
        map_of(s)[s[i].0] == s[i].1@,
    decreases s.len(),
{
    if i == s.len() - 1 {
    } else {
        assert(unique_keys(s.drop_last()));
        lemma_map_of_index(s.drop_last(), i);
        assert(s.drop_last()[i] == s[i]);
        assert(s[i].0 != s.last().0);
    }
}

/// Appending a fresh entry inserts it into the map.
pub proof fn lemma_map_of_push<V: View>(s: Seq<(u32, V)>, k: u32, v: V)
    ensures
        map_of(s.push((k, v))) == map_of(s).insert(k, v@),
{
    let t = s.push((k, v));
    assert(t.drop_last() =~= s);
    assert(t.last() == (k, v));
}

/// Replacing the value at one position updates the map at that key.
pub proof fn lemma_map_of_update<V: View>(s: Seq<(u32, V)>, i: int, v: V)
    requires
        unique_keys(s),
        0 <= i < s.len(),
    ensures
        map_of(s.update(i, (s[i].0, v))) == map_of(s).insert(s[i].0, v@),
        keys_of(s.update(i, (s[i].0, v))) == keys_of(s),
        unique_keys(s.update(i, (s[i].0, v))),
    decreases s.len(),
{
    let t = s.update(i, (s[i].0, v));
    assert(keys_of(t) =~= keys_of(s));
    if i == s.len() - 1 {
        assert(t.drop_last() =~= s.drop_last());
        assert(map_of(t) =~= map_of(s).insert(s[i].0, v@));
    } else {
        assert(unique_keys(s.drop_last()));
        lemma_map_of_update(s.drop_last(), i, v);
        assert(t.drop_last() =~= s.drop_last().update(i, (s[i].0, v)));
        assert(t.last() == s.last());
        assert(s.drop_last()[i] == s[i]);
        // the two inserted keys differ, so the inserts commute
        assert(s[i].0 != s.last().0);
        assert(map_of(t) =~= map_of(s).insert(s[i].0, v@));
    }
}

/// Removing the entry at one position removes its key from the map.
pub proof fn lemma_map_of_remove<V: View>(s: Seq<(u32, V)>, i: int)
    requires
        unique_keys(s),
        0 <= i < s.len(),
    ensures
        map_of(s.remove(i)) == map_of(s).remove(s[i].0),
        keys_of(s.remove(i)) == keys_of(s).remove(i),
        unique_keys(s.remove(i)),
    decreases s.len(),
{
    let t = s.remove(i);
    s.remove_ensures(i);
    assert(keys_of(t) =~= keys_of(s).remove(i));
    assert(unique_keys(t)) by {
        assert forall|p: int, q: int| 0 <= p < q < t.len() implies t[p].0 != t[q].0 by {
            let p0 = if p < i { p } else { p + 1 };
            let q0 = if q < i { q } else { q + 1 };
            assert(t[p] == s[p0] && t[q] == s[q0]);
        }
    }
    if i == s.len() - 1 {
        assert(t =~= s.drop_last());
        lemma_map_of_contains(s.drop_last(), s[i].0);
        assert(!keys_of(s.drop_last()).contains(s[i].0)) by {
            if keys_of(s.drop_last()).contains(s[i].0) {
                let j = choose|j: int|
                    0 <= j < s.len() - 1 && keys_of(s.drop_last())[j] == s[i].0;
                assert(s[j].0 == s[i].0);
            }
        }
        assert(map_of(t) =~= map_of(s).remove(s[i].0));
    } else {
        assert(unique_keys(s.drop_last()));
        lemma_map_of_remove(s.drop_last(), i);
        assert(t.drop_last() =~= s.drop_last().remove(i));
        assert(t.last() == s.last());
        assert(s.drop_last()[i] == s[i]);
        assert(s[i].0 != s.last().0);
        assert(map_of(t) =~= map_of(s).remove(s[i].0));
    }
}

/// The first occurrence of a key among the keys of a sequence is the one
/// that `remove_value` drops.
pub proof fn lemma_remove_value_at(ks: Seq<u32>, i: int, key: u32)
    requires
        0 <= i < ks.len(),
        ks[i] == key,
        forall|j: int| 0 <= j < i ==> ks[j] != key,
    ensures
        ks.remove_value(key) == ks.remove(i),
{
    ks.index_of_first_ensures(key);
    assert(ks.contains(key)) by {
        assert(ks[i] == key);
    }
    match ks.index_of_first(key) {
        Some(idx) => {
            if idx < i {
                assert(ks[idx] != key);
            }
            if idx > i {
                assert(ks[i] != key);
            }
        },
        None => {},
    }
}

/// Removing a value that does not occur leaves a sequence unchanged.
pub proof fn lemma_remove_value_absent(ks: Seq<u32>, key: u32)
    requires
        forall|j: int| 0 <= j < ks.len() ==> ks[j] != key,
    ensures
        ks.remove_value(key) == ks,
{
    ks.index_of_first_ensures(key);
    match ks.index_of_first(key) {
        Some(idx) => {
            assert(ks[idx] != key);
        },
        None => {},
    }
}

/// Find the position of the first entry with a key in an association vector.
pub fn find_key<V>(entries: &Vec<(u32, V)>, key: u32) -> (r: Option<usize>)
    ensures
        match r {
            Some(i) => i < entries@.len() && entries@[i as int].0 == key && forall|j: int|
                0 <= j < i ==> entries@[j].0 != key,
            None => forall|i: int| 0 <= i < entries@.len() ==> entries@[i].0 != key,
        },
{
    let n = entries.len();
    let mut i: usize = 0;
    while i < n
        invariant
            n == entries@.len(),
            i <= n,
            forall|j: int| 0 <= j < i ==> entries@[j].0 != key,
        decreases n - i,
    {
        if entries[i].0 == key {
            return Some(i);
        }
        i = i + 1;
    }
    None
}

} // verus!
