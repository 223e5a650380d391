//! Association lists: a sequence of keys without repetition, beside a
//! sequence of values of the same length, read as a finite map.

use vstd::prelude::*;

verus! {

/// No key occurs twice.
pub open spec fn distinct<K>(keys: Seq<K>) -> bool {
    forall|i: int, j: int| 0 <= i < j < keys.len() ==> keys[i] != keys[j]
}

/// A place at which `k` stands in `keys`, where it stands in them.
pub open spec fn position<K>(keys: Seq<K>, k: K) -> int {
    choose|i: int| 0 <= i < keys.len() && keys[i] == k
}

/// The map that sends `keys[i]` to `vals[i]`.
pub open spec fn assoc<K, V>(keys: Seq<K>, vals: Seq<V>) -> Map<K, V> {
    Map::new(|k: K| keys.contains(k), |k: K| vals[position(keys, k)])
}

/// The key at place `i` finds the value at place `i`.
pub proof fn lemma_assoc_at<K, V>(keys: Seq<K>, vals: Seq<V>, i: int)
    requires
        distinct(keys),
        0 <= i < keys.len(),
    ensures
        assoc(keys, vals).contains_key(keys[i]),
        assoc(keys, vals)[keys[i]] == vals[i],
        position(keys, keys[i]) == i,
{
    let p = position(keys, keys[i]);
    assert(0 <= p < keys.len() && keys[p] == keys[i]);
    assert(keys.contains(keys[i]));
}

/// A key of the map stands at its position, and finds the value there.
pub proof fn lemma_assoc_key<K, V>(keys: Seq<K>, vals: Seq<V>, k: K)
    requires
        assoc(keys, vals).contains_key(k),
    ensures
        0 <= position(keys, k) < keys.len(),
        keys[position(keys, k)] == k,
        assoc(keys, vals)[k] == vals[position(keys, k)],
{
    assert(keys.contains(k));
}

/// What stands at no place is no key of the map.
pub proof fn lemma_assoc_absent<K, V>(keys: Seq<K>, vals: Seq<V>, k: K)
    requires
        forall|i: int| 0 <= i < keys.len() ==> keys[i] != k,
    ensures
        !assoc(keys, vals).contains_key(k),
{
}

/// Nothing gives the empty map.
pub proof fn lemma_assoc_empty<K, V>()
    ensures
        assoc(Seq::<K>::empty(), Seq::<V>::empty()) == Map::<K, V>::empty(),
{
    assert(assoc(Seq::<K>::empty(), Seq::<V>::empty()) =~= Map::<K, V>::empty());
}

/// Appending a new key with its value inserts them.
pub proof fn lemma_assoc_push<K, V>(keys: Seq<K>, vals: Seq<V>, k: K, v: V)
    requires
        distinct(keys),
        keys.len() == vals.len(),
        !assoc(keys, vals).contains_key(k),
    ensures
        distinct(keys.push(k)),
        assoc(keys.push(k), vals.push(v)) == assoc(keys, vals).insert(k, v),
{
    let keys2 = keys.push(k);
    let vals2 = vals.push(v);
    assert forall|i: int| 0 <= i < keys.len() implies keys[i] != k by {
        if keys[i] == k {
            assert(keys.contains(k));
        }
    }
    assert(distinct(keys2));
    assert forall|x: K| assoc(keys2, vals2).contains_key(x) <==> assoc(keys, vals).insert(
        k,
        v,
    ).contains_key(x) by {
        if keys2.contains(x) {
            let i = choose|i: int| 0 <= i < keys2.len() && keys2[i] == x;
            if i < keys.len() {
                assert(keys[i] == x);
                assert(keys.contains(x));
            }
        }
        if keys.contains(x) {
            let i = choose|i: int| 0 <= i < keys.len() && keys[i] == x;
            assert(keys2[i] == x);
        }
        if x == k {
            assert(keys2[keys.len() as int] == k);
        }
    }
    assert forall|x: K| assoc(keys2, vals2).contains_key(x) implies assoc(keys2, vals2)[x]
        == assoc(keys, vals).insert(k, v)[x] by {
        lemma_assoc_key(keys2, vals2, x);
        let p = position(keys2, x);
        if p < keys.len() {
            lemma_assoc_at(keys, vals, p);
        }
    }
    assert(assoc(keys2, vals2) =~= assoc(keys, vals).insert(k, v));
}

/// Taking out place `i` removes its key.
pub proof fn lemma_assoc_remove<K, V>(keys: Seq<K>, vals: Seq<V>, i: int)
    requires
        distinct(keys),
        keys.len() == vals.len(),
        0 <= i < keys.len(),
    ensures
        distinct(keys.remove(i)),
        assoc(keys.remove(i), vals.remove(i)) == assoc(keys, vals).remove(keys[i]),
{
    let keys2 = keys.remove(i);
    let vals2 = vals.remove(i);
    assert(distinct(keys2)) by {
        assert forall|a: int, b: int| 0 <= a < b < keys2.len() implies keys2[a] != keys2[b] by {
            let a0 = if a < i { a } else { a + 1 };
            let b0 = if b < i { b } else { b + 1 };
            assert(keys2[a] == keys[a0] && keys2[b] == keys[b0]);
        }
    }
    assert forall|x: K| assoc(keys2, vals2).contains_key(x) <==> assoc(keys, vals).remove(
        keys[i],
    ).contains_key(x) by {
        if keys2.contains(x) {
            let a = choose|a: int| 0 <= a < keys2.len() && keys2[a] == x;
            let a0 = if a < i { a } else { a + 1 };
            assert(keys[a0] == x);
            assert(keys.contains(x));
        }
        if keys.contains(x) && x != keys[i] {
            let a0 = choose|a: int| 0 <= a < keys.len() && keys[a] == x;
            let a = if a0 < i { a0 } else { a0 - 1 };
            assert(keys2[a] == x);
        }
    }
    assert forall|x: K| assoc(keys2, vals2).contains_key(x) implies assoc(keys2, vals2)[x]
        == assoc(keys, vals).remove(keys[i])[x] by {
        lemma_assoc_key(keys2, vals2, x);
        let a = position(keys2, x);
        let a0 = if a < i { a } else { a + 1 };
        assert(keys[a0] == x);
        lemma_assoc_at(keys, vals, a0);
    }
    assert(assoc(keys2, vals2) =~= assoc(keys, vals).remove(keys[i]));
}

/// Overwriting the value at place `i` overwrites the value of its key.
pub proof fn lemma_assoc_update<K, V>(keys: Seq<K>, vals: Seq<V>, i: int, v: V)
    requires
        distinct(keys),
        keys.len() == vals.len(),
        0 <= i < keys.len(),
    ensures
        assoc(keys, vals.update(i, v)) == assoc(keys, vals).insert(keys[i], v),
{
    let vals2 = vals.update(i, v);
    assert forall|x: K| assoc(keys, vals2).contains_key(x) <==> assoc(keys, vals).insert(
        keys[i],
        v,
    ).contains_key(x) by {
        if x == keys[i] {
            assert(keys.contains(x));
        }
    }
    assert forall|x: K| assoc(keys, vals2).contains_key(x) implies assoc(keys, vals2)[x] == assoc(
        keys,
        vals,
    ).insert(keys[i], v)[x] by {
        lemma_assoc_key(keys, vals2, x);
        let p = position(keys, x);
        lemma_assoc_at(keys, vals, p);
        if p != i {
            assert(keys[p] != keys[i]);
        }
    }
    assert(assoc(keys, vals2) =~= assoc(keys, vals).insert(keys[i], v));
}

/// An association list of length `n` has `n` keys.
pub proof fn lemma_assoc_len<K, V>(keys: Seq<K>, vals: Seq<V>)
    requires
        distinct(keys),
        keys.len() == vals.len(),
    ensures
        assoc(keys, vals).dom().finite(),
        assoc(keys, vals).dom().len() == keys.len(),
    decreases keys.len(),
{
    if keys.len() == 0 {
        assert(assoc(keys, vals).dom() =~= Set::<K>::empty());
    } else {
        let k = keys.last();
        let v = vals.last();
        let keys1 = keys.drop_last();
        let vals1 = vals.drop_last();
        assert(distinct(keys1));
        lemma_assoc_len(keys1, vals1);
        assert(!assoc(keys1, vals1).contains_key(k)) by {
            if assoc(keys1, vals1).contains_key(k) {
                lemma_assoc_key(keys1, vals1, k);
                let p = position(keys1, k);
                assert(keys[p] == keys[keys.len() - 1]);
            }
        }
        lemma_assoc_push(keys1, vals1, k, v);
        assert(keys1.push(k) =~= keys);
        assert(vals1.push(v) =~= vals);
        assert(assoc(keys, vals).dom() =~= assoc(keys1, vals1).dom().insert(k));
    }
}

} // verus!
