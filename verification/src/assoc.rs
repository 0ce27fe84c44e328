//! Association lists: a sequence of distinct keys beside a sequence of
//! values, read as a finite map.

use vstd::prelude::*;

verus! {

/// The map that sends each key to the value at the key's index.
pub open spec fn assoc_map<K, V>(keys: Seq<K>, values: Seq<V>) -> Map<K, V> {
    Map::new(|k: K| keys.contains(k), |k: K| values[keys.index_of(k)])
}

/// The key at index `i` is mapped to the value at index `i`.
pub proof fn lemma_assoc_get<K, V>(keys: Seq<K>, values: Seq<V>, i: int)
    requires
        keys.len() == values.len(),
        keys.no_duplicates(),
        0 <= i < keys.len(),
    ensures
        assoc_map(keys, values).dom().contains(keys[i]),
        assoc_map(keys, values)[keys[i]] == values[i],
        keys.index_of(keys[i]) == i,
{
    assert(keys.contains(keys[i]));
    let j = keys.index_of(keys[i]);
    assert(keys[j] == keys[i]);
}

/// Appending a new key with its value inserts the pair into the map.
pub proof fn lemma_assoc_push<K, V>(keys: Seq<K>, values: Seq<V>, k: K, v: V)
    requires
        keys.len() == values.len(),
        keys.no_duplicates(),
        !keys.contains(k),
    ensures
        keys.push(k).no_duplicates(),
        assoc_map(keys.push(k), values.push(v)) == assoc_map(keys, values).insert(k, v),
{
    let keys2 = keys.push(k);
    let values2 = values.push(v);
    assert forall|i: int, j: int| 0 <= i < keys2.len() && 0 <= j < keys2.len() && i != j implies keys2[i]
        != keys2[j] by {
        if i < keys.len() {
            assert(keys.contains(keys[i]));
        }
        if j < keys.len() {
            assert(keys.contains(keys[j]));
        }
    }
    assert forall|x: K| keys2.contains(x) <==> (keys.contains(x) || x == k) by {
        if keys.contains(x) {
            let i = keys.index_of(x);
            assert(keys2[i] == x);
        }
        if x == k {
            assert(keys2[keys.len() as int] == k);
        }
        if keys2.contains(x) {
            let i = keys2.index_of(x);
            if i < keys.len() {
                assert(keys[i] == x);
            }
        }
    }
    assert forall|x: K| keys2.contains(x) implies #[trigger] assoc_map(keys2, values2)[x]
        == assoc_map(keys, values).insert(k, v)[x] by {
        let i = keys2.index_of(x);
        assert(keys2[i] == x);
        if x == k {
            assert(keys2[keys.len() as int] == k);
            assert(i == keys.len());
        } else {
            assert(i < keys.len());
            assert(keys[i] == x);
            lemma_assoc_get(keys, values, i);
        }
    }
    assert(assoc_map(keys2, values2) =~= assoc_map(keys, values).insert(k, v));
}

/// Replacing the value at index `i` maps the key at `i` to the new value.
pub proof fn lemma_assoc_update<K, V>(keys: Seq<K>, values: Seq<V>, i: int, v: V)
    requires
        keys.len() == values.len(),
        keys.no_duplicates(),
        0 <= i < keys.len(),
    ensures
        assoc_map(keys, values.update(i, v)) == assoc_map(keys, values).insert(keys[i], v),
{
    assert(keys.contains(keys[i]));
    assert forall|x: K| keys.contains(x) implies #[trigger] assoc_map(keys, values.update(i, v))[x]
        == assoc_map(keys, values).insert(keys[i], v)[x] by {
        let j = keys.index_of(x);
        assert(keys[j] == x);
    }
    assert(assoc_map(keys, values.update(i, v)) =~= assoc_map(keys, values).insert(keys[i], v));
}

/// A key that stands at no index is not in the map.
pub proof fn lemma_assoc_absent<K, V>(keys: Seq<K>, values: Seq<V>, k: K)
    requires
        forall|i: int| 0 <= i < keys.len() ==> keys[i] != k,
    ensures
        !assoc_map(keys, values).dom().contains(k),
{
    if keys.contains(k) {
        let i = keys.index_of(k);
        assert(keys[i] == k);
    }
}

/// The map of no keys is empty.
pub proof fn lemma_assoc_empty<K, V>()
    ensures
        assoc_map(Seq::<K>::empty(), Seq::<V>::empty()) == Map::<K, V>::empty(),
{
    assert(assoc_map(Seq::<K>::empty(), Seq::<V>::empty()) =~= Map::<K, V>::empty());
}

} // verus!
