use vstd::prelude::*;

verus! {

/// Whether some pair of `pairs` has the key `key`.
pub open spec fn has_key<K, V>(pairs: Seq<(K, V)>, key: K) -> bool {
    exists|i: int| 0 <= i < pairs.len() && pairs[i].0 == key
}

/// The value paired with `key` (meaningful where `has_key` holds).
pub open spec fn value_of<K, V>(pairs: Seq<(K, V)>, key: K) -> V {
    pairs[choose|i: int| 0 <= i < pairs.len() && pairs[i].0 == key].1
}

/// No key occurs in two pairs.
pub open spec fn unique_keys<K, V>(pairs: Seq<(K, V)>) -> bool {
    forall|i: int, j: int| 0 <= i < pairs.len() && 0 <= j < pairs.len() && i != j ==> pairs[i].0 != pairs[j].0
}

/// The pairs read as a map from key to value.
pub open spec fn pairs_map<K, V>(pairs: Seq<(K, V)>) -> Map<K, V> {
    Map::new(|key: K| has_key(pairs, key), |key: K| value_of(pairs, key))
}

/// `pairs` with the value of `key` set to `value`: in place where the key
/// occurs, else as a new last pair.
pub open spec fn upsert<K, V>(pairs: Seq<(K, V)>, key: K, value: V) -> Seq<(K, V)> {
    if has_key(pairs, key) {
        pairs.update(choose|i: int| 0 <= i < pairs.len() && pairs[i].0 == key, (key, value))
    } else {
        pairs.push((key, value))
    }
}

/// How many pairs have the value `value`.
pub open spec fn count_value<K, V>(pairs: Seq<(K, V)>, value: V) -> nat
    decreases pairs.len(),
{
    if pairs.len() == 0 {
        0
    } else {
        count_value(pairs.drop_last(), value) + if pairs.last().1 == value {
            1nat
        } else {
            0nat
        }
    }
}

/// In pairs with distinct keys, the pair found for a key is the one at its
/// index.
pub proof fn lemma_value_at<K, V>(pairs: Seq<(K, V)>, i: int)
    requires
        unique_keys(pairs),
        0 <= i < pairs.len(),
    ensures
        has_key(pairs, pairs[i].0),
        value_of(pairs, pairs[i].0) == pairs[i].1,
{
    let j = choose|j: int| 0 <= j < pairs.len() && pairs[j].0 == pairs[i].0;
    assert(j == i);
}

/// Setting a key's value keeps the keys distinct, and reads as a map
/// insertion.
pub proof fn lemma_upsert<K, V>(pairs: Seq<(K, V)>, key: K, value: V)
    requires
        unique_keys(pairs),
    ensures
        unique_keys(upsert(pairs, key, value)),
        pairs_map(upsert(pairs, key, value)) == pairs_map(pairs).insert(key, value),
{
    let next = upsert(pairs, key, value);
    assert forall|k: K| #[trigger] has_key(next, k) <==> has_key(pairs, k) || k == key by {
        if has_key(pairs, k) {
            let i = choose|i: int| 0 <= i < pairs.len() && pairs[i].0 == k;
            assert(next[i].0 == k);
        }
        if k == key {
            if has_key(pairs, key) {
                let i = choose|i: int| 0 <= i < pairs.len() && pairs[i].0 == key;
                assert(next[i].0 == key);
            } else {
                assert(next[pairs.len() as int].0 == key);
            }
        }
        if has_key(next, k) {
            let i = choose|i: int| 0 <= i < next.len() && next[i].0 == k;
            if i < pairs.len() && pairs[i].0 == k {
            } else {
                assert(k == key);
            }
        }
    }
    assert forall|k: K| has_key(next, k) implies value_of(next, k) == if k == key {
        value
    } else {
        value_of(pairs, k)
    } by {
        let i = choose|i: int| 0 <= i < next.len() && next[i].0 == k;
        if k == key {
        } else {
            assert(i < pairs.len() && pairs[i] == next[i]);
            lemma_value_at(pairs, i);
        }
    }
    assert(pairs_map(next) =~= pairs_map(pairs).insert(key, value));
}

/// One more pair of a prefix: the map gains that pair, and the count of a
/// value grows by one where the pair has it.
pub proof fn lemma_prefix_step<K, V>(pairs: Seq<(K, V)>, i: int, value: V)
    requires
        unique_keys(pairs),
        0 <= i < pairs.len(),
    ensures
        unique_keys(pairs.take(i)),
        unique_keys(pairs.take(i + 1)),
        !has_key(pairs.take(i), pairs[i].0),
        pairs_map(pairs.take(i + 1)) == pairs_map(pairs.take(i)).insert(pairs[i].0, pairs[i].1),
        count_value(pairs.take(i + 1), value) == count_value(pairs.take(i), value) + if pairs[i].1
            == value {
            1nat
        } else {
            0nat
        },
{
    let before = pairs.take(i);
    let after = pairs.take(i + 1);
    assert(after =~= before.push(pairs[i]));
    assert(after.drop_last() =~= before);
    if has_key(before, pairs[i].0) {
        let j = choose|j: int| 0 <= j < before.len() && before[j].0 == pairs[i].0;
        assert(pairs[j].0 == pairs[i].0);
    }
    lemma_upsert(before, pairs[i].0, pairs[i].1);
    assert(upsert(before, pairs[i].0, pairs[i].1) == after);
}

/// Reading pairs with distinct keys as a map: a key is in the map exactly
/// when some pair has it, and then maps to that pair's value.
pub proof fn law_pairs_map<K, V>(pairs: Seq<(K, V)>, i: int)
    requires
        unique_keys(pairs),
        0 <= i < pairs.len(),
    ensures
        pairs_map(pairs).contains_key(pairs[i].0),
        pairs_map(pairs)[pairs[i].0] == pairs[i].1,
        forall|key: K| #[trigger] pairs_map(pairs).contains_key(key) <==> exists|j: int| 0 <= j < pairs.len() && pairs[j].0 == key,
{
    lemma_value_at(pairs, i);
}

/// The keys whose value is `value`.
pub open spec fn keys_with_value<K, V>(map: Map<K, V>, value: V) -> Set<K> {
    Set::new(|key: K| map.contains_key(key) && map[key] == value)
}

/// In pairs with distinct keys, the pairs counted by `count_value` are those
/// of the keys that map to the value: as many keys as that count.
pub proof fn lemma_count_is_keys_with_value<K, V>(pairs: Seq<(K, V)>, value: V)
    requires
        unique_keys(pairs),
    ensures
        keys_with_value(pairs_map(pairs), value).finite(),
        keys_with_value(pairs_map(pairs), value).len() == count_value(pairs, value),
    decreases pairs.len(),
{
    if pairs.len() == 0 {
        assert(keys_with_value(pairs_map(pairs), value) =~= Set::<K>::empty());
    } else {
        let i = pairs.len() - 1;
        lemma_prefix_step(pairs, i, value);
        assert(pairs.take(i + 1) =~= pairs);
        assert(pairs.take(i) =~= pairs.drop_last());
        lemma_count_is_keys_with_value(pairs.drop_last(), value);
        let before = keys_with_value(pairs_map(pairs.drop_last()), value);
        let after = keys_with_value(pairs_map(pairs), value);
        let (key, v) = pairs[i];
        assert(!before.contains(key));
        if v == value {
            assert(after =~= before.insert(key));
        } else {
            assert(after =~= before);
        }
    }
}

} // verus!
