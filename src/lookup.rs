//! Association lists: a sequence of `(key, value)` pairs read as a map in
//! which the last pair for a key wins, as successive inserts into a map do.

use vstd::prelude::*;

verus! {

/// Position of the last pair whose key is `k`.
pub open spec fn last_index_of<K>(keys: Seq<K>, k: K) -> Option<int>
    decreases keys.len(),
{
    if keys.len() == 0 {
        None
    } else if keys.last() == k {
        Some(keys.len() - 1)
    } else {
        last_index_of(keys.drop_last(), k)
    }
}

pub open spec fn keys_of<K, V>(s: Seq<(K, V)>) -> Seq<K> {
    s.map_values(|e: (K, V)| e.0)
}

/// The value bound to `k`: that of the last pair whose key is `k`.
pub open spec fn lookup<K, V>(s: Seq<(K, V)>, k: K) -> Option<V> {
    match last_index_of(keys_of(s), k) {
        Some(i) => Some(s[i].1),
        None => None,
    }
}

pub proof fn lemma_last_index_of<K>(keys: Seq<K>, k: K)
    ensures
        last_index_of(keys, k) matches Some(i) ==> 0 <= i < keys.len() && keys[i] == k,
        last_index_of(keys, k) is None <==> !keys.contains(k),
    decreases keys.len(),
{
    if keys.len() > 0 {
        lemma_last_index_of(keys.drop_last(), k);
        if keys.last() != k {
            if keys.contains(k) {
                let j = choose|j: int| 0 <= j < keys.len() && keys[j] == k;
                assert(keys.drop_last()[j] == k);
            }
            if keys.drop_last().contains(k) {
                let j = choose|j: int| 0 <= j < keys.len() - 1 && keys.drop_last()[j] == k;
                assert(keys[j] == k);
            }
        } else {
            assert(keys[keys.len() - 1] == k);
        }
    }
}

/// Appending a pair for `k` binds `k` to its value and leaves other keys alone.
pub proof fn lemma_lookup_push<K, V>(s: Seq<(K, V)>, e: (K, V), k: K)
    ensures
        lookup(s.push(e), k) == (if e.0 == k { Some(e.1) } else { lookup(s, k) }),
{
    assert(keys_of(s.push(e)).drop_last() =~= keys_of(s));
    assert(keys_of(s.push(e)).last() == e.0);
    lemma_last_index_of(keys_of(s), k);
    if e.0 != k {
        if let Some(j) = last_index_of(keys_of(s), k) {
            assert(s.push(e)[j] == s[j]);
        }
    } else {
        assert(s.push(e)[s.len() as int] == e);
    }
}

/// Overwriting the value of the last pair for its key only changes the
/// binding of that key.
pub proof fn lemma_lookup_update_value<K, V>(s: Seq<(K, V)>, i: int, v: V, k: K)
    requires
        0 <= i < s.len(),
        last_index_of(keys_of(s), s[i].0) == Some(i),
    ensures
        lookup(s.update(i, (s[i].0, v)), k) == (if s[i].0 == k { Some(v) } else { lookup(s, k) }),
{
    assert(keys_of(s.update(i, (s[i].0, v))) =~= keys_of(s));
    lemma_last_index_of(keys_of(s), k);
    if let Some(j) = last_index_of(keys_of(s), k) {
        assert(keys_of(s)[j] == s[j].0);
        assert(keys_of(s)[i] == s[i].0);
    }
}

} // verus!
