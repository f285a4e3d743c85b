//! Association lists: sequences of key/value pairs with unique keys.
//!
//! The token keeps its balance and allowance tables as vectors of pairs; the
//! spec functions here say what such a table holds. `assoc_get` returns the
//! value stored under a key, or a default when the key is absent.

use vstd::prelude::*;

verus! {

/// No key occurs twice.
pub open spec fn unique_keys<K, V>(s: Seq<(K, V)>) -> bool {
    forall|i: int, j: int| 0 <= i < j < s.len() ==> (#[trigger] s[i]).0 != (#[trigger] s[j]).0
}

/// Some entry carries the key `k`.
pub open spec fn assoc_has<K, V>(s: Seq<(K, V)>, k: K) -> bool {
    exists|i: int| 0 <= i < s.len() && (#[trigger] s[i]).0 == k
}

/// The value stored under `k`, or `d` when `k` is absent. When keys are
/// unique the direction of the scan does not matter.
pub open spec fn assoc_get<K, V>(s: Seq<(K, V)>, k: K, d: V) -> V
    decreases s.len(),
{
    if s.len() == 0 {
        d
    } else if s.last().0 == k {
        s.last().1
    } else {
        assoc_get(s.drop_last(), k, d)
    }
}

/// An entry that carries `k` determines `assoc_get`, when keys are unique.
pub proof fn lemma_assoc_get_present<K, V>(s: Seq<(K, V)>, k: K, d: V, i: int)
    requires
        unique_keys(s),
        0 <= i < s.len(),
        s[i].0 == k,
    ensures
        assoc_get(s, k, d) == s[i].1,
    decreases s.len(),
{
    if i < s.len() - 1 {
        lemma_assoc_get_present(s.drop_last(), k, d, i);
    }
}

/// Without an entry for `k`, `assoc_get` falls back to the default.
pub proof fn lemma_assoc_get_absent<K, V>(s: Seq<(K, V)>, k: K, d: V)
    requires
        !assoc_has(s, k),
    ensures
        assoc_get(s, k, d) == d,
    decreases s.len(),
{
    if s.len() > 0 {
        assert(!assoc_has(s.drop_last(), k)) by {
            assert(forall|i: int|
                0 <= i < s.len() - 1 ==> (#[trigger] s.drop_last()[i]) == s[i]);
        }
        lemma_assoc_get_absent(s.drop_last(), k, d);
    }
}

/// Overwriting the entry at `i` changes only the value stored under its key.
pub proof fn lemma_assoc_get_update<K, V>(s: Seq<(K, V)>, k: K, v: V, d: V, i: int, q: K)
    requires
        unique_keys(s),
        0 <= i < s.len(),
        s[i].0 == k,
    ensures
        assoc_get(s.update(i, (k, v)), q, d) == if q == k {
            v
        } else {
            assoc_get(s, q, d)
        },
    decreases s.len(),
{
    let t = s.update(i, (k, v));
    if i == s.len() - 1 {
        assert(t.drop_last() =~= s.drop_last());
    } else {
        assert(t.drop_last() =~= s.drop_last().update(i, (k, v)));
        lemma_assoc_get_update(s.drop_last(), k, v, d, i, q);
    }
}

/// Updating an entry keeps the keys, so uniqueness survives.
pub proof fn lemma_unique_keys_update<K, V>(s: Seq<(K, V)>, k: K, v: V, i: int)
    requires
        unique_keys(s),
        0 <= i < s.len(),
        s[i].0 == k,
    ensures
        unique_keys(s.update(i, (k, v))),
{
}

/// Appending a fresh key keeps uniqueness, and `assoc_get` reads the new
/// entry under the new key and is unchanged elsewhere.
pub proof fn lemma_assoc_push<K, V>(s: Seq<(K, V)>, k: K, v: V, d: V, q: K)
    requires
        unique_keys(s),
        !assoc_has(s, k),
    ensures
        unique_keys(s.push((k, v))),
        assoc_get(s.push((k, v)), q, d) == if q == k {
            v
        } else {
            assoc_get(s, q, d)
        },
{
    let t = s.push((k, v));
    assert(t.drop_last() =~= s);
    assert forall|i: int, j: int| 0 <= i < j < t.len() implies (#[trigger] t[i]).0 != (
    #[trigger] t[j]).0 by {
        if j == t.len() - 1 {
            assert(s[i].0 != k);
        }
    }
}

} // verus!
