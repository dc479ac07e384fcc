//! Tables kept as lists of `(key, value)` pairs, and the map such a
//! list describes.

use vstd::prelude::*;

verus! {

// ── string-keyed tables ────────────────────────────────────────────

/// The table a list of `(key, value)` pairs describes (a later pair for
/// the same key wins).
pub open spec fn kv_map<K, V>(s: Seq<(K, V)>) -> Map<K, V>
    decreases s.len(),
{
    if s.len() == 0 {
        Map::empty()
    } else {
        kv_map(s.drop_last()).insert(s.last().0, s.last().1)
    }
}

/// No key occurs twice.
pub open spec fn distinct_keys<K, V>(s: Seq<(K, V)>) -> bool {
    forall|i: int, j: int| 0 <= i < j < s.len() ==> (#[trigger] s[i]).0 != (#[trigger] s[j]).0
}

pub proof fn lemma_kv_contains<K, V>(s: Seq<(K, V)>, k: K)
    ensures
        kv_map(s).dom().contains(k) <==> exists|i: int| 0 <= i < s.len() && (#[trigger] s[i]).0 == k,
    decreases s.len(),
{
    if s.len() > 0 {
        let t = s.drop_last();
        lemma_kv_contains(t, k);
        if kv_map(s).dom().contains(k) && k != s.last().0 {
            let i = choose|i: int| 0 <= i < t.len() && (#[trigger] t[i]).0 == k;
            assert(s[i] == t[i]);
        }
        if exists|i: int| 0 <= i < s.len() && (#[trigger] s[i]).0 == k {
            let i = choose|i: int| 0 <= i < s.len() && (#[trigger] s[i]).0 == k;
            if i < s.len() - 1 {
                assert(t[i] == s[i]);
            }
        }
    }
}

pub proof fn lemma_kv_index<K, V>(s: Seq<(K, V)>, i: int)
    requires
        distinct_keys(s),
        0 <= i < s.len(),
    ensures
        kv_map(s).dom().contains(s[i].0),
        kv_map(s)[s[i].0] == s[i].1,
    decreases s.len(),
{
    if i < s.len() - 1 {
        let t = s.drop_last();
        assert(t[i] == s[i]);
        assert forall|a: int, b: int| 0 <= a < b < t.len() implies (#[trigger] t[a]).0 != (
        #[trigger] t[b]).0 by {
            assert(t[a] == s[a] && t[b] == s[b]);
        }
        lemma_kv_index(t, i);
        assert(s[i].0 != s[s.len() - 1].0);
    }
}

pub proof fn lemma_kv_update<K, V>(s: Seq<(K, V)>, i: int, x: V)
    requires
        distinct_keys(s),
        0 <= i < s.len(),
    ensures
        kv_map(s.update(i, (s[i].0, x))) == kv_map(s).insert(s[i].0, x),
        distinct_keys(s.update(i, (s[i].0, x))),
    decreases s.len(),
{
    let u = s.update(i, (s[i].0, x));
    assert forall|a: int, b: int| 0 <= a < b < u.len() implies (#[trigger] u[a]).0 != (
    #[trigger] u[b]).0 by {
        assert(u[a].0 == s[a].0 && u[b].0 == s[b].0);
    }
    if i == s.len() - 1 {
        assert(u.drop_last() =~= s.drop_last());
        assert(kv_map(u) =~= kv_map(s).insert(s[i].0, x));
    } else {
        let t = s.drop_last();
        assert(t[i] == s[i]);
        assert forall|a: int, b: int| 0 <= a < b < t.len() implies (#[trigger] t[a]).0 != (
        #[trigger] t[b]).0 by {
            assert(t[a] == s[a] && t[b] == s[b]);
        }
        lemma_kv_update(t, i, x);
        assert(u.drop_last() =~= t.update(i, (t[i].0, x)));
        assert(s[i].0 != s.last().0);
        assert(kv_map(u) =~= kv_map(s).insert(s[i].0, x));
    }
}

pub proof fn lemma_kv_push<K, V>(s: Seq<(K, V)>, k: K, x: V)
    requires
        distinct_keys(s),
        !kv_map(s).dom().contains(k),
    ensures
        kv_map(s.push((k, x))) == kv_map(s).insert(k, x),
        distinct_keys(s.push((k, x))),
{
    lemma_kv_contains(s, k);
    assert(s.push((k, x)).drop_last() =~= s);
    let u = s.push((k, x));
    assert forall|a: int, b: int| 0 <= a < b < u.len() implies (#[trigger] u[a]).0 != (
    #[trigger] u[b]).0 by {
        if b == s.len() {
            assert(u[a] == s[a]);
        } else {
            assert(u[a] == s[a] && u[b] == s[b]);
        }
    }
}

} // verus!
