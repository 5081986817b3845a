//! Association lists: sequences of (key, value) pairs read as maps, where a
//! later pair overrides an earlier one with the same key.

use vstd::prelude::*;

verus! {

/// The map that a list of pairs stands for.
pub open spec fn to_map<K, V>(s: Seq<(K, V)>) -> Map<K, V>
    decreases s.len(),
{
    if s.len() == 0 {
        Map::empty()
    } else {
        to_map(s.drop_last()).insert(s.last().0, s.last().1)
    }
}

/// The keys of the map are the keys of the pairs.
pub proof fn lemma_to_map_dom<K, V>(s: Seq<(K, V)>, k: K)
    ensures
        to_map(s).contains_key(k) <==> exists|i: int| 0 <= i < s.len() && (#[trigger] s[i]).0 == k,
    decreases s.len(),
{
    if s.len() > 0 {
        lemma_to_map_dom(s.drop_last(), k);
        if to_map(s.drop_last()).contains_key(k) {
            let i = choose|i: int| 0 <= i < s.drop_last().len() && (#[trigger] s.drop_last()[i]).0 == k;
            assert(s[i].0 == k);
        }
        if exists|i: int| 0 <= i < s.len() && (#[trigger] s[i]).0 == k {
            let i = choose|i: int| 0 <= i < s.len() && (#[trigger] s[i]).0 == k;
            if i < s.len() - 1 {
                assert(s.drop_last()[i].0 == k);
            }
        }
    }
}

/// The value of a key is that of its last pair.
pub proof fn lemma_to_map_last<K, V>(s: Seq<(K, V)>, i: int)
    requires
        0 <= i < s.len(),
        forall|j: int| i < j < s.len() ==> (#[trigger] s[j]).0 != s[i].0,
    ensures
        to_map(s).contains_key(s[i].0),
        to_map(s)[s[i].0] == s[i].1,
    decreases s.len(),
{
    if i < s.len() - 1 {
        assert forall|j: int| i < j < s.drop_last().len() implies (
        #[trigger] s.drop_last()[j]).0 != s.drop_last()[i].0 by {
            assert(s[j].0 != s[i].0);
        }
        lemma_to_map_last(s.drop_last(), i);
        assert(s.last().0 != s[i].0);
    }
}

/// Replacing the value of the last pair of a key replaces the key's value.
pub proof fn lemma_to_map_update<K, V>(s: Seq<(K, V)>, i: int, v: V)
    requires
        0 <= i < s.len(),
        forall|j: int| i < j < s.len() ==> (#[trigger] s[j]).0 != s[i].0,
    ensures
        to_map(s.update(i, (s[i].0, v))) == to_map(s).insert(s[i].0, v),
    decreases s.len(),
{
    let k = s[i].0;
    let t = s.update(i, (k, v));
    if i == s.len() - 1 {
        assert(t.drop_last() =~= s.drop_last());
        assert(to_map(t) =~= to_map(s).insert(k, v));
    } else {
        assert forall|j: int| i < j < s.drop_last().len() implies (
        #[trigger] s.drop_last()[j]).0 != s.drop_last()[i].0 by {
            assert(s[j].0 != s[i].0);
        }
        lemma_to_map_update(s.drop_last(), i, v);
        assert(t.drop_last() =~= s.drop_last().update(i, (k, v)));
        assert(s.last().0 != k);
        assert(to_map(t) =~= to_map(s).insert(k, v));
    }
}

/// The pairs of `s` that `keep` accepts.
pub open spec fn keep_keys<K, V>(m: Map<K, V>, keep: spec_fn(K) -> bool) -> Map<K, V> {
    Map::new(|k: K| m.contains_key(k) && keep(k), |k: K| m[k])
}

/// Dropping pairs one by one: the step that a filtering loop takes.
pub proof fn lemma_keep_step<K, V>(s: Seq<(K, V)>, i: int, keep: spec_fn(K) -> bool)
    requires
        0 <= i < s.len(),
    ensures
        keep_keys(to_map(s.take(i + 1)), keep) == if keep(s[i].0) {
            keep_keys(to_map(s.take(i)), keep).insert(s[i].0, s[i].1)
        } else {
            keep_keys(to_map(s.take(i)), keep)
        },
{
    assert(s.take(i + 1).drop_last() =~= s.take(i));
    if keep(s[i].0) {
        assert(keep_keys(to_map(s.take(i + 1)), keep) =~= keep_keys(to_map(s.take(i)), keep).insert(
            s[i].0,
            s[i].1,
        ));
    } else {
        assert(keep_keys(to_map(s.take(i + 1)), keep) =~= keep_keys(to_map(s.take(i)), keep));
    }
}

} // verus!
