//! Byte accounting for the caches: summing an entry-weight function over
//! a map of live entries, and the lemma that lets an executable scan of
//! the entries compute that sum exactly.

use vstd::prelude::*;

verus! {

/// Sum of `f` over all entries of a finite map.
pub open spec fn map_sum<K, V>(m: Map<K, V>, f: spec_fn(K, V) -> nat) -> nat
    decreases m.dom().len(),
    when m.dom().finite()
{
    if m.dom().is_empty() {
        0
    } else {
        let k = m.dom().choose();
        f(k, m[k]) + map_sum(m.remove(k), f)
    }
}

/// Removing any present key takes exactly its weight out of the sum (not
/// only the key `choose` picks).
pub proof fn lemma_map_sum_remove<K, V>(m: Map<K, V>, f: spec_fn(K, V) -> nat, k: K)
    requires
        m.dom().finite(),
        m.dom().contains(k),
    ensures
        map_sum(m, f) == f(k, m[k]) + map_sum(m.remove(k), f),
    decreases m.dom().len(),
{
    let k0 = m.dom().choose();
    assert(m.dom().contains(k0));
    if k0 == k {
    } else {
        assert(m.remove(k0).dom().contains(k));
        lemma_map_sum_remove(m.remove(k0), f, k);
        assert(m.remove(k).dom().contains(k0));
        lemma_map_sum_remove(m.remove(k), f, k0);
        assert(m.remove(k0).remove(k) =~= m.remove(k).remove(k0));
        assert(m.remove(k0)[k] == m[k]);
        assert(m.remove(k)[k0] == m[k0]);
    }
}

/// Inserting a fresh key adds exactly its weight.
pub proof fn lemma_map_sum_insert<K, V>(m: Map<K, V>, f: spec_fn(K, V) -> nat, k: K, v: V)
    requires
        m.dom().finite(),
        !m.dom().contains(k),
    ensures
        map_sum(m.insert(k, v), f) == map_sum(m, f) + f(k, v),
{
    let m2 = m.insert(k, v);
    assert(m2.dom().contains(k));
    lemma_map_sum_remove(m2, f, k);
    assert(m2.remove(k) =~= m);
}

/// Sum of a weight function over a sequence of key/value pairs.
pub open spec fn pair_seq_sum<K, V>(s: Seq<(K, V)>, f: spec_fn(K, V) -> nat) -> nat
    decreases s.len(),
{
    if s.len() == 0 {
        0
    } else {
        f(s[0].0, s[0].1) + pair_seq_sum(s.skip(1), f)
    }
}

/// A sequence that enumerates a map exactly (each pair is in the map,
/// keys are distinct, and every key of the map appears) has the same
/// weight sum as the map.
pub proof fn lemma_enumeration_sum<K, V>(s: Seq<(K, V)>, m: Map<K, V>, f: spec_fn(K, V) -> nat)
    requires
        m.dom().finite(),
        forall|i: int| 0 <= i < s.len() ==> m.contains_pair((#[trigger] s[i]).0, s[i].1),
        forall|i: int, j: int| 0 <= i < j < s.len() ==> (#[trigger] s[i]).0 != (#[trigger] s[j]).0,
        forall|k: K| #[trigger] m.dom().contains(k) ==> exists|i: int| 0 <= i < s.len() && (#[trigger] s[i]).0 == k,
    ensures
        pair_seq_sum(s, f) == map_sum(m, f),
    decreases s.len(),
{
    if s.len() == 0 {
        assert(m.dom() =~= Set::empty());
        assert(m.dom().is_empty());
    } else {
        let k0 = s[0].0;
        let v0 = s[0].1;
        assert(m.contains_pair(k0, v0));
        let rest = s.skip(1);
        let m2 = m.remove(k0);
        assert forall|i: int| 0 <= i < rest.len()
            implies m2.contains_pair((#[trigger] rest[i]).0, rest[i].1) by {
            assert(rest[i] == s[i + 1]);
            assert(m.contains_pair(s[i + 1].0, s[i + 1].1));
            assert(s[0].0 != s[i + 1].0);
        }
        assert forall|i: int, j: int| 0 <= i < j < rest.len()
            implies (#[trigger] rest[i]).0 != (#[trigger] rest[j]).0 by {
            assert(rest[i] == s[i + 1] && rest[j] == s[j + 1]);
            assert(s[i + 1].0 != s[j + 1].0);
        }
        assert forall|k: K| #[trigger] m2.dom().contains(k)
            implies exists|i: int| 0 <= i < rest.len() && (#[trigger] rest[i]).0 == k by {
            assert(m.dom().contains(k));
            let i = choose|i: int| 0 <= i < s.len() && (#[trigger] s[i]).0 == k;
            assert(k != k0);
            assert(i != 0);
            assert(rest[i - 1] == s[i]);
            assert(rest[i - 1].0 == k);
        }
        lemma_enumeration_sum(rest, m2, f);
        lemma_map_sum_remove(m, f, k0);
        assert(m[k0] == v0);
    }
}

} // verus!

verus! {

/// Appending a pair adds its weight to the sequence sum.
pub proof fn lemma_pair_seq_sum_push<K, V>(s: Seq<(K, V)>, f: spec_fn(K, V) -> nat, p: (K, V))
    ensures
        pair_seq_sum(s.push(p), f) == pair_seq_sum(s, f) + f(p.0, p.1),
    decreases s.len(),
{
    if s.len() == 0 {
        assert(s.push(p)[0] == p);
        assert(s.push(p).skip(1) =~= Seq::empty());
        assert(pair_seq_sum(s.push(p).skip(1), f) == 0);
        assert(pair_seq_sum(s, f) == 0);
        assert(pair_seq_sum(s.push(p), f)
            == f(s.push(p)[0].0, s.push(p)[0].1) + pair_seq_sum(s.push(p).skip(1), f));
    } else {
        assert(s.push(p).skip(1) =~= s.skip(1).push(p));
        assert(s.push(p)[0] == s[0]);
        lemma_pair_seq_sum_push(s.skip(1), f, p);
        assert(pair_seq_sum(s.push(p), f)
            == f(s.push(p)[0].0, s.push(p)[0].1) + pair_seq_sum(s.push(p).skip(1), f));
        assert(pair_seq_sum(s, f) == f(s[0].0, s[0].1) + pair_seq_sum(s.skip(1), f));
    }
}

} // verus!
