//! Sums over the entries of finite maps.

use vstd::prelude::*;

verus! {

/// The sum of the weights of all entries of a finite map.
pub open spec fn weight<K, V>(m: Map<K, V>, w: spec_fn(K, V) -> nat) -> nat
    decreases m.dom().len(),
{
    if m.dom().finite() && m.dom().len() > 0 {
        let k = m.dom().choose();
        w(k, m[k]) + weight(m.remove(k), w)
    } else {
        0
    }
}

/// Any entry may be set aside first.
pub proof fn lemma_weight_remove<K, V>(m: Map<K, V>, w: spec_fn(K, V) -> nat, k: K)
    requires
        m.dom().finite(),
        m.contains_key(k),
    ensures
        weight(m, w) == w(k, m[k]) + weight(m.remove(k), w),
    decreases m.dom().len(),
{
    let c = m.dom().choose();
    if c != k {
        lemma_weight_remove(m.remove(c), w, k);
        lemma_weight_remove(m.remove(k), w, c);
        assert(m.remove(c).remove(k) =~= m.remove(k).remove(c));
    }
}

/// A new entry adds its own weight; one that takes the place of another adds the difference.
pub proof fn lemma_weight_insert<K, V>(m: Map<K, V>, w: spec_fn(K, V) -> nat, k: K, v: V)
    requires
        m.dom().finite(),
    ensures
        weight(m.insert(k, v), w) == weight(m.remove(k), w) + w(k, v),
        !m.contains_key(k) ==> weight(m.insert(k, v), w) == weight(m, w) + w(k, v),
{
    lemma_weight_remove(m.insert(k, v), w, k);
    assert(m.insert(k, v).remove(k) =~= m.remove(k));
    if !m.contains_key(k) {
        assert(m.remove(k) =~= m);
    }
}

} // verus!
