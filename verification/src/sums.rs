//! Sums over finite maps.

use vstd::prelude::*;

verus! {

/// The sum of the values of a finite map.
pub open spec fn sum_of<K>(m: Map<K, nat>) -> nat
    decreases m.dom().len(),
    when m.dom().finite()
{
    if m.dom().len() == 0 {
        0
    } else {
        let k = m.dom().choose();
        m[k] + sum_of(m.remove(k))
    }
}

/// Any key may be split off the sum.
pub proof fn lemma_sum_split<K>(m: Map<K, nat>, k: K)
    requires
        m.dom().finite(),
        m.contains_key(k),
    ensures
        sum_of(m) == m[k] + sum_of(m.remove(k)),
    decreases m.dom().len(),
{
    let c = m.dom().choose();
    assert(m.dom().contains(k));
    if m.dom().len() == 0 {
        assert(m.dom() =~= Set::empty());
    }
    assert(m.dom().contains(c));
    if c != k {
        let rest = m.remove(c);
        assert(rest.dom() =~= m.dom().remove(c));
        lemma_sum_split(rest, k);
        assert(rest.remove(k) =~= m.remove(k).remove(c));
        assert(m.remove(k).dom() =~= m.dom().remove(k));
        lemma_sum_split(m.remove(k), c);
    }
}

/// A fresh key adds its value to the sum.
pub proof fn lemma_sum_insert<K>(m: Map<K, nat>, k: K, v: nat)
    requires
        m.dom().finite(),
        !m.contains_key(k),
    ensures
        sum_of(m.insert(k, v)) == sum_of(m) + v,
{
    assert(m.insert(k, v).dom() =~= m.dom().insert(k));
    lemma_sum_split(m.insert(k, v), k);
    assert(m.insert(k, v).remove(k) =~= m);
}

/// The empty map sums to zero.
pub proof fn lemma_sum_empty<K>()
    ensures
        sum_of(Map::<K, nat>::empty()) == 0,
{
    assert(Map::<K, nat>::empty().dom() =~= Set::empty());
}

} // verus!
