//! Sums over the entries of a map, and counts of the items of a list.

use vstd::prelude::*;

use crate::sorted::{map_of, map_of_rising, rising, Ordered};

verus! {

/// What the entries of a finite map come to.
pub open spec fn map_sum<K, M>(m: Map<K, M>, f: spec_fn(K, M) -> nat) -> nat
    decreases m.dom().len(),
{
    if m.dom().finite() && m.dom().len() > 0 {
        let k = m.dom().choose();
        f(k, m[k]) + map_sum(m.remove(k), f)
    } else {
        0
    }
}

/// The order in which entries are added does not matter.
pub proof fn sum_without<K, M>(m: Map<K, M>, f: spec_fn(K, M) -> nat, k: K)
    requires
        m.dom().finite(),
        m.contains_key(k),
    ensures
        map_sum(m, f) == f(k, m[k]) + map_sum(m.remove(k), f),
    decreases m.dom().len(),
{
    let c = m.dom().choose();
    assert(m.dom().contains(c));
    if c != k {
        sum_without(m.remove(c), f, k);
        sum_without(m.remove(k), f, c);
        assert(m.remove(c).remove(k) =~= m.remove(k).remove(c));
    }
}

/// One more entry adds what it comes to.
pub proof fn sum_with<K, M>(m: Map<K, M>, f: spec_fn(K, M) -> nat, k: K, v: M)
    requires
        m.dom().finite(),
        !m.contains_key(k),
    ensures
        map_sum(m.insert(k, v), f) == f(k, v) + map_sum(m, f),
{
    sum_without(m.insert(k, v), f, k);
    assert(m.insert(k, v).remove(k) =~= m);
}

/// Nothing comes to nothing.
pub proof fn sum_empty<K, M>(f: spec_fn(K, M) -> nat)
    ensures
        map_sum(Map::<K, M>::empty(), f) == 0,
{
    assert(Map::<K, M>::empty().dom().len() == 0);
}

/// Part of a map has no more entries than the whole, and comes to no more.
pub proof fn sum_of_part<K, M>(part: Map<K, M>, whole: Map<K, M>, f: spec_fn(K, M) -> nat)
    requires
        whole.dom().finite(),
        part.submap_of(whole),
    ensures
        part.dom().finite(),
        part.dom().len() <= whole.dom().len(),
        map_sum(part, f) <= map_sum(whole, f),
    decreases whole.dom().len(),
{
    assert(part.dom().subset_of(whole.dom()));
    vstd::set_lib::lemma_len_subset(part.dom(), whole.dom());
    if whole.dom().len() > 0 {
        let k = whole.dom().choose();
        sum_without(whole, f, k);
        if part.contains_key(k) {
            sum_without(part, f, k);
            sum_of_part(part.remove(k), whole.remove(k), f);
        } else {
            sum_of_part(part, whole.remove(k), f);
        }
    } else {
        assert(part.dom() =~= Set::empty());
    }
}

/// What a list of entries comes to.
pub open spec fn list_sum<K, M>(s: Seq<(K, M)>, f: spec_fn(K, M) -> nat) -> nat
    decreases s.len(),
{
    if s.len() == 0 {
        0
    } else {
        list_sum(s.drop_last(), f) + f(s.last().0, s.last().1)
    }
}

/// A rising list comes to what its map comes to.
pub proof fn list_sum_is_map_sum<K: Ordered, M>(s: Seq<(K, M)>, f: spec_fn(K, M) -> nat)
    requires
        rising(s),
    ensures
        list_sum(s, f) == map_sum(map_of(s), f),
    decreases s.len(),
{
    if s.len() > 0 {
        let t = s.drop_last();
        assert forall|i: int, j: int| 0 <= i < j < t.len() implies (#[trigger] t[i]).0.before(
            (#[trigger] t[j]).0,
        ) by {
            assert(s[i].0.before(s[j].0));
        }
        list_sum_is_map_sum(t, f);
        map_of_rising(t);
        let last = s.last();
        if map_of(t).contains_key(last.0) {
            let i = choose|i: int| 0 <= i < t.len() && (#[trigger] t[i]).0 == last.0;
            assert(s[i].0.before(s[s.len() - 1].0));
            K::irreflexive(last.0);
        }
        sum_with(map_of(t), f, last.0, last.1);
    } else {
        sum_empty::<K, M>(f);
    }
}

/// One more item anywhere in a list counts once.
pub proof fn insert_counts<T>(s: Seq<T>, at: int, c: T)
    requires
        0 <= at <= s.len(),
    ensures
        s.insert(at, c).to_multiset() == s.to_multiset().insert(c),
{
    broadcast use vstd::seq_lib::group_to_multiset_ensures;

    let t = s.insert(at, c);
    assert(t.remove(at) =~= s);
    assert(t.to_multiset() =~= s.to_multiset().insert(c));
}

/// One more item at the end of a list counts once.
pub proof fn push_counts<T>(s: Seq<T>, c: T)
    ensures
        s.push(c).to_multiset() == s.to_multiset().insert(c),
{
    broadcast use vstd::seq_lib::group_to_multiset_ensures;

}

} // verus!
