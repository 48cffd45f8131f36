//! A map that keeps its entries in the order of their keys.
//!
//! Peers decide that they have converged by comparing bytes, so two maps that hold the
//! same entries list them in the same order.

use vstd::prelude::*;

use crate::bytes::{comes_before, lex_before, lex_irreflexive, lex_total, lex_transitive};
use crate::types::{BridgeId, OutPoint};

verus! {

broadcast use vstd::array::group_array_axioms;

/// Keys with a total order.
pub trait Ordered: Copy + Sized {
    spec fn before(self, other: Self) -> bool;

    proof fn irreflexive(a: Self)
        ensures
            !a.before(a),
    ;

    proof fn transitive(a: Self, b: Self, c: Self)
        requires
            a.before(b),
            b.before(c),
        ensures
            a.before(c),
    ;

    proof fn total(a: Self, b: Self)
        ensures
            a == b || a.before(b) || b.before(a),
    ;

    fn is_before(&self, other: &Self) -> (r: bool)
        ensures
            r == self.before(*other),
    ;
}

impl Ordered for u32 {
    open spec fn before(self, other: Self) -> bool {
        self < other
    }

    proof fn irreflexive(a: Self) {
    }

    proof fn transitive(a: Self, b: Self, c: Self) {
    }

    proof fn total(a: Self, b: Self) {
    }

    fn is_before(&self, other: &Self) -> (r: bool) {
        *self < *other
    }
}

/// The order of 32-byte values is the order of their bytes.
proof fn total32(a: [u8; 32], b: [u8; 32])
    ensures
        a == b || lex_before(a@, b@) || lex_before(b@, a@),
{
    lex_total(a@, b@);
    if a@ == b@ {
        assert(a =~= b);
    }
}

impl Ordered for BridgeId {
    open spec fn before(self, other: Self) -> bool {
        lex_before(self.0@, other.0@)
    }

    proof fn irreflexive(a: Self) {
        lex_irreflexive(a.0@);
    }

    proof fn transitive(a: Self, b: Self, c: Self) {
        lex_transitive(a.0@, b.0@, c.0@);
    }

    proof fn total(a: Self, b: Self) {
        total32(a.0, b.0);
    }

    fn is_before(&self, other: &Self) -> (r: bool) {
        comes_before(&self.0, &other.0)
    }
}

/// A claim's identity within a set: the digest of the signed claim.
#[derive(Clone, Copy, PartialEq, Eq, PartialOrd, Ord, Hash, Debug, Default)]
pub struct ClaimKey(pub [u8; 32]);

impl Ordered for ClaimKey {
    open spec fn before(self, other: Self) -> bool {
        lex_before(self.0@, other.0@)
    }

    proof fn irreflexive(a: Self) {
        lex_irreflexive(a.0@);
    }

    proof fn transitive(a: Self, b: Self, c: Self) {
        lex_transitive(a.0@, b.0@, c.0@);
    }

    proof fn total(a: Self, b: Self) {
        total32(a.0, b.0);
    }

    fn is_before(&self, other: &Self) -> (r: bool) {
        comes_before(&self.0, &other.0)
    }
}

impl Ordered for OutPoint {
    open spec fn before(self, other: Self) -> bool {
        lex_before(self.txid.0@, other.txid.0@) || (self.txid.0@ == other.txid.0@ && self.vout
            < other.vout)
    }

    proof fn irreflexive(a: Self) {
        lex_irreflexive(a.txid.0@);
    }

    proof fn transitive(a: Self, b: Self, c: Self) {
        if lex_before(a.txid.0@, b.txid.0@) && lex_before(b.txid.0@, c.txid.0@) {
            lex_transitive(a.txid.0@, b.txid.0@, c.txid.0@);
        }
    }

    proof fn total(a: Self, b: Self) {
        total32(a.txid.0, b.txid.0);
    }

    fn is_before(&self, other: &Self) -> (r: bool) {
        if comes_before(&self.txid.0, &other.txid.0) {
            true
        } else if comes_before(&other.txid.0, &self.txid.0) {
            proof {
                if self.txid.0@ == other.txid.0@ {
                    lex_irreflexive(self.txid.0@);
                }
            }
            false
        } else {
            proof {
                lex_total(self.txid.0@, other.txid.0@);
            }
            self.vout < other.vout
        }
    }
}

/// Keys that strictly rise.
pub open spec fn rising<K: Ordered, M>(s: Seq<(K, M)>) -> bool {
    forall|i: int, j: int| 0 <= i < j < s.len() ==> (#[trigger] s[i]).0.before((#[trigger] s[j]).0)
}

/// The map that a list of entries stands for.
pub open spec fn map_of<K, M>(s: Seq<(K, M)>) -> Map<K, M>
    decreases s.len(),
{
    if s.len() == 0 {
        Map::empty()
    } else {
        map_of(s.drop_last()).insert(s.last().0, s.last().1)
    }
}

/// The keys of a rising list are the keys of its map, each with its own value.
pub proof fn map_of_rising<K: Ordered, M>(s: Seq<(K, M)>)
    requires
        rising(s),
    ensures
        forall|i: int|
            0 <= i < s.len() ==> map_of(s).contains_key((#[trigger] s[i]).0) && map_of(s)[s[i].0]
                == s[i].1,
        forall|k: K|
            #[trigger] map_of(s).contains_key(k) ==> exists|i: int|
                0 <= i < s.len() && (#[trigger] s[i]).0 == k,
        map_of(s).dom().finite(),
        map_of(s).dom().len() == s.len(),
    decreases s.len(),
{
    if s.len() > 0 {
        let t = s.drop_last();
        assert(rising(t)) by {
            assert forall|i: int, j: int| 0 <= i < j < t.len() implies (#[trigger] t[i]).0.before(
                (#[trigger] t[j]).0,
            ) by {
                assert(s[i].0.before(s[j].0));
            }
        }
        map_of_rising(t);
        let last = s.last();
        assert forall|i: int| 0 <= i < t.len() implies (#[trigger] t[i]).0 != last.0 by {
            assert(s[i].0.before(s[s.len() - 1].0));
            K::irreflexive(last.0);
        }
        assert(!map_of(t).contains_key(last.0));
        assert forall|i: int| 0 <= i < s.len() implies map_of(s).contains_key((#[trigger] s[i]).0)
            && map_of(s)[s[i].0] == s[i].1 by {
            if i < t.len() {
                assert(t[i] == s[i]);
            }
        }
        assert forall|k: K| #[trigger] map_of(s).contains_key(k) implies exists|i: int|
            0 <= i < s.len() && (#[trigger] s[i]).0 == k by {
            if k == last.0 {
                assert(s[s.len() - 1].0 == k);
            } else {
                assert(map_of(t).contains_key(k));
                let i = choose|i: int| 0 <= i < t.len() && (#[trigger] t[i]).0 == k;
                assert(s[i].0 == k);
            }
        }
        assert(map_of(s).dom() =~= map_of(t).dom().insert(last.0));
    }
}

/// Two rising lists of one map are the same list.
pub proof fn map_determines_list<K: Ordered, M>(a: Seq<(K, M)>, b: Seq<(K, M)>)
    requires
        rising(a),
        rising(b),
        map_of(a) == map_of(b),
    ensures
        a == b,
    decreases a.len(),
{
    map_of_rising(a);
    map_of_rising(b);
    if a.len() > 0 {
        let x = a.last();
        let y = b.last();
        if x.0 != y.0 {
            K::total(x.0, y.0);
            if x.0.before(y.0) {
                assert(map_of(a).contains_key(b[b.len() - 1].0));
                let i = choose|i: int| 0 <= i < a.len() && (#[trigger] a[i]).0 == y.0;
                if i < a.len() - 1 {
                    assert(a[i].0.before(a[a.len() - 1].0));
                    K::transitive(x.0, y.0, x.0);
                }
                K::irreflexive(x.0);
            } else {
                assert(map_of(b).contains_key(a[a.len() - 1].0));
                let i = choose|i: int| 0 <= i < b.len() && (#[trigger] b[i]).0 == x.0;
                if i < b.len() - 1 {
                    assert(b[i].0.before(b[b.len() - 1].0));
                    K::transitive(y.0, x.0, y.0);
                }
                K::irreflexive(y.0);
            }
        }
        assert(x.1 == y.1) by {
            assert(map_of(a)[a[a.len() - 1].0] == x.1);
            assert(map_of(b)[b[b.len() - 1].0] == y.1);
        }
        let s = a.drop_last();
        let t = b.drop_last();
        drop_last_rises(a);
        drop_last_rises(b);
        map_of_rising(s);
        map_of_rising(t);
        assert(!map_of(s).contains_key(x.0)) by {
            if map_of(s).contains_key(x.0) {
                let i = choose|i: int| 0 <= i < s.len() && (#[trigger] s[i]).0 == x.0;
                assert(a[i].0.before(a[a.len() - 1].0));
                K::irreflexive(x.0);
            }
        }
        assert(!map_of(t).contains_key(x.0)) by {
            if map_of(t).contains_key(x.0) {
                let i = choose|i: int| 0 <= i < t.len() && (#[trigger] t[i]).0 == x.0;
                assert(b[i].0.before(b[b.len() - 1].0));
                K::irreflexive(x.0);
            }
        }
        assert(map_of(s) =~= map_of(a).remove(x.0));
        assert(map_of(t) =~= map_of(b).remove(x.0));
        map_determines_list(s, t);
        assert(a =~= s.push(x));
        assert(b =~= t.push(y));
    } else {
        assert(a =~= b);
    }
}

proof fn drop_last_rises<K: Ordered, M>(s: Seq<(K, M)>)
    requires
        rising(s),
        s.len() > 0,
    ensures
        rising(s.drop_last()),
{
    let t = s.drop_last();
    assert forall|i: int, j: int| 0 <= i < j < t.len() implies (#[trigger] t[i]).0.before(
        (#[trigger] t[j]).0,
    ) by {
        assert(s[i].0.before(s[j].0));
    }
}

/// The entries with their values as mathematical values.
pub open spec fn modelled<K, V: View>(s: Seq<(K, V)>) -> Seq<(K, V::V)> {
    s.map_values(|e: (K, V)| (e.0, e.1@))
}

/// Values that can be had twice.
pub trait Copied: View + Sized {
    fn copied(&self) -> (r: Self)
        ensures
            r@ == self@,
    ;
}

impl Copied for u32 {
    fn copied(&self) -> (r: Self) {
        *self
    }
}

/// A map from `K` to `V`, its entries in the order of their keys.
#[derive(PartialEq, Eq, Debug)]
pub struct SortedMap<K: Ordered, V: View> {
    entries: Vec<(K, V)>,
}

impl<K: Ordered, V: View> View for SortedMap<K, V> {
    type V = Map<K, V::V>;

    open spec fn view(&self) -> Map<K, V::V> {
        map_of(self.list())
    }
}

impl<K: Ordered, V: View> SortedMap<K, V> {
    /// The entries in the order of their keys.
    pub closed spec fn list(&self) -> Seq<(K, V::V)> {
        modelled(self.entries@)
    }

    #[verifier::type_invariant]
    spec fn in_order(&self) -> bool {
        rising(modelled(self.entries@))
    }

    /// What every map of this kind keeps: its entries rise, and are those of its map.
    pub open spec fn wf(&self) -> bool {
        &&& rising(self.list())
        &&& forall|i: int|
            0 <= i < self.list().len() ==> self@.contains_key((#[trigger] self.list()[i]).0)
                && self@[self.list()[i].0] == self.list()[i].1
        &&& forall|k: K|
            #[trigger] self@.contains_key(k) ==> exists|i: int|
                0 <= i < self.list().len() && (#[trigger] self.list()[i]).0 == k
        &&& self@.dom().finite()
        &&& self@.dom().len() == self.list().len()
    }

    pub fn new() -> (r: Self)
        ensures
            r@ == Map::<K, V::V>::empty(),
            r.list() == Seq::<(K, V::V)>::empty(),
    {
        let r = SortedMap { entries: Vec::new() };
        assert(r.list() =~= Seq::<(K, V::V)>::empty());
        r
    }

    pub fn len(&self) -> (r: usize)
        ensures
            r == self.list().len(),
            self.wf(),
    {
        proof {
            use_type_invariant(self);
            map_of_rising(self.list());
        }
        self.entries.len()
    }

    pub fn is_empty(&self) -> (r: bool)
        ensures
            r == (self.list().len() == 0),
            self.wf(),
    {
        self.len() == 0
    }

    /// The `i`th entry.
    pub fn at(&self, i: usize) -> (r: (&K, &V))
        requires
            i < self.list().len(),
        ensures
            (*r.0, r.1@) == self.list()[i as int],
            self.wf(),
    {
        proof {
            use_type_invariant(self);
            map_of_rising(self.list());
        }
        let e = &self.entries[i];
        (&e.0, &e.1)
    }

    /// Where `k` stands, or where it would.
    fn position(&self, k: &K) -> (r: usize)
        ensures
            r <= self.list().len(),
            forall|i: int| 0 <= i < r ==> (#[trigger] self.list()[i]).0.before(*k),
            forall|i: int|
                r <= i < self.list().len() ==> !(#[trigger] self.list()[i]).0.before(*k),
    {
        proof {
            use_type_invariant(self);
        }
        let ghost s = self.list();
        let mut lo: usize = 0;
        let mut hi: usize = self.entries.len();
        while lo < hi
            invariant
                s == self.list(),
                s == modelled(self.entries@),
                rising(s),
                lo <= hi <= s.len(),
                forall|i: int| 0 <= i < lo ==> (#[trigger] s[i]).0.before(*k),
                forall|i: int| hi <= i < s.len() ==> !(#[trigger] s[i]).0.before(*k),
            decreases hi - lo,
        {
            let mid: usize = lo + (hi - lo) / 2;
            let e = &self.entries[mid];
            assert(s[mid as int].0 == e.0);
            if e.0.is_before(k) {
                proof {
                    assert forall|i: int| 0 <= i < mid + 1 implies (#[trigger] s[i]).0.before(
                        *k,
                    ) by {
                        if i < mid {
                            K::transitive(s[i].0, s[mid as int].0, *k);
                        }
                    }
                }
                lo = mid + 1;
            } else {
                proof {
                    assert forall|i: int| mid <= i < s.len() implies !(
                    #[trigger] s[i]).0.before(*k) by {
                        if i > mid && s[i].0.before(*k) {
                            K::transitive(s[mid as int].0, s[i].0, *k);
                        }
                    }
                }
                hi = mid;
            }
        }
        lo
    }

    pub fn get(&self, k: &K) -> (r: Option<&V>)
        ensures
            match r {
                Some(v) => self@.contains_key(*k) && self@[*k] == v@,
                None => !self@.contains_key(*k),
            },
            self.wf(),
    {
        proof {
            use_type_invariant(self);
            map_of_rising(self.list());
        }
        let ghost s = self.list();
        let i: usize = self.position(k);
        if i < self.entries.len() {
            let e = &self.entries[i];
            assert(s[i as int] == (e.0, e.1@));
            if !k.is_before(&e.0) {
                proof {
                    K::total(*k, e.0);
                }
                return Some(&e.1);
            }
        }
        proof {
            if self@.contains_key(*k) {
                let j = choose|j: int| 0 <= j < s.len() && (#[trigger] s[j]).0 == *k;
                K::irreflexive(*k);
                if i < j {
                    assert(s[i as int].0.before(s[j].0));
                }
            }
        }
        None
    }

    pub fn contains_key(&self, k: &K) -> (r: bool)
        ensures
            r == self@.contains_key(*k),
            self.wf(),
    {
        self.get(k).is_some()
    }

    /// Put `v` at `k`, in place of what stood there.
    pub fn insert(&mut self, k: K, v: V)
        ensures
            final(self)@ == old(self)@.insert(k, v@),
            final(self).wf(),
    {
        proof {
            use_type_invariant(&*self);
            map_of_rising(self.list());
        }
        let ghost s = self.list();
        let ghost before = self@;
        let i: usize = self.position(&k);
        let mut entries: Vec<(K, V)> = Vec::new();
        std::mem::swap(&mut entries, &mut self.entries);
        let ghost raw = entries@;
        let mut there: bool = false;
        if i < entries.len() {
            assert(s[i as int].0 == entries@[i as int].0);
            there = !k.is_before(&entries[i].0);
        }
        if there {
            proof {
                K::total(k, s[i as int].0);
            }
            entries.remove(i);
        }
        entries.insert(i, (k, v));
        proof {
            let t = modelled(entries@);
            if there {
                assert(t =~= s.update(i as int, (k, v@)));
            } else {
                assert(t =~= s.insert(i as int, (k, v@)));
                assert forall|j: int| i <= j < s.len() implies k.before((#[trigger] s[j]).0) by {
                    K::total(k, s[j].0);
                    if k == s[j].0 && j > i {
                        assert(s[i as int].0.before(s[j].0));
                    }
                    if k == s[j].0 && j == i {
                        K::irreflexive(k);
                    }
                }
            }
            assert forall|a: int, b: int| 0 <= a < b < t.len() implies (#[trigger] t[a]).0.before(
                (#[trigger] t[b]).0,
            ) by {
                if there {
                    assert(s[a].0.before(s[b].0));
                } else {
                    if a < i && b > i {
                        assert(s[a].0.before(s[b - 1].0));
                    } else if b < i {
                        assert(s[a].0.before(s[b].0));
                    } else if a > i {
                        assert(s[a - 1].0.before(s[b - 1].0));
                    } else if b == i {
                        assert(s[a].0.before(k));
                    } else {
                        assert(k.before(s[b - 1].0));
                    }
                }
            }
            assert(rising(t));
            map_of_rising(t);
            let m = map_of(t);
            assert forall|q: K| m.contains_key(q) == before.insert(k, v@).contains_key(q) by {
                if m.contains_key(q) {
                    let j = choose|j: int| 0 <= j < t.len() && (#[trigger] t[j]).0 == q;
                    if j < i {
                        assert(s[j].0 == q);
                    } else if j > i {
                        if there {
                            assert(s[j].0 == q);
                        } else {
                            assert(s[j - 1].0 == q);
                        }
                    }
                }
                if before.contains_key(q) {
                    let j = choose|j: int| 0 <= j < s.len() && (#[trigger] s[j]).0 == q;
                    if j < i || there {
                        assert(t[j].0 == q);
                    } else {
                        assert(t[j + 1].0 == q);
                    }
                }
                assert(t[i as int].0 == k);
            }
            assert forall|q: K| m.contains_key(q) implies m[q] == before.insert(k, v@)[q] by {
                let j = choose|j: int| 0 <= j < t.len() && (#[trigger] t[j]).0 == q;
                assert(m[t[j].0] == t[j].1);
                if q == k {
                    assert(m[t[i as int].0] == t[i as int].1);
                } else {
                    if j < i {
                        assert(s[j] == t[j]);
                    } else if there {
                        assert(s[j] == t[j]);
                    } else {
                        assert(s[j - 1] == t[j]);
                    }
                }
            }
            assert(m =~= before.insert(k, v@));
        }
        self.entries = entries;
    }

    /// Take out what stands at `k`.
    pub fn remove(&mut self, k: &K)
        ensures
            final(self)@ == old(self)@.remove(*k),
            final(self).wf(),
    {
        proof {
            use_type_invariant(&*self);
            map_of_rising(self.list());
        }
        let ghost s = self.list();
        let ghost before = self@;
        if !self.contains_key(k) {
            assert(before.remove(*k) =~= before);
            return;
        }
        let i: usize = self.position(k);
        proof {
            let j = choose|j: int| 0 <= j < s.len() && (#[trigger] s[j]).0 == *k;
            K::irreflexive(*k);
            if i < j {
                assert(s[i as int].0.before(s[j].0));
            }
            assert(i == j);
        }
        let mut entries: Vec<(K, V)> = Vec::new();
        std::mem::swap(&mut entries, &mut self.entries);
        entries.remove(i);
        proof {
            let t = modelled(entries@);
            assert(t =~= s.remove(i as int));
            assert forall|a: int, b: int| 0 <= a < b < t.len() implies (#[trigger] t[a]).0.before(
                (#[trigger] t[b]).0,
            ) by {
                let a1 = if a < i { a } else { a + 1 };
                let b1 = if b < i { b } else { b + 1 };
                assert(s[a1].0.before(s[b1].0));
            }
            map_of_rising(t);
            let m = map_of(t);
            assert forall|q: K| m.contains_key(q) == before.remove(*k).contains_key(q) by {
                if m.contains_key(q) {
                    let j = choose|j: int| 0 <= j < t.len() && (#[trigger] t[j]).0 == q;
                    let j1 = if j < i { j } else { j + 1 };
                    assert(s[j1].0 == q);
                    if j1 < i {
                        assert(s[j1].0.before(s[i as int].0));
                    } else {
                        assert(s[i as int].0.before(s[j1].0));
                    }
                    K::irreflexive(q);
                }
                if before.contains_key(q) && q != *k {
                    let j = choose|j: int| 0 <= j < s.len() && (#[trigger] s[j]).0 == q;
                    let j1 = if j < i { j } else { j - 1 };
                    assert(t[j1].0 == q);
                }
            }
            assert forall|q: K| m.contains_key(q) implies m[q] == before.remove(*k)[q] by {
                let j = choose|j: int| 0 <= j < t.len() && (#[trigger] t[j]).0 == q;
                assert(m[t[j].0] == t[j].1);
                let j1 = if j < i { j } else { j + 1 };
                assert(s[j1] == t[j]);
            }
            assert(m =~= before.remove(*k));
        }
        self.entries = entries;
    }

    /// The keys in order.
    pub fn keys(&self) -> (r: Vec<K>)
        ensures
            r@ == self.list().map_values(|e: (K, V::V)| e.0),
            self.wf(),
    {
        let ghost s = self.list();
        let mut r: Vec<K> = Vec::new();
        let n: usize = self.len();
        for i in 0..n
            invariant
                s == self.list(),
                n == s.len(),
                r@.len() == i,
                forall|j: int| 0 <= j < i ==> r@[j] == (#[trigger] s[j]).0,
        {
            r.push(*self.at(i).0);
        }
        assert(r@ =~= s.map_values(|e: (K, V::V)| e.0));
        r
    }

    /// Any two maps that hold the same entries list them alike.
    pub proof fn same_entries_same_list(a: &Self, b: &Self)
        requires
            a.wf(),
            b.wf(),
            a@ == b@,
        ensures
            a.list() == b.list(),
    {
        map_determines_list(a.list(), b.list());
    }
}

impl<K: Ordered, V: Copied> Clone for SortedMap<K, V> {
    fn clone(&self) -> (r: Self)
        ensures
            r@ == self@,
            r.list() == self.list(),
            r.wf(),
    {
        proof {
            use_type_invariant(self);
            map_of_rising(self.list());
        }
        let ghost s = self.list();
        let mut entries: Vec<(K, V)> = Vec::new();
        for i in 0..self.entries.len()
            invariant
                s == modelled(self.entries@),
                entries@.len() == i,
                forall|j: int| 0 <= j < i ==> #[trigger] modelled(entries@)[j] == s[j],
        {
            let e = &self.entries[i];
            let ghost before = modelled(entries@);
            entries.push((e.0, e.1.copied()));
            assert(modelled(entries@) =~= before.push(s[i as int]));
        }
        assert(modelled(entries@) =~= s);
        SortedMap { entries }
    }
}

impl<K: Ordered, V: View> Default for SortedMap<K, V> {
    fn default() -> (r: Self)
        ensures
            r@ == Map::<K, V::V>::empty(),
            r.list() == Seq::<(K, V::V)>::empty(),
    {
        SortedMap::new()
    }
}

} // verus!
