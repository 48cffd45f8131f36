//! What replicas of a tip contract can rely on.
//!
//! A replica takes block summaries from its peers, decides between competing ones in the
//! same way as every other replica, and keeps the highest. Unlike a byte budget, a bound
//! on the number of blocks prunes to the same blocks however merges are grouped.

use vstd::prelude::*;

use crate::bytes::{arr32, lex_irreflexive, lex_total, lex_transitive};
use crate::cbor::bytes_of;
use crate::claims::TIP_RETAIN;
use crate::digest::{bucket, digest_of};
use crate::records::tip_from;
use crate::signing::{tip_digest, tip_verdict, SignedModel};
use crate::sorted::{map_of, map_of_rising, rising, Ordered, SortedMap};
use crate::tip_state::{
    above, all_placed, displaces, entries_fault, lowest_of, offered, retained, tip_fault, tip_keys,
    tips_merged, tips_to_send, tips_updated, BitcoinTipStateV1,
};
use crate::types::TipParamsModel;
use crate::wire::Record;

verus! {

// ---------------------------------------------------------------------------
// Retention
// ---------------------------------------------------------------------------

/// Of finitely many heights one is lowest.
proof fn lowest_height(s: Set<u32>) -> (h: u32)
    requires
        s.finite(),
        s.len() > 0,
    ensures
        s.contains(h),
        forall|q: u32| s.contains(q) ==> h <= q,
    decreases s.len(),
{
    let c = s.choose();
    let rest = s.remove(c);
    if rest.len() == 0 {
        assert forall|q: u32| s.contains(q) implies q == c by {
            if q != c {
                assert(rest.contains(q));
            }
        }
        c
    } else {
        let low = lowest_height(rest);
        if c < low {
            assert forall|q: u32| s.contains(q) implies c <= q by {
                if q != c {
                    assert(rest.contains(q));
                }
            }
            c
        } else {
            assert forall|q: u32| s.contains(q) implies low <= q by {
                if q != c {
                    assert(rest.contains(q));
                }
            }
            low
        }
    }
}

/// No more blocks are kept than are retained.
pub proof fn retention_is_bounded(m: Map<u32, SignedModel>)
    requires
        m.dom().finite(),
    ensures
        retained(m).dom().finite(),
        retained(m).dom().len() <= TIP_RETAIN,
        retained(m).submap_of(m),
{
    let r = retained(m).dom();
    assert(r.subset_of(m.dom()));
    vstd::set_lib::lemma_len_subset(r, m.dom());
    if r.len() > 0 {
        let low = lowest_height(r);
        let over = above(m, low);
        assert(over.subset_of(m.dom()));
        vstd::set_lib::lemma_len_subset(over, m.dom());
        assert(r.remove(low).subset_of(over));
        vstd::set_lib::lemma_len_subset(r.remove(low), over);
    }
}

/// Nothing is dropped while there is room.
pub proof fn few_blocks_are_all_retained(m: Map<u32, SignedModel>)
    requires
        m.dom().finite(),
        m.dom().len() <= TIP_RETAIN,
    ensures
        retained(m) == m,
{
    assert forall|h: u32| #[trigger] m.contains_key(h) implies above(m, h).len() < TIP_RETAIN by {
        let over = above(m, h);
        assert(over.subset_of(m.dom().remove(h)));
        vstd::set_lib::lemma_len_subset(over, m.dom().remove(h));
    }
    assert(retained(m) =~= m);
}

/// What stands above a retained block is retained.
pub proof fn the_highest_are_retained(m: Map<u32, SignedModel>, h: u32, q: u32)
    requires
        m.dom().finite(),
        retained(m).contains_key(h),
        m.contains_key(q),
        q > h,
    ensures
        retained(m).contains_key(q),
{
    assert(above(m, h).subset_of(m.dom()));
    vstd::set_lib::lemma_len_subset(above(m, h), m.dom());
    assert(above(m, q).subset_of(above(m, h)));
    vstd::set_lib::lemma_len_subset(above(m, q), above(m, h));
}

/// Of enough heights at least as many as are retained have few above them.
proof fn top_is_full(s: Set<u32>)
    requires
        s.finite(),
        s.len() >= TIP_RETAIN,
    ensures
        ({
            let top = s.filter(|q: u32| s.filter(|r: u32| r > q).len() < TIP_RETAIN);
            top.finite() && top.len() >= TIP_RETAIN
        }),
    decreases s.len(),
{
    let top = s.filter(|q: u32| s.filter(|r: u32| r > q).len() < TIP_RETAIN);
    assert(top.subset_of(s));
    vstd::set_lib::lemma_len_subset(top, s);
    if s.len() == TIP_RETAIN {
        assert forall|q: u32| s.contains(q) implies top.contains(q) by {
            let over = s.filter(|r: u32| r > q);
            assert(over.subset_of(s.remove(q)));
            vstd::set_lib::lemma_len_subset(over, s.remove(q));
        }
        assert(top =~= s);
    } else {
        let low = lowest_height(s);
        let rest = s.remove(low);
        top_is_full(rest);
        let part = rest.filter(|q: u32| rest.filter(|r: u32| r > q).len() < TIP_RETAIN);
        assert forall|q: u32| part.contains(q) implies top.contains(q) by {
            assert(rest.filter(|r: u32| r > q) =~= s.filter(|r: u32| r > q));
        }
        assert(part.subset_of(top));
        vstd::set_lib::lemma_len_subset(part, top);
    }
}

/// A block that is dropped has as many retained blocks above it as are retained.
proof fn dropped_below_many(m: Map<u32, SignedModel>, h: u32)
    requires
        m.dom().finite(),
        above(m, h).len() >= TIP_RETAIN,
    ensures
        above(retained(m), h).finite(),
        above(retained(m), h).len() >= TIP_RETAIN,
{
    let s = above(m, h);
    assert(s.subset_of(m.dom()));
    vstd::set_lib::lemma_len_subset(s, m.dom());
    top_is_full(s);
    let top = s.filter(|q: u32| s.filter(|r: u32| r > q).len() < TIP_RETAIN);
    let kept = above(retained(m), h);
    assert forall|q: u32| top.contains(q) implies kept.contains(q) by {
        assert(s.filter(|r: u32| r > q) =~= above(m, q));
    }
    assert(kept.subset_of(s));
    vstd::set_lib::lemma_len_subset(kept, s);
    assert(top.subset_of(kept));
    vstd::set_lib::lemma_len_subset(top, kept);
}

/// Maps that agree wherever few blocks stand above retain the same.
proof fn same_top_same_retained(t: Map<u32, SignedModel>, u: Map<u32, SignedModel>)
    requires
        u.dom().finite(),
        t.dom().subset_of(u.dom()),
        forall|h: u32| #[trigger]
            u.contains_key(h) && above(t, h).len() < TIP_RETAIN ==> t.contains_key(h) && t[h]
                == u[h],
    ensures
        retained(t) == retained(u),
{
    vstd::set_lib::lemma_len_subset(t.dom(), u.dom());
    assert forall|h: u32| retained(t).contains_key(h) <==> retained(u).contains_key(h) by {
        assert(above(t, h).subset_of(t.dom()));
        vstd::set_lib::lemma_len_subset(above(t, h), t.dom());
        assert(above(u, h).subset_of(u.dom()));
        vstd::set_lib::lemma_len_subset(above(u, h), u.dom());
        assert(above(t, h).subset_of(above(u, h)));
        vstd::set_lib::lemma_len_subset(above(t, h), above(u, h));
        if retained(t).contains_key(h) {
            assert(t.dom().contains(h));
            assert(u.contains_key(h));
            assert forall|q: u32| above(u, h).contains(q) implies above(t, h).contains(q) by {
                assert(u.contains_key(q));
                assert(above(t, q).subset_of(above(t, h)));
                vstd::set_lib::lemma_len_subset(above(t, q), above(t, h));
            }
            assert(above(t, h) =~= above(u, h));
        }
        if retained(u).contains_key(h) {
            assert(u.contains_key(h));
        }
    }
    assert forall|h: u32| #[trigger] retained(t).contains_key(h) implies retained(t)[h]
        == retained(u)[h] by {
        assert(t.dom().contains(h));
        assert(u.contains_key(h));
        assert(retained(u).contains_key(h));
    }
    assert(retained(t) =~= retained(u));
}

// ---------------------------------------------------------------------------
// Competing blocks
// ---------------------------------------------------------------------------

/// Whether an entry wins over another at its height.
pub open spec fn beats(x: SignedModel, y: SignedModel) -> bool {
    displaces(x, tip_from(x.body_cbor)->Ok_0, y)
}

pub open spec fn winner_of(x: SignedModel, y: SignedModel) -> SignedModel {
    if beats(y, x) {
        y
    } else {
        x
    }
}

pub open spec fn can_be_read(x: SignedModel) -> bool {
    tip_from(x.body_cbor) is Ok
}

/// No entry wins over one that wins over it.
pub proof fn competition_is_asymmetric(x: SignedModel, y: SignedModel)
    requires
        can_be_read(x),
        can_be_read(y),
        beats(x, y),
    ensures
        !beats(y, x),
{
    let a = tip_from(x.body_cbor)->Ok_0.anchor.hash.0@;
    let b = tip_from(y.body_cbor)->Ok_0.anchor.hash.0@;
    lex_irreflexive(a);
    lex_irreflexive(b);
    lex_irreflexive(tip_digest(x));
    if lex_before_both(a, b) {
        lex_transitive(a, b, a);
    }
    if lex_before_both(tip_digest(x), tip_digest(y)) {
        lex_transitive(tip_digest(x), tip_digest(y), tip_digest(x));
    }
}

spec fn lex_before_both(a: Seq<u8>, b: Seq<u8>) -> bool {
    crate::bytes::lex_before(a, b) && crate::bytes::lex_before(b, a)
}

/// Winning carries over.
pub proof fn competition_is_transitive(x: SignedModel, y: SignedModel, z: SignedModel)
    requires
        can_be_read(x),
        can_be_read(y),
        can_be_read(z),
        beats(x, y),
        beats(y, z),
    ensures
        beats(x, z),
{
    let a = tip_from(x.body_cbor)->Ok_0.anchor.hash.0@;
    let b = tip_from(y.body_cbor)->Ok_0.anchor.hash.0@;
    let c = tip_from(z.body_cbor)->Ok_0.anchor.hash.0@;
    if c != b && b != a {
        lex_transitive(c, b, a);
    } else if c == b && b == a {
        if crate::bytes::lex_before(b, a) || crate::bytes::lex_before(c, b) {
            lex_irreflexive(a);
        }
        lex_transitive(tip_digest(z), tip_digest(y), tip_digest(x));
    }
}

/// Of two entries that are told apart by their digests, one wins.
pub proof fn competition_is_total(x: SignedModel, y: SignedModel)
    requires
        can_be_read(x),
        can_be_read(y),
    ensures
        beats(x, y) || beats(y, x) || tip_digest(x) == tip_digest(y),
{
    lex_total(
        tip_from(x.body_cbor)->Ok_0.anchor.hash.0@,
        tip_from(y.body_cbor)->Ok_0.anchor.hash.0@,
    );
    lex_total(tip_digest(x), tip_digest(y));
}

/// The blocks of two states together, and of two at one height the one that wins.
pub open spec fn tips_united(a: Map<u32, SignedModel>, b: Map<u32, SignedModel>) -> Map<
    u32,
    SignedModel,
> {
    Map::new(
        |h: u32| a.contains_key(h) || b.contains_key(h),
        |h: u32|
            if a.contains_key(h) && b.contains_key(h) {
                winner_of(a[h], b[h])
            } else if a.contains_key(h) {
                a[h]
            } else {
                b[h]
            },
    )
}

/// The highest of the blocks of two states together.
pub open spec fn tips_joined(a: Map<u32, SignedModel>, b: Map<u32, SignedModel>) -> Map<
    u32,
    SignedModel,
> {
    retained(tips_united(a, b))
}

/// Whether every entry stands at its own height and can be read.
pub open spec fn in_place(m: Map<u32, SignedModel>) -> bool {
    forall|h: u32| #[trigger]
        m.contains_key(h) ==> can_be_read(m[h]) && tip_from(m[h].body_cbor)->Ok_0.anchor.height
            == h
}

/// Whether the digests of two states' entries tell the entries apart.
pub open spec fn tips_told_apart(a: Map<u32, SignedModel>, b: Map<u32, SignedModel>) -> bool {
    forall|h: u32, k: u32| #[trigger]
        a.contains_key(h) && #[trigger] b.contains_key(k) && tip_digest(a[h]) == tip_digest(b[k])
            ==> a[h] == b[k]
}

/// It does not matter which of two states is joined to which.
pub proof fn joining_tips_commutes(a: Map<u32, SignedModel>, b: Map<u32, SignedModel>)
    requires
        in_place(a),
        in_place(b),
        tips_told_apart(a, b),
    ensures
        tips_joined(a, b) == tips_joined(b, a),
{
    assert forall|h: u32| #[trigger] a.contains_key(h) && b.contains_key(h) implies winner_of(
        a[h],
        b[h],
    ) == winner_of(b[h], a[h]) by {
        competition_is_total(a[h], b[h]);
        if beats(a[h], b[h]) {
            competition_is_asymmetric(a[h], b[h]);
        } else if beats(b[h], a[h]) {
            competition_is_asymmetric(b[h], a[h]);
        }
    }
    assert(tips_united(a, b) =~= tips_united(b, a));
}

/// Joining a state to itself changes nothing.
pub proof fn joining_tips_is_idempotent(a: Map<u32, SignedModel>)
    requires
        a.dom().finite(),
        a.dom().len() <= TIP_RETAIN,
    ensures
        tips_joined(a, a) == a,
{
    assert(tips_united(a, a) =~= a);
    few_blocks_are_all_retained(a);
}

/// The winner of three does not depend on who meets first.
proof fn winner_of_three(x: SignedModel, y: SignedModel, z: SignedModel)
    requires
        can_be_read(x),
        can_be_read(y),
        can_be_read(z),
        tip_digest(x) == tip_digest(y) ==> x == y,
        tip_digest(y) == tip_digest(z) ==> y == z,
        tip_digest(x) == tip_digest(z) ==> x == z,
    ensures
        winner_of(winner_of(x, y), z) == winner_of(x, winner_of(y, z)),
{
    competition_is_total(x, y);
    competition_is_total(y, z);
    competition_is_total(x, z);
    if beats(y, x) {
        competition_is_asymmetric(y, x);
        if beats(z, y) {
            competition_is_transitive(z, y, x);
        }
    } else {
        if beats(z, y) {
        } else if x != y && y != z {
            competition_is_transitive(x, y, z);
            competition_is_asymmetric(x, z);
        }
    }
}

/// Uniting is associative.
proof fn uniting_tips_associates(
    a: Map<u32, SignedModel>,
    b: Map<u32, SignedModel>,
    c: Map<u32, SignedModel>,
)
    requires
        in_place(a),
        in_place(b),
        in_place(c),
        tips_told_apart(a, b),
        tips_told_apart(b, c),
        tips_told_apart(a, c),
    ensures
        tips_united(tips_united(a, b), c) == tips_united(a, tips_united(b, c)),
{
    assert forall|h: u32| #[trigger]
        a.contains_key(h) && b.contains_key(h) && c.contains_key(h) implies winner_of(
        winner_of(a[h], b[h]),
        c[h],
    ) == winner_of(a[h], winner_of(b[h], c[h])) by {
        winner_of_three(a[h], b[h], c[h]);
    }
    assert(tips_united(tips_united(a, b), c) =~= tips_united(a, tips_united(b, c)));
}

/// Dropping blocks before a join loses nothing that the join would keep.
pub proof fn dropping_early_is_harmless(a: Map<u32, SignedModel>, b: Map<u32, SignedModel>)
    requires
        a.dom().finite(),
        b.dom().finite(),
    ensures
        tips_joined(retained(a), b) == tips_joined(a, b),
        tips_joined(b, retained(a)) == tips_joined(b, a),
{
    retention_is_bounded(a);
    let r = retained(a);
    let u = tips_united(a, b);
    let t = tips_united(r, b);
    assert(u.dom() =~= a.dom().union(b.dom()));
    assert(t.dom() =~= r.dom().union(b.dom()));
    let v = tips_united(b, a);
    let w = tips_united(b, r);
    assert(v.dom() =~= u.dom());
    assert(w.dom() =~= t.dom());
    assert forall|h: u32| #[trigger] a.contains_key(h) && !r.contains_key(h) implies above(
        t,
        h,
    ).len() >= TIP_RETAIN && above(w, h).len() >= TIP_RETAIN by {
        dropped_below_many(a, h);
        assert(above(t, h).subset_of(t.dom()));
        vstd::set_lib::lemma_len_subset(above(t, h), t.dom());
        assert(above(r, h).subset_of(above(t, h)));
        vstd::set_lib::lemma_len_subset(above(r, h), above(t, h));
        assert(above(w, h) =~= above(t, h));
    }
    assert forall|h: u32| #[trigger] u.contains_key(h) && above(t, h).len()
        < TIP_RETAIN implies t.contains_key(h) && t[h] == u[h] by {
        if a.contains_key(h) {
            assert(r.contains_key(h));
        }
    }
    same_top_same_retained(t, u);
    assert forall|h: u32| #[trigger] v.contains_key(h) && above(w, h).len()
        < TIP_RETAIN implies w.contains_key(h) && w[h] == v[h] by {
        if a.contains_key(h) {
            assert(r.contains_key(h));
        }
    }
    same_top_same_retained(w, v);
}

/// It does not matter how joins are grouped.
pub proof fn joining_tips_associates(
    a: Map<u32, SignedModel>,
    b: Map<u32, SignedModel>,
    c: Map<u32, SignedModel>,
)
    requires
        a.dom().finite(),
        b.dom().finite(),
        c.dom().finite(),
        in_place(a),
        in_place(b),
        in_place(c),
        tips_told_apart(a, b),
        tips_told_apart(b, c),
        tips_told_apart(a, c),
    ensures
        tips_joined(tips_joined(a, b), c) == tips_joined(a, tips_joined(b, c)),
{
    let ab = tips_united(a, b);
    let bc = tips_united(b, c);
    assert(ab.dom() =~= a.dom().union(b.dom()));
    assert(bc.dom() =~= b.dom().union(c.dom()));
    dropping_early_is_harmless(ab, c);
    dropping_early_is_harmless(bc, a);
    uniting_tips_associates(a, b, c);
}

// ---------------------------------------------------------------------------
// Exchange
// ---------------------------------------------------------------------------

/// A peer that has everything is offered nothing.
pub proof fn an_up_to_date_peer_is_offered_nothing(
    list: Seq<(u32, SignedModel)>,
    d: Seq<u64>,
    count: u32,
    lowest: u32,
)
    ensures
        tips_to_send(list, d, d, count, lowest).len() == 0,
    decreases list.len(),
{
    if list.len() > 0 {
        an_up_to_date_peer_is_offered_nothing(list.drop_last(), d, count, lowest);
    }
}

/// A full peer is offered nothing below its lowest block.
pub proof fn nothing_below_the_horizon_is_offered(
    list: Seq<(u32, SignedModel)>,
    mine: Seq<u64>,
    theirs: Seq<u64>,
    count: u32,
    lowest: u32,
    i: int,
)
    requires
        count >= TIP_RETAIN,
        0 <= i < tips_to_send(list, mine, theirs, count, lowest).len(),
    ensures
        exists|j: int|
            0 <= j < list.len() && (#[trigger] list[j]).1 == tips_to_send(
                list,
                mine,
                theirs,
                count,
                lowest,
            )[i] && list[j].0 >= lowest,
    decreases list.len(),
{
    let before = tips_to_send(list.drop_last(), mine, theirs, count, lowest);
    let sent = tips_to_send(list, mine, theirs, count, lowest);
    if i < before.len() {
        nothing_below_the_horizon_is_offered(list.drop_last(), mine, theirs, count, lowest, i);
        let j = choose|j: int|
            0 <= j < list.drop_last().len() && (#[trigger] list.drop_last()[j]).1 == before[i]
                && list.drop_last()[j].0 >= lowest;
        assert(list[j].1 == sent[i]);
    } else {
        assert(list[list.len() - 1].1 == sent[i]);
    }
}

/// The height that an entry speaks of.
pub open spec fn height_of(x: SignedModel) -> u32 {
    tip_from(x.body_cbor)->Ok_0.anchor.height
}

/// Whether an entry is one of those for a height: the one that is held, or one that comes.
pub open spec fn competes(
    m: Map<u32, SignedModel>,
    cs: Seq<SignedModel>,
    h: u32,
    x: SignedModel,
) -> bool {
    (m.contains_key(h) && m[h] == x) || (cs.contains(x) && height_of(x) == h)
}

/// Whether every entry verifies.
pub open spec fn all_verify(cs: Seq<SignedModel>, p: TipParamsModel) -> bool {
    forall|i: int| 0 <= i < cs.len() ==> tip_verdict(#[trigger] cs[i], p) is Ok
}

/// Where every entry of a delta verifies, all are placed, and at each height the one that
/// is kept is the one that none of those for the height wins over: neither what was held
/// nor what came.
pub proof fn the_greatest_is_kept(m: Map<u32, SignedModel>, cs: Seq<SignedModel>, p: TipParamsModel)
    requires
        in_place(m),
        all_verify(cs, p),
    ensures
        ({
            let (t, fault) = all_placed(m, cs, p);
            &&& fault is None
            &&& in_place(t)
            &&& forall|h: u32| #[trigger]
                t.contains_key(h) <==> exists|x: SignedModel| #[trigger] competes(m, cs, h, x)
            &&& forall|h: u32| #[trigger] t.contains_key(h) ==> competes(m, cs, h, t[h])
            &&& forall|h: u32, x: SignedModel| #[trigger]
                competes(m, cs, h, x) ==> !beats(x, t[h])
        }),
    decreases cs.len(),
{
    let (t, fault) = all_placed(m, cs, p);
    if cs.len() == 0 {
        assert forall|h: u32| #[trigger] t.contains_key(h) implies competes(m, cs, h, t[h]) by {}
        assert forall|h: u32, x: SignedModel| #[trigger] competes(m, cs, h, x) implies !beats(
            x,
            t[h],
        ) by {
            if beats(x, x) {
                competition_is_asymmetric(x, x);
            }
        }
    } else {
        let was = cs.drop_last();
        let c = cs.last();
        let k = height_of(c);
        let before = all_placed(m, was, p).0;
        assert(cs[cs.len() - 1] == c);
        assert forall|i: int| 0 <= i < was.len() implies tip_verdict(#[trigger] was[i], p) is Ok by {
            assert(was[i] == cs[i]);
        }
        the_greatest_is_kept(m, was, p);
        assert(tip_verdict(c, p) is Ok);
        assert(can_be_read(c));
        assert forall|h: u32, x: SignedModel| #[trigger] competes(m, cs, h, x) implies competes(
            m,
            was,
            h,
            x,
        ) || (x == c && h == k) by {
            if cs.contains(x) {
                let i = choose|i: int| 0 <= i < cs.len() && cs[i] == x;
                if i < was.len() {
                    assert(was[i] == x);
                }
            }
        }
        assert forall|h: u32, x: SignedModel| #[trigger] competes(m, was, h, x) implies competes(
            m,
            cs,
            h,
            x,
        ) by {
            if was.contains(x) {
                let i = choose|i: int| 0 <= i < was.len() && was[i] == x;
                assert(cs[i] == x);
            }
        }
        assert(competes(m, cs, k, c));
        assert forall|h: u32, x: SignedModel| #[trigger] competes(m, cs, h, x) implies !beats(
            x,
            t[h],
        ) by {
            assert(can_be_read(x)) by {
                if cs.contains(x) {
                    let i = choose|i: int| 0 <= i < cs.len() && cs[i] == x;
                    assert(tip_verdict(cs[i], p) is Ok);
                }
            }
            if competes(m, was, h, x) {
                assert(before.contains_key(h));
                assert(!beats(x, before[h]));
            }
            if h == k && t[h] == c {
                if beats(x, c) {
                    if x == c {
                        competition_is_asymmetric(c, c);
                    } else {
                        competition_is_transitive(x, c, before[h]);
                    }
                }
            }
        }
    }
}

/// The order of the entries in a delta does not matter, where their digests tell them
/// apart: any two deltas of the same entries come to the same blocks.
pub proof fn the_order_of_entries_does_not_matter(
    m: Map<u32, SignedModel>,
    a: Seq<SignedModel>,
    b: Seq<SignedModel>,
    p: TipParamsModel,
)
    requires
        in_place(m),
        all_verify(a, p),
        all_verify(b, p),
        forall|x: SignedModel| a.contains(x) <==> b.contains(x),
        forall|h: u32, x: SignedModel, y: SignedModel| #[trigger]
            competes(m, a, h, x) && #[trigger] competes(m, a, h, y) && tip_digest(x)
                == tip_digest(y) ==> x == y,
    ensures
        tips_updated(m, a, p) == tips_updated(m, b, p),
        tips_updated(m, a, p).1 is None,
{
    the_greatest_is_kept(m, a, p);
    the_greatest_is_kept(m, b, p);
    let s = all_placed(m, a, p).0;
    let t = all_placed(m, b, p).0;
    assert forall|h: u32, x: SignedModel| competes(m, a, h, x) == competes(m, b, h, x) by {}
    assert forall|h: u32| #[trigger] s.contains_key(h) == t.contains_key(h) by {
        if s.contains_key(h) {
            assert(competes(m, b, h, s[h]));
        }
        if t.contains_key(h) {
            assert(competes(m, a, h, t[h]));
        }
    }
    assert forall|h: u32| #[trigger] s.contains_key(h) implies s[h] == t[h] by {
        assert(t.contains_key(h));
        assert(competes(m, a, h, s[h]) && competes(m, b, h, s[h]));
        assert(competes(m, a, h, t[h]) && competes(m, b, h, t[h]));
        competition_is_total(s[h], t[h]);
    }
    assert(s =~= t);
}

/// Every entry of a list that is valid from the `i`th on.
proof fn sound_entries(list: Seq<(u32, SignedModel)>, i: int, p: TipParamsModel)
    requires
        0 <= i,
        entries_fault(list, i, p) is None,
    ensures
        forall|j: int|
            i <= j < list.len() ==> tip_verdict((#[trigger] list[j]).1, p) is Ok && tip_from(
                list[j].1.body_cbor,
            ) is Ok && tip_verdict(list[j].1, p)->Ok_0 == tip_from(list[j].1.body_cbor)->Ok_0
                && tip_from(list[j].1.body_cbor)->Ok_0.anchor.height == list[j].0,
    decreases list.len() - i,
{
    if i < list.len() {
        sound_entries(list, i + 1, p);
    }
}

/// A valid list puts every entry in its place.
proof fn valid_is_in_place(list: Seq<(u32, SignedModel)>, p: TipParamsModel)
    requires
        rising(list),
        tip_fault(list, p) is None,
    ensures
        in_place(map_of(list)),
        map_of(list).dom().finite(),
        map_of(list).dom().len() == list.len(),
{
    sound_entries(list, 0, p);
    map_of_rising(list);
    assert forall|h: u32| #[trigger] map_of(list).contains_key(h) implies can_be_read(
        map_of(list)[h],
    ) && tip_from(map_of(list)[h].body_cbor)->Ok_0.anchor.height == h by {
        let i = choose|i: int| 0 <= i < list.len() && (#[trigger] list[i]).0 == h;
        assert(map_of(list)[list[i].0] == list[i].1);
    }
}

/// Placing what is offered of some entries adds what lacks and what wins.
proof fn tips_come_in(
    m: Map<u32, SignedModel>,
    list: Seq<(u32, SignedModel)>,
    mine: Seq<u64>,
    theirs: Seq<u64>,
    count: u32,
    lowest: u32,
    p: TipParamsModel,
)
    requires
        rising(list),
        forall|j: int|
            0 <= j < list.len() ==> tip_verdict((#[trigger] list[j]).1, p) is Ok && tip_from(
                list[j].1.body_cbor,
            ) is Ok && tip_verdict(list[j].1, p)->Ok_0 == tip_from(list[j].1.body_cbor)->Ok_0
                && tip_from(list[j].1.body_cbor)->Ok_0.anchor.height == list[j].0,
    ensures
        ({
            let (t, fault) = all_placed(m, tips_to_send(list, mine, theirs, count, lowest), p);
            let b = map_of(list);
            &&& fault is None
            &&& forall|h: u32| #[trigger]
                t.contains_key(h) <==> m.contains_key(h) || (b.contains_key(h) && offered(
                    (h, b[h]),
                    mine,
                    theirs,
                    count,
                    lowest,
                ))
            &&& forall|h: u32| #[trigger]
                t.contains_key(h) ==> t[h] == (if !m.contains_key(h) {
                    b[h]
                } else if b.contains_key(h) && offered((h, b[h]), mine, theirs, count, lowest) {
                    winner_of(m[h], b[h])
                } else {
                    m[h]
                })
        }),
    decreases list.len(),
{
    if list.len() > 0 {
        let was = list.drop_last();
        let last = list.last();
        assert(rising(was)) by {
            assert forall|i: int, j: int| 0 <= i < j < was.len() implies (
            #[trigger] was[i]).0.before((#[trigger] was[j]).0) by {
                assert(list[i].0.before(list[j].0));
            }
        }
        assert forall|j: int| 0 <= j < was.len() implies tip_verdict(
            (#[trigger] was[j]).1,
            p,
        ) is Ok && tip_from(was[j].1.body_cbor) is Ok && tip_verdict(was[j].1, p)->Ok_0
            == tip_from(was[j].1.body_cbor)->Ok_0 && tip_from(
            was[j].1.body_cbor,
        )->Ok_0.anchor.height == was[j].0 by {
            assert(was[j] == list[j]);
        }
        tips_come_in(m, was, mine, theirs, count, lowest, p);
        map_of_rising(was);
        assert(list[list.len() - 1] == last);
        if map_of(was).contains_key(last.0) {
            let i = choose|i: int| 0 <= i < was.len() && (#[trigger] was[i]).0 == last.0;
            assert(list[i].0.before(list[list.len() - 1].0));
        }
        let before = tips_to_send(was, mine, theirs, count, lowest);
        let all = tips_to_send(list, mine, theirs, count, lowest);
        if offered(last, mine, theirs, count, lowest) {
            assert(all.drop_last() =~= before);
            assert(all.last() == last.1);
        }
    }
}

/// Whether a bucket with the same digest on both sides has the same entries on both
/// sides.
pub open spec fn tip_digests_tell_apart(
    a: Seq<(u32, SignedModel)>,
    b: Seq<(u32, SignedModel)>,
) -> bool {
    forall|i: int|
        0 <= i < b.len() && digest_of(tip_keys(a))[bucket(arr32(tip_digest(b[i].1)))] == digest_of(
            tip_keys(b),
        )[bucket(arr32(tip_digest(b[i].1)))] ==> exists|j: int|
            0 <= j < a.len() && (#[trigger] a[j]).1 == (#[trigger] b[i]).1
}

/// Merging one valid state into another joins the two. That nothing below a full peer's
/// lowest block is offered makes no difference.
pub proof fn merging_tips_joins(
    mine: Seq<(u32, SignedModel)>,
    theirs: Seq<(u32, SignedModel)>,
    p: TipParamsModel,
)
    requires
        rising(mine),
        rising(theirs),
        tip_fault(mine, p) is None,
        tip_fault(theirs, p) is None,
        tip_digests_tell_apart(mine, theirs),
    ensures
        tips_merged(mine, theirs, p) == (
            tips_joined(map_of(mine), map_of(theirs)),
            None::<Seq<char>>,
        ),
{
    let a = map_of(mine);
    let b = map_of(theirs);
    let dm = digest_of(tip_keys(mine));
    let dt = digest_of(tip_keys(theirs));
    let count = mine.len() as u32;
    let lowest = lowest_of(mine);
    valid_is_in_place(mine, p);
    valid_is_in_place(theirs, p);
    sound_entries(theirs, 0, p);
    map_of_rising(mine);
    map_of_rising(theirs);
    tips_come_in(a, theirs, dt, dm, count, lowest, p);
    let sent = tips_to_send(theirs, dt, dm, count, lowest);
    let t = all_placed(a, sent, p).0;
    let u = tips_united(a, b);
    assert(u.dom() =~= a.dom().union(b.dom()));
    assert(t.dom().subset_of(u.dom())) by {
        assert forall|h: u32| t.dom().contains(h) implies u.dom().contains(h) by {
            assert(t.contains_key(h));
        }
    }
    vstd::set_lib::lemma_len_subset(t.dom(), u.dom());
    assert forall|h: u32| #[trigger] u.contains_key(h) && above(t, h).len()
        < TIP_RETAIN implies t.contains_key(h) && t[h] == u[h] by {
        if b.contains_key(h) && !offered((h, b[h]), dt, dm, count, lowest) {
            let i = choose|i: int| 0 <= i < theirs.len() && (#[trigger] theirs[i]).0 == h;
            assert(b[theirs[i].0] == theirs[i].1);
            let at = bucket(arr32(tip_digest(b[h])));
            if dt[at] == dm[at] {
                let j = choose|j: int|
                    0 <= j < mine.len() && (#[trigger] mine[j]).1 == (#[trigger] theirs[i]).1;
                assert(a.contains_key(mine[j].0));
                assert(a[mine[j].0] == mine[j].1);
                assert(mine[j].0 == h);
                assert(a[h] == b[h]);
            } else {
                // a full replica has enough blocks above
                assert(count >= TIP_RETAIN && h < lowest);
                assert forall|q: u32| a.dom().contains(q) implies above(t, h).contains(q) by {
                    assert(a.contains_key(q));
                    let j = choose|j: int| 0 <= j < mine.len() && (#[trigger] mine[j]).0 == q;
                    if j > 0 {
                        assert(mine[0].0.before(mine[j].0));
                    }
                    assert(t.contains_key(q));
                }
                assert(above(t, h).subset_of(t.dom()));
                vstd::set_lib::lemma_len_subset(above(t, h), t.dom());
                assert(a.dom().subset_of(above(t, h)));
                vstd::set_lib::lemma_len_subset(a.dom(), above(t, h));
                assert(false);
            }
        }
        assert(u.dom().contains(h));
        assert(a.contains_key(h) || b.contains_key(h));
        assert(t.contains_key(h));
        assert(t[h] == u[h]);
    }
    same_top_same_retained(t, u);
    if sent.len() == 0 {
        assert(t == a);
        few_blocks_are_all_retained(a);
    }
}

/// Two valid replicas that merge each other hold the same blocks afterwards.
pub proof fn merging_tips_commutes(
    mine: Seq<(u32, SignedModel)>,
    theirs: Seq<(u32, SignedModel)>,
    p: TipParamsModel,
)
    requires
        rising(mine),
        rising(theirs),
        tip_fault(mine, p) is None,
        tip_fault(theirs, p) is None,
        tip_digests_tell_apart(mine, theirs),
        tip_digests_tell_apart(theirs, mine),
        tips_told_apart(map_of(mine), map_of(theirs)),
    ensures
        tips_merged(mine, theirs, p) == tips_merged(theirs, mine, p),
{
    merging_tips_joins(mine, theirs, p);
    merging_tips_joins(theirs, mine, p);
    valid_is_in_place(mine, p);
    valid_is_in_place(theirs, p);
    joining_tips_commutes(map_of(mine), map_of(theirs));
}

/// Merging the same state again changes nothing: an exchange comes to rest.
pub proof fn merging_tips_comes_to_rest(
    mine: Seq<(u32, SignedModel)>,
    theirs: Seq<(u32, SignedModel)>,
    p: TipParamsModel,
)
    requires
        rising(mine),
        rising(theirs),
        tip_fault(mine, p) is None,
        tip_fault(theirs, p) is None,
        tips_told_apart(map_of(mine), map_of(theirs)),
        tips_told_apart(map_of(theirs), map_of(theirs)),
    ensures
        ({
            let once = tips_joined(map_of(mine), map_of(theirs));
            tips_joined(once, map_of(theirs)) == once
        }),
{
    let a = map_of(mine);
    let b = map_of(theirs);
    valid_is_in_place(mine, p);
    valid_is_in_place(theirs, p);
    joining_tips_associates(a, b, b);
    joining_tips_is_idempotent(b);
}

/// States with the same blocks are written as the same bytes, which is how peers decide that
/// they have converged.
pub proof fn equal_tips_are_written_alike(a: &BitcoinTipStateV1, b: &BitcoinTipStateV1)
    requires
        a.blocks.blocks.wf(),
        b.blocks.blocks.wf(),
        a.model() == b.model(),
    ensures
        bytes_of(a.item()) == bytes_of(b.item()),
{
    SortedMap::same_entries_same_list(&a.blocks.blocks, &b.blocks.blocks);
}

} // verus!
