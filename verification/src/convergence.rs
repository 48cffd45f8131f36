//! What replicas of an address contract can rely on.
//!
//! A replica holds a set of claims and one watermark for each bridge. It takes claims
//! from its bridge and from its peers, in any order and any number of times, and prunes
//! what does not fit. These laws say when two replicas end up with the same state.

use vstd::prelude::*;

use crate::address_state::{
    absorbed, admits, ahead, claims_fault, claims_to_send, cost, evidence, fits, from_standing,
    height_of, heights, inserted, is_evidence, kept, key_of, keys_of, lacking, merged, qualifies,
    readable, set_fault, standing, watermarks_fault, watermarks_to_send, weight,
    BitcoinAddressStateV1, SetModel, Standing,
};
use crate::bytes::arr32_of_view;
use crate::cbor::bytes_of;
use crate::claims::BodyModel;
use crate::digest::{bucket, digest_of, mark, one_key_touches_one_bucket};
use crate::fold::{about, about_push, folded, is_about, OutpointStatus};
use crate::records::body_from;
use crate::signing::{claim_verdict, SignedModel};
use crate::sorted::{map_of, map_of_rising, rising, ClaimKey, Ordered, SortedMap};
use crate::sums::sum_of_part;
use crate::types::{BridgeId, OutPoint, ParamsModel};
use crate::wire::Record;

verus! {

// ---------------------------------------------------------------------------
// Taking claims in
// ---------------------------------------------------------------------------

/// Whether a claim is a watermark.
pub open spec fn is_watermark(c: SignedModel) -> bool {
    body_from(c.body_cbor) is Ok && body_from(c.body_cbor)->Ok_0.claim is ScannedTo
}

/// Whether every claim of a list verifies.
pub open spec fn all_verify(cs: Seq<SignedModel>, p: ParamsModel) -> bool {
    forall|i: int| 0 <= i < cs.len() ==> claim_verdict(#[trigger] cs[i], p) is Ok
}

/// Claims that all verify are all taken in.
pub proof fn claims_that_verify_are_absorbed(s: SetModel, cs: Seq<SignedModel>, p: ParamsModel)
    requires
        all_verify(cs, p),
    ensures
        absorbed(s, cs, p).1 is None,
    decreases cs.len(),
{
    if cs.len() > 0 {
        assert forall|i: int| 0 <= i < cs.drop_last().len() implies claim_verdict(
            #[trigger] cs.drop_last()[i],
            p,
        ) is Ok by {
            assert(cs.drop_last()[i] == cs[i]);
        }
        claims_that_verify_are_absorbed(s, cs.drop_last(), p);
        assert(cs[cs.len() - 1] == cs.last());
    }
}

/// Whether a set holds at least what another holds: every claim, and watermarks that
/// are as high.
pub open spec fn covers(t: SetModel, s: SetModel) -> bool {
    &&& forall|k: ClaimKey| #[trigger]
        s.claims.contains_key(k) ==> t.claims.contains_key(k) && t.claims[k] == s.claims[k]
    &&& forall|b: BridgeId| #[trigger]
        s.scanned.contains_key(b) ==> t.scanned.contains_key(b) && height_of(t.scanned[b])
            >= height_of(s.scanned[b])
}

/// Claims only accumulate, and no watermark ever goes back.
pub proof fn a_set_only_grows(s: SetModel, cs: Seq<SignedModel>, p: ParamsModel)
    ensures
        covers(absorbed(s, cs, p).0, s),
    decreases cs.len(),
{
    if cs.len() > 0 {
        a_set_only_grows(s, cs.drop_last(), p);
    }
}

/// A claim that a set has taken in changes it no more.
proof fn absorbed_is_refused(s: SetModel, cs: Seq<SignedModel>, p: ParamsModel, i: int)
    requires
        absorbed(s, cs, p).1 is None,
        0 <= i < cs.len(),
    ensures
        claim_verdict(cs[i], p) is Ok,
        !admits(absorbed(s, cs, p).0, cs[i], claim_verdict(cs[i], p)->Ok_0),
    decreases cs.len(),
{
    if i < cs.len() - 1 {
        assert(cs.drop_last()[i] == cs[i]);
        absorbed_is_refused(s, cs.drop_last(), p, i);
    }
}

/// Taking in the same claims again changes nothing.
pub proof fn absorbing_is_idempotent(s: SetModel, cs: Seq<SignedModel>, p: ParamsModel)
    requires
        absorbed(s, cs, p).1 is None,
    ensures
        absorbed(absorbed(s, cs, p).0, cs, p) == absorbed(s, cs, p),
{
    let t = absorbed(s, cs, p).0;
    refused_changes_nothing(s, cs, p, cs.len() as int);
    assert(cs.take(cs.len() as int) =~= cs);
    assert(absorbed(t, cs, p).0 == t);
}

proof fn refused_changes_nothing(s: SetModel, cs: Seq<SignedModel>, p: ParamsModel, n: int)
    requires
        absorbed(s, cs, p).1 is None,
        0 <= n <= cs.len(),
    ensures
        absorbed(absorbed(s, cs, p).0, cs.take(n), p).0 == absorbed(s, cs, p).0,
        absorbed(absorbed(s, cs, p).0, cs.take(n), p).1 is None,
    decreases n,
{
    if n > 0 {
        refused_changes_nothing(s, cs, p, n - 1);
        absorbed_is_refused(s, cs, p, n - 1);
        assert(cs.take(n).drop_last() =~= cs.take(n - 1));
        assert(cs.take(n).last() == cs[n - 1]);
    }
}

/// Whether a set is made of exactly these claims: each claim under its key, and of each
/// bridge's watermarks one of the highest.
pub open spec fn made_of(s: SetModel, cs: Seq<SignedModel>) -> bool {
    &&& forall|k: ClaimKey| #[trigger]
        s.claims.contains_key(k) ==> cs.contains(s.claims[k]) && !is_watermark(s.claims[k])
            && key_of(s.claims[k]) == k
    &&& forall|c: SignedModel| #[trigger]
        cs.contains(c) && !is_watermark(c) ==> s.claims.contains_key(key_of(c))
    &&& forall|b: BridgeId| #[trigger]
        s.scanned.contains_key(b) ==> cs.contains(s.scanned[b]) && is_watermark(s.scanned[b])
            && s.scanned[b].bridge == b
    &&& forall|c: SignedModel| #[trigger]
        cs.contains(c) && is_watermark(c) ==> s.scanned.contains_key(c.bridge) && height_of(
            s.scanned[c.bridge],
        ) >= height_of(c)
}

/// An empty replica that has taken in some claims is made of those claims.
pub proof fn a_replica_is_made_of_its_claims(cs: Seq<SignedModel>, p: ParamsModel)
    requires
        all_verify(cs, p),
    ensures
        made_of(
            absorbed(SetModel { claims: Map::empty(), scanned: Map::empty() }, cs, p).0,
            cs,
        ),
    decreases cs.len(),
{
    let none = SetModel { claims: Map::empty(), scanned: Map::empty() };
    claims_that_verify_are_absorbed(none, cs, p);
    if cs.len() > 0 {
        let was = cs.drop_last();
        let c = cs.last();
        assert forall|i: int| 0 <= i < was.len() implies claim_verdict(
            #[trigger] was[i],
            p,
        ) is Ok by {
            assert(was[i] == cs[i]);
        }
        assert(cs[cs.len() - 1] == c);
        a_replica_is_made_of_its_claims(was, p);
        claims_that_verify_are_absorbed(none, was, p);
        let s = absorbed(none, was, p).0;
        let t = absorbed(none, cs, p).0;
        assert(claim_verdict(c, p) is Ok);
        let body = claim_verdict(c, p)->Ok_0;
        assert(t == inserted(s, c, body));
        assert forall|d: SignedModel| cs.contains(d) <==> was.contains(d) || d == c by {
            if cs.contains(d) {
                let i = choose|i: int| 0 <= i < cs.len() && cs[i] == d;
                if i < was.len() {
                    assert(was[i] == d);
                }
            }
            if was.contains(d) {
                let i = choose|i: int| 0 <= i < was.len() && was[i] == d;
                assert(cs[i] == d);
            }
        }
        assert forall|d: SignedModel| #[trigger] cs.contains(d) && is_watermark(
            d,
        ) implies t.scanned.contains_key(d.bridge) && height_of(t.scanned[d.bridge])
            >= height_of(d) by {
            if was.contains(d) {
                assert(s.scanned.contains_key(d.bridge));
            }
        }
        assert forall|d: SignedModel| #[trigger] cs.contains(d) && !is_watermark(
            d,
        ) implies t.claims.contains_key(key_of(d)) by {
            if was.contains(d) {
                assert(s.claims.contains_key(key_of(d)));
            }
        }
    }
}

/// Claims that can be told apart: two under one key are the same claim, and two of a
/// bridge's watermarks at one height are the same watermark.
pub open spec fn told_apart(cs: Seq<SignedModel>) -> bool {
    &&& forall|c: SignedModel, d: SignedModel| #[trigger]
        cs.contains(c) && #[trigger] cs.contains(d) && !is_watermark(c) && !is_watermark(d)
            && key_of(c) == key_of(d) ==> c == d
    &&& forall|c: SignedModel, d: SignedModel| #[trigger]
        cs.contains(c) && #[trigger] cs.contains(d) && is_watermark(c) && is_watermark(d)
            && c.bridge == d.bridge && height_of(c) == height_of(d) ==> c == d
}

/// Replicas that have taken in the same claims hold the same state, whatever the order
/// in which the claims came and however often each came.
pub proof fn replicas_converge(cs: Seq<SignedModel>, ds: Seq<SignedModel>, p: ParamsModel)
    requires
        all_verify(cs, p),
        all_verify(ds, p),
        forall|c: SignedModel| cs.contains(c) <==> ds.contains(c),
        told_apart(cs),
    ensures
        ({
            let none = SetModel { claims: Map::empty(), scanned: Map::empty() };
            absorbed(none, cs, p).0 == absorbed(none, ds, p).0
        }),
{
    let none = SetModel { claims: Map::empty(), scanned: Map::empty() };
    a_replica_is_made_of_its_claims(cs, p);
    a_replica_is_made_of_its_claims(ds, p);
    let s = absorbed(none, cs, p).0;
    let t = absorbed(none, ds, p).0;
    assert forall|k: ClaimKey| s.claims.contains_key(k) <==> t.claims.contains_key(k) by {
        if s.claims.contains_key(k) {
            assert(ds.contains(s.claims[k]));
        }
        if t.claims.contains_key(k) {
            assert(cs.contains(t.claims[k]));
        }
    }
    assert forall|k: ClaimKey| #[trigger] s.claims.contains_key(k) implies s.claims[k]
        == t.claims[k] by {
        assert(cs.contains(s.claims[k]));
        assert(t.claims.contains_key(k));
        assert(cs.contains(t.claims[k]));
    }
    assert(s.claims =~= t.claims);
    assert forall|b: BridgeId| s.scanned.contains_key(b) <==> t.scanned.contains_key(b) by {
        if s.scanned.contains_key(b) {
            assert(ds.contains(s.scanned[b]));
        }
        if t.scanned.contains_key(b) {
            assert(cs.contains(t.scanned[b]));
        }
    }
    assert forall|b: BridgeId| #[trigger] s.scanned.contains_key(b) implies s.scanned[b]
        == t.scanned[b] by {
        assert(t.scanned.contains_key(b));
        assert(cs.contains(s.scanned[b]));
        assert(ds.contains(s.scanned[b]));
        assert(ds.contains(t.scanned[b]));
        assert(cs.contains(t.scanned[b]));
    }
    assert(s.scanned =~= t.scanned);
}

// ---------------------------------------------------------------------------
// Pruning
// ---------------------------------------------------------------------------

/// Of finitely many claims one stands lowest.
proof fn lowest(m: Map<ClaimKey, SignedModel>) -> (k: ClaimKey)
    requires
        m.dom().finite(),
        m.dom().len() > 0,
    ensures
        m.contains_key(k),
        forall|q: ClaimKey| #[trigger]
            m.contains_key(q) ==> q == k || standing(m, k).before(standing(m, q)),
    decreases m.dom().len(),
{
    let c = m.dom().choose();
    assert(m.contains_key(c));
    let rest = m.remove(c);
    if rest.dom().len() == 0 {
        assert forall|q: ClaimKey| #[trigger] m.contains_key(q) implies q == c by {
            if q != c {
                assert(rest.dom().contains(q));
            }
        }
        c
    } else {
        let low = lowest(rest);
        Standing::total(standing(m, c), standing(m, low));
        assert forall|q: ClaimKey| #[trigger] m.contains_key(q) && q != c implies q == low
            || standing(m, low).before(standing(m, q)) by {
            assert(rest.contains_key(q));
        }
        if standing(m, c).before(standing(m, low)) {
            assert forall|q: ClaimKey| #[trigger] m.contains_key(q) implies q == c || standing(
                m,
                c,
            ).before(standing(m, q)) by {
                if q != c && q != low {
                    Standing::transitive(standing(m, c), standing(m, low), standing(m, q));
                }
            }
            c
        } else {
            low
        }
    }
}

/// Fewer claims fit where more do.
proof fn part_fits(part: Map<ClaimKey, SignedModel>, whole: Map<ClaimKey, SignedModel>)
    requires
        whole.dom().finite(),
        fits(whole),
        part.submap_of(whole),
    ensures
        fits(part),
{
    sum_of_part(part, whole, |k: ClaimKey, c: SignedModel| cost(c));
}

/// What stands above a claim that stays, stays.
pub proof fn pruning_keeps_the_newest(
    m: Map<ClaimKey, SignedModel>,
    k: ClaimKey,
    q: ClaimKey,
)
    requires
        m.dom().finite(),
        kept(m).contains_key(k),
        m.contains_key(q),
        standing(m, k).before(standing(m, q)),
    ensures
        kept(m).contains_key(q),
        kept(m)[q] == m[q],
{
    let low = from_standing(m, k);
    let high = from_standing(m, q);
    assert(low.dom().subset_of(m.dom()));
    vstd::set_lib::lemma_len_subset(low.dom(), m.dom());
    assert forall|r: ClaimKey| #[trigger] high.contains_key(r) implies low.contains_key(r)
        && low[r] == high[r] by {
        if r != q {
            Standing::transitive(standing(m, k), standing(m, q), standing(m, r));
        }
    }
    part_fits(high, low);
}

/// What pruning leaves fits the cap and the budget.
pub proof fn what_is_kept_fits(m: Map<ClaimKey, SignedModel>)
    requires
        m.dom().finite(),
    ensures
        fits(kept(m)),
        kept(m).submap_of(m),
        kept(m).dom().finite(),
{
    let rest = kept(m);
    assert(rest.dom().subset_of(m.dom()));
    vstd::set_lib::lemma_len_subset(rest.dom(), m.dom());
    if rest.dom().len() == 0 {
        sum_of_part(
            rest,
            rest,
            |k: ClaimKey, c: SignedModel| cost(c),
        );
        assert(weight(rest) == 0);
    } else {
        let low = lowest(rest);
        let above = from_standing(m, low);
        assert forall|q: ClaimKey| rest.contains_key(q) <==> above.contains_key(q) by {
            if rest.contains_key(q) && q != low {
                assert(standing(rest, low).before(standing(rest, q)));
                assert(standing(m, q) == standing(rest, q));
                assert(standing(m, low) == standing(rest, low));
            }
            if above.contains_key(q) && q != low {
                pruning_keeps_the_newest(m, low, q);
            }
        }
        assert(rest =~= above);
    }
}

/// Pruning leaves claims that fit alone.
pub proof fn what_fits_is_kept(m: Map<ClaimKey, SignedModel>)
    requires
        m.dom().finite(),
        fits(m),
    ensures
        kept(m) == m,
{
    assert forall|k: ClaimKey| #[trigger] m.contains_key(k) implies fits(from_standing(m, k)) by {
        part_fits(from_standing(m, k), m);
    }
    assert(kept(m) =~= m);
}

/// Pruning again changes nothing.
pub proof fn pruning_is_idempotent(m: Map<ClaimKey, SignedModel>)
    requires
        m.dom().finite(),
    ensures
        kept(kept(m)) == kept(m),
{
    what_is_kept_fits(m);
    what_fits_is_kept(kept(m));
}

/// The claims of two sets together; where both have a key, the claim of the first.
pub open spec fn both(
    a: Map<ClaimKey, SignedModel>,
    b: Map<ClaimKey, SignedModel>,
) -> Map<ClaimKey, SignedModel> {
    b.union_prefer_right(a)
}

/// Whether two sets have the same claim wherever they have the same key.
pub open spec fn agree(a: Map<ClaimKey, SignedModel>, b: Map<ClaimKey, SignedModel>) -> bool {
    forall|k: ClaimKey| #[trigger]
        a.contains_key(k) && #[trigger] b.contains_key(k) ==> a[k] == b[k]
}

/// Whether everything that pruning `a` drops stands below everything that is kept when
/// `b` comes to what is left.
pub open spec fn no_gap(a: Map<ClaimKey, SignedModel>, b: Map<ClaimKey, SignedModel>) -> bool {
    let late = both(kept(a), b);
    forall|q: ClaimKey, k: ClaimKey|
        a.contains_key(q) && !kept(a).contains_key(q) && kept(late).contains_key(k)
            ==> #[trigger] standing(a, q).before(#[trigger] standing(late, k))
}

/// Pruning before more claims come loses nothing that pruning afterwards keeps. It comes
/// to the same exactly where no claim slips into the room that a dropped, higher claim
/// was too large for.
pub proof fn when_pruning_early_is_harmless(
    a: Map<ClaimKey, SignedModel>,
    b: Map<ClaimKey, SignedModel>,
)
    requires
        a.dom().finite(),
        b.dom().finite(),
        agree(a, b),
    ensures
        kept(both(a, b)).submap_of(kept(both(kept(a), b))),
        kept(both(kept(a), b)) == kept(both(a, b)) <==> no_gap(a, b),
{
    let m = both(a, b);
    let n = both(kept(a), b);
    what_is_kept_fits(a);
    assert(m.dom() =~= a.dom().union(b.dom()));
    assert(n.dom() =~= kept(a).dom().union(b.dom()));
    assert(n.submap_of(m));
    // what m keeps of a, a keeps too
    assert forall|q: ClaimKey| #[trigger] kept(m).contains_key(q) && a.contains_key(
        q,
    ) implies kept(a).contains_key(q) by {
        let above = from_standing(m, q);
        assert(above.dom().subset_of(m.dom()));
        vstd::set_lib::lemma_len_subset(above.dom(), m.dom());
        let low = from_standing(a, q);
        assert forall|r: ClaimKey| #[trigger] low.contains_key(r) implies above.contains_key(r)
            && above[r] == low[r] by {
            assert(standing(m, r) == standing(a, r));
            assert(standing(m, q) == standing(a, q));
        }
        part_fits(low, above);
    }
    assert forall|k: ClaimKey| #[trigger] kept(m).contains_key(k) implies kept(n).contains_key(k)
        && kept(n)[k] == kept(m)[k] by {
        assert(n.contains_key(k));
        assert(standing(n, k) == standing(m, k));
        let above = from_standing(m, k);
        assert(above.dom().subset_of(m.dom()));
        vstd::set_lib::lemma_len_subset(above.dom(), m.dom());
        let low = from_standing(n, k);
        assert forall|r: ClaimKey| #[trigger] low.contains_key(r) implies above.contains_key(r)
            && above[r] == low[r] by {
            assert(standing(n, r) == standing(m, r));
        }
        part_fits(low, above);
    }
    if no_gap(a, b) {
        assert forall|k: ClaimKey| #[trigger] kept(n).contains_key(k) implies kept(m).contains_key(
            k,
        ) by {
            let above = from_standing(m, k);
            let low = from_standing(n, k);
            assert(standing(n, k) == standing(m, k));
            assert forall|r: ClaimKey| #[trigger] above.contains_key(r) implies low.contains_key(
                r,
            ) by {
                if !n.contains_key(r) {
                    assert(a.contains_key(r) && !kept(a).contains_key(r));
                    assert(standing(a, r).before(standing(n, k)));
                    assert(standing(a, r) == standing(m, r));
                    if r != k {
                        Standing::transitive(
                            standing(m, k),
                            standing(m, r),
                            standing(m, k),
                        );
                    }
                    Standing::irreflexive(standing(m, k));
                }
                assert(standing(n, r) == standing(m, r));
            }
            assert(above =~= low);
        }
        assert(kept(n) =~= kept(m));
    }
    if kept(n) == kept(m) {
        assert forall|q: ClaimKey, k: ClaimKey|
            a.contains_key(q) && !kept(a).contains_key(q) && kept(n).contains_key(
                k,
            ) implies #[trigger] standing(a, q).before(#[trigger] standing(n, k)) by {
            assert(!kept(m).contains_key(q));
            assert(standing(a, q) == standing(m, q));
            assert(standing(n, k) == standing(m, k));
            Standing::total(standing(m, q), standing(m, k));
            if standing(m, k).before(standing(m, q)) {
                pruning_keeps_the_newest(m, k, q);
            }
        }
    }
}

// ---------------------------------------------------------------------------
// Exchange
// ---------------------------------------------------------------------------

/// A peer that has everything is sent nothing.
pub proof fn an_up_to_date_peer_is_sent_nothing(
    claims: Seq<(ClaimKey, SignedModel)>,
    scanned: Seq<(BridgeId, SignedModel)>,
)
    requires
        rising(scanned),
    ensures
        claims_to_send(
            claims,
            digest_of(keys_of(claims)),
            digest_of(keys_of(claims)),
        ).len() == 0,
        watermarks_to_send(scanned, heights(map_of(scanned))).len() == 0,
{
    nothing_differs(claims, digest_of(keys_of(claims)));
    map_of_rising(scanned);
    nothing_is_ahead(scanned, map_of(scanned), scanned.len() as int);
    assert(scanned.take(scanned.len() as int) =~= scanned);
}

proof fn nothing_differs(claims: Seq<(ClaimKey, SignedModel)>, d: Seq<u64>)
    ensures
        claims_to_send(claims, d, d).len() == 0,
    decreases claims.len(),
{
    if claims.len() > 0 {
        nothing_differs(claims.drop_last(), d);
    }
}

proof fn nothing_is_ahead(
    scanned: Seq<(BridgeId, SignedModel)>,
    m: Map<BridgeId, SignedModel>,
    n: int,
)
    requires
        0 <= n <= scanned.len(),
        forall|i: int|
            0 <= i < scanned.len() ==> m.contains_key((#[trigger] scanned[i]).0)
                && m[scanned[i].0] == scanned[i].1,
    ensures
        watermarks_to_send(scanned.take(n), heights(m)).len() == 0,
    decreases n,
{
    if n > 0 {
        nothing_is_ahead(scanned, m, n - 1);
        assert(scanned.take(n).drop_last() =~= scanned.take(n - 1));
        assert(scanned.take(n).last() == scanned[n - 1]);
    }
}

/// A claim in a bucket whose digests differ is sent.
proof fn differing_bucket_is_sent(
    claims: Seq<(ClaimKey, SignedModel)>,
    mine: Seq<u64>,
    theirs: Seq<u64>,
    i: int,
)
    requires
        0 <= i < claims.len(),
        mine[bucket(claims[i].0.0)] != theirs[bucket(claims[i].0.0)],
    ensures
        claims_to_send(claims, mine, theirs).contains(claims[i].1),
    decreases claims.len(),
{
    let before = claims_to_send(claims.drop_last(), mine, theirs);
    let all = claims_to_send(claims, mine, theirs);
    if i == claims.len() - 1 {
        assert(all[all.len() - 1] == claims[i].1);
    } else {
        assert(claims.drop_last()[i] == claims[i]);
        differing_bucket_is_sent(claims.drop_last(), mine, theirs, i);
        let j = choose|j: int| 0 <= j < before.len() && before[j] == claims[i].1;
        assert(all[j] == claims[i].1);
    }
}

/// A peer that lacks one claim is sent it.
pub proof fn a_missing_claim_is_sent(
    claims: Seq<(ClaimKey, SignedModel)>,
    theirs: Seq<[u8; 32]>,
    i: int,
)
    requires
        0 <= i < claims.len(),
        theirs.push(claims[i].0.0).to_multiset() == keys_of(claims).to_multiset(),
        mark(claims[i].0.0) != 0,
    ensures
        claims_to_send(claims, digest_of(keys_of(claims)), digest_of(theirs)).contains(
            claims[i].1,
        ),
{
    let key = claims[i].0.0;
    crate::digest::digest_ignores_order(theirs.push(key), keys_of(claims));
    one_key_touches_one_bucket(theirs, key);
    differing_bucket_is_sent(claims, digest_of(keys_of(claims)), digest_of(theirs), i);
}

/// Whether the digests of two lists of keys tell them apart: a bucket with the same
/// digest on both sides has the same keys on both sides.
pub open spec fn digests_tell_apart(a: Seq<[u8; 32]>, b: Seq<[u8; 32]>) -> bool {
    forall|k: [u8; 32]|
        digest_of(a)[bucket(k)] == digest_of(b)[bucket(k)] ==> (#[trigger] a.contains(k)
            <==> #[trigger] b.contains(k))
}

/// What two states hold together: the claims of both, and of each bridge the higher
/// watermark, the first state's where both are as high.
pub open spec fn united(a: SetModel, b: SetModel) -> SetModel {
    SetModel {
        claims: both(a.claims, b.claims),
        scanned: Map::new(
            |k: BridgeId| a.scanned.contains_key(k) || b.scanned.contains_key(k),
            |k: BridgeId|
                if a.scanned.contains_key(k) && (!b.scanned.contains_key(k) || height_of(
                    b.scanned[k],
                ) <= height_of(a.scanned[k])) {
                    a.scanned[k]
                } else {
                    b.scanned[k]
                },
        ),
    }
}

#[verifier::spinoff_prover]
#[verifier::rlimit(40)]
proof fn sound_claims(claims: Seq<(ClaimKey, SignedModel)>, i: int, p: ParamsModel)
    requires
        0 <= i,
        claims_fault(claims, i, p) is None,
    ensures
        forall|j: int|
            i <= j < claims.len() ==> claim_verdict((#[trigger] claims[j]).1, p) is Ok
                && !is_watermark(claims[j].1) && key_of(claims[j].1) == claims[j].0,
    decreases claims.len() - i,
{
    if i < claims.len() {
        sound_claims(claims, i + 1, p);
        arr32_of_view(claims[i].0.0);
    }
}

proof fn sound_watermarks(scanned: Seq<(BridgeId, SignedModel)>, i: int, p: ParamsModel)
    requires
        0 <= i,
        watermarks_fault(scanned, i, p) is None,
    ensures
        forall|j: int|
            i <= j < scanned.len() ==> claim_verdict((#[trigger] scanned[j]).1, p) is Ok
                && is_watermark(scanned[j].1) && scanned[j].1.bridge == scanned[j].0,
    decreases scanned.len() - i,
{
    if i < scanned.len() {
        sound_watermarks(scanned, i + 1, p);
    }
}

/// Taking in what is sent of some claims adds those that lack.
proof fn claims_come_in(
    s: SetModel,
    claims: Seq<(ClaimKey, SignedModel)>,
    mine: Seq<u64>,
    theirs: Seq<u64>,
    p: ParamsModel,
)
    requires
        rising(claims),
        forall|j: int|
            0 <= j < claims.len() ==> claim_verdict((#[trigger] claims[j]).1, p) is Ok
                && !is_watermark(claims[j].1) && key_of(claims[j].1) == claims[j].0,
    ensures
        ({
            let (t, fault) = absorbed(s, claims_to_send(claims, mine, theirs), p);
            &&& fault is None
            &&& t.scanned == s.scanned
            &&& forall|k: ClaimKey| #[trigger]
                t.claims.contains_key(k) <==> s.claims.contains_key(k) || (map_of(
                    claims,
                ).contains_key(k) && mine[bucket(k.0)] != theirs[bucket(k.0)])
            &&& forall|k: ClaimKey| #[trigger]
                t.claims.contains_key(k) ==> t.claims[k] == (if s.claims.contains_key(k) {
                    s.claims[k]
                } else {
                    map_of(claims)[k]
                })
        }),
    decreases claims.len(),
{
    if claims.len() > 0 {
        let was = claims.drop_last();
        let last = claims.last();
        assert(rising(was)) by {
            assert forall|i: int, j: int| 0 <= i < j < was.len() implies (
            #[trigger] was[i]).0.before((#[trigger] was[j]).0) by {
                assert(claims[i].0.before(claims[j].0));
            }
        }
        assert forall|j: int| 0 <= j < was.len() implies claim_verdict(
            (#[trigger] was[j]).1,
            p,
        ) is Ok && !is_watermark(was[j].1) && key_of(was[j].1) == was[j].0 by {
            assert(was[j] == claims[j]);
        }
        claims_come_in(s, was, mine, theirs, p);
        map_of_rising(was);
        assert(claims[claims.len() - 1] == last);
        if map_of(was).contains_key(last.0) {
            let i = choose|i: int| 0 <= i < was.len() && (#[trigger] was[i]).0 == last.0;
            assert(claims[i].0.before(claims[claims.len() - 1].0));
            ClaimKey::irreflexive(last.0);
        }
        let before = claims_to_send(was, mine, theirs);
        let all = claims_to_send(claims, mine, theirs);
        if mine[bucket(last.0.0)] != theirs[bucket(last.0.0)] {
            assert(all.drop_last() =~= before);
            assert(all.last() == last.1);
        }
    }
}

/// Taking in the watermarks that are ahead leaves the higher of each two.
proof fn watermarks_come_in(
    s: SetModel,
    scanned: Seq<(BridgeId, SignedModel)>,
    p: ParamsModel,
)
    requires
        rising(scanned),
        forall|j: int|
            0 <= j < scanned.len() ==> claim_verdict((#[trigger] scanned[j]).1, p) is Ok
                && is_watermark(scanned[j].1) && scanned[j].1.bridge == scanned[j].0,
    ensures
        ({
            let (t, fault) = absorbed(s, watermarks_to_send(scanned, heights(s.scanned)), p);
            let m = map_of(scanned);
            &&& fault is None
            &&& t.claims == s.claims
            &&& forall|k: BridgeId| #[trigger]
                t.scanned.contains_key(k) <==> s.scanned.contains_key(k) || m.contains_key(k)
            &&& forall|k: BridgeId| #[trigger]
                t.scanned.contains_key(k) ==> t.scanned[k] == (if s.scanned.contains_key(k) && (
                !m.contains_key(k) || height_of(m[k]) <= height_of(s.scanned[k])) {
                    s.scanned[k]
                } else {
                    m[k]
                })
        }),
    decreases scanned.len(),
{
    if scanned.len() > 0 {
        let was = scanned.drop_last();
        let last = scanned.last();
        assert(rising(was)) by {
            assert forall|i: int, j: int| 0 <= i < j < was.len() implies (
            #[trigger] was[i]).0.before((#[trigger] was[j]).0) by {
                assert(scanned[i].0.before(scanned[j].0));
            }
        }
        assert forall|j: int| 0 <= j < was.len() implies claim_verdict(
            (#[trigger] was[j]).1,
            p,
        ) is Ok && is_watermark(was[j].1) && was[j].1.bridge == was[j].0 by {
            assert(was[j] == scanned[j]);
        }
        watermarks_come_in(s, was, p);
        map_of_rising(was);
        assert(scanned[scanned.len() - 1] == last);
        if map_of(was).contains_key(last.0) {
            let i = choose|i: int| 0 <= i < was.len() && (#[trigger] was[i]).0 == last.0;
            assert(scanned[i].0.before(scanned[scanned.len() - 1].0));
            BridgeId::irreflexive(last.0);
        }
        let before = watermarks_to_send(was, heights(s.scanned));
        let all = watermarks_to_send(scanned, heights(s.scanned));
        if ahead(last.0, last.1, heights(s.scanned)) {
            assert(all.drop_last() =~= before);
            assert(all.last() == last.1);
        }
    }
}

/// Merging a valid state unites it with what a replica holds: nothing is lost, and
/// nothing comes in that neither had.
pub proof fn merging_unites(
    mine: Seq<(ClaimKey, SignedModel)>,
    my_marks: Map<BridgeId, SignedModel>,
    theirs: Seq<(ClaimKey, SignedModel)>,
    their_marks: Seq<(BridgeId, SignedModel)>,
    p: ParamsModel,
)
    requires
        rising(mine),
        rising(theirs),
        rising(their_marks),
        set_fault(theirs, their_marks, p) is None,
        digests_tell_apart(keys_of(mine), keys_of(theirs)),
    ensures
        ({
            let a = SetModel { claims: map_of(mine), scanned: my_marks };
            let b = SetModel { claims: map_of(theirs), scanned: map_of(their_marks) };
            let sent = lacking(mine, my_marks, theirs, their_marks);
            absorbed(a, sent, p).0 == united(a, b) && absorbed(a, sent, p).1 is None
        }),
{
    let a = SetModel { claims: map_of(mine), scanned: my_marks };
    let b = SetModel { claims: map_of(theirs), scanned: map_of(their_marks) };
    let dm = digest_of(keys_of(mine));
    let dt = digest_of(keys_of(theirs));
    let first = claims_to_send(theirs, dt, dm);
    let second = watermarks_to_send(their_marks, heights(my_marks));
    sound_claims(theirs, 0, p);
    sound_watermarks(their_marks, 0, p);
    claims_come_in(a, theirs, dt, dm, p);
    let t = absorbed(a, first, p).0;
    watermarks_come_in(t, their_marks, p);
    crate::address_state::absorbed_in_parts(a, first, second, p);
    let u = absorbed(a, first + second, p).0;
    map_of_rising(mine);
    map_of_rising(theirs);
    assert forall|k: ClaimKey| u.claims.contains_key(k) <==> both(
        a.claims,
        b.claims,
    ).contains_key(k) by {
        assert(u.claims.contains_key(k) <==> t.claims.contains_key(k));
        if map_of(theirs).contains_key(k) && dt[bucket(k.0)] == dm[bucket(k.0)] {
            let i = choose|i: int| 0 <= i < theirs.len() && (#[trigger] theirs[i]).0 == k;
            assert(keys_of(theirs)[i] == k.0);
            assert(keys_of(theirs).contains(k.0));
            assert(keys_of(mine).contains(k.0));
            let j = choose|j: int| 0 <= j < keys_of(mine).len() && keys_of(mine)[j] == k.0;
            assert(mine[j].0 == k);
            assert(a.claims.contains_key(k));
        }
    }
    assert(u.claims =~= both(a.claims, b.claims));
    assert(u.scanned =~= united(a, b).scanned);
}

/// Whether two states have the same claim under the same key, and the same watermark
/// wherever a bridge's watermarks are as high.
pub open spec fn in_accord(a: SetModel, b: SetModel) -> bool {
    &&& agree(a.claims, b.claims)
    &&& forall|k: BridgeId| #[trigger]
        a.scanned.contains_key(k) && #[trigger] b.scanned.contains_key(k) && height_of(
            a.scanned[k],
        ) == height_of(b.scanned[k]) ==> a.scanned[k] == b.scanned[k]
}

/// It does not matter which of two states is merged into which.
pub proof fn uniting_commutes(a: SetModel, b: SetModel)
    requires
        in_accord(a, b),
    ensures
        united(a, b) == united(b, a),
{
    assert(united(a, b).claims =~= united(b, a).claims);
    assert(united(a, b).scanned =~= united(b, a).scanned);
}

/// It does not matter how merges are grouped.
pub proof fn uniting_associates(a: SetModel, b: SetModel, c: SetModel)
    ensures
        united(united(a, b), c) == united(a, united(b, c)),
{
    assert(united(united(a, b), c).claims =~= united(a, united(b, c)).claims);
    assert(united(united(a, b), c).scanned =~= united(a, united(b, c)).scanned);
}

/// Merging a state with itself changes nothing.
pub proof fn uniting_is_idempotent(a: SetModel)
    ensures
        united(a, a) == a,
{
    assert(united(a, a).claims =~= a.claims);
    assert(united(a, a).scanned =~= a.scanned);
}

/// Two states united, and pruned to what fits.
pub open spec fn joined(a: SetModel, b: SetModel) -> SetModel {
    SetModel { claims: kept(united(a, b).claims), scanned: united(a, b).scanned }
}

/// Merging a valid state into one that fits joins the two.
pub proof fn merging_joins(
    mine: Seq<(ClaimKey, SignedModel)>,
    my_marks: Map<BridgeId, SignedModel>,
    theirs: Seq<(ClaimKey, SignedModel)>,
    their_marks: Seq<(BridgeId, SignedModel)>,
    p: ParamsModel,
)
    requires
        rising(mine),
        rising(theirs),
        rising(their_marks),
        fits(map_of(mine)),
        set_fault(theirs, their_marks, p) is None,
        digests_tell_apart(keys_of(mine), keys_of(theirs)),
    ensures
        merged(mine, my_marks, theirs, their_marks, p) == (
            joined(
                SetModel { claims: map_of(mine), scanned: my_marks },
                SetModel { claims: map_of(theirs), scanned: map_of(their_marks) },
            ),
            None::<Seq<char>>,
        ),
{
    merging_unites(mine, my_marks, theirs, their_marks, p);
    map_of_rising(mine);
    let sent = lacking(mine, my_marks, theirs, their_marks);
    if sent.len() == 0 {
        what_fits_is_kept(map_of(mine));
    }
}

/// Two valid replicas that merge each other hold the same state afterwards.
pub proof fn merging_commutes(
    mine: Seq<(ClaimKey, SignedModel)>,
    my_marks: Seq<(BridgeId, SignedModel)>,
    theirs: Seq<(ClaimKey, SignedModel)>,
    their_marks: Seq<(BridgeId, SignedModel)>,
    p: ParamsModel,
)
    requires
        rising(mine),
        rising(my_marks),
        rising(theirs),
        rising(their_marks),
        set_fault(mine, my_marks, p) is None,
        set_fault(theirs, their_marks, p) is None,
        digests_tell_apart(keys_of(mine), keys_of(theirs)),
        in_accord(
            SetModel { claims: map_of(mine), scanned: map_of(my_marks) },
            SetModel { claims: map_of(theirs), scanned: map_of(their_marks) },
        ),
    ensures
        merged(mine, map_of(my_marks), theirs, their_marks, p) == merged(
            theirs,
            map_of(their_marks),
            mine,
            my_marks,
            p,
        ),
{
    map_of_rising(mine);
    map_of_rising(theirs);
    merging_joins(mine, map_of(my_marks), theirs, their_marks, p);
    merging_joins(theirs, map_of(their_marks), mine, my_marks, p);
    uniting_commutes(
        SetModel { claims: map_of(mine), scanned: map_of(my_marks) },
        SetModel { claims: map_of(theirs), scanned: map_of(their_marks) },
    );
}

/// Merging a state with itself changes nothing.
pub proof fn merging_is_idempotent(
    mine: Seq<(ClaimKey, SignedModel)>,
    my_marks: Seq<(BridgeId, SignedModel)>,
    p: ParamsModel,
)
    requires
        rising(my_marks),
    ensures
        merged(mine, map_of(my_marks), mine, my_marks, p) == (
            SetModel { claims: map_of(mine), scanned: map_of(my_marks) },
            None::<Seq<char>>,
        ),
{
    an_up_to_date_peer_is_sent_nothing(mine, my_marks);
}

/// The claims that stay where `a` is pruned before `b` comes, and would not stay otherwise:
/// they slip into the room that a dropped, higher claim was too large for.
pub open spec fn slipped(a: Map<ClaimKey, SignedModel>, b: Map<ClaimKey, SignedModel>) -> Set<
    ClaimKey,
> {
    kept(both(kept(a), b)).dom().difference(kept(both(a, b)).dom())
}

/// It does not matter how joins are grouped, but for one thing: where pruning cuts a claim
/// off, a smaller and lower one may slip into its room in one grouping and not in the other.
/// Where none does, and in particular where everything fits together, both come to the same.
pub proof fn joining_associates(a: SetModel, b: SetModel, c: SetModel)
    requires
        a.claims.dom().finite(),
        b.claims.dom().finite(),
        c.claims.dom().finite(),
        agree(a.claims, b.claims),
        agree(b.claims, c.claims),
        agree(a.claims, c.claims),
    ensures
        joined(joined(a, b), c) == joined(a, joined(b, c)) <==> slipped(
            both(a.claims, b.claims),
            c.claims,
        ) == slipped(both(b.claims, c.claims), a.claims),
        no_gap(both(a.claims, b.claims), c.claims) && no_gap(both(b.claims, c.claims), a.claims)
            ==> joined(joined(a, b), c) == joined(a, joined(b, c)),
        fits(both(both(a.claims, b.claims), c.claims)) ==> joined(joined(a, b), c) == joined(
            a,
            joined(b, c),
        ),
{
    let ab = both(a.claims, b.claims);
    let bc = both(b.claims, c.claims);
    let all = both(ab, c.claims);
    assert(ab.dom() =~= a.claims.dom().union(b.claims.dom()));
    assert(bc.dom() =~= b.claims.dom().union(c.claims.dom()));
    assert(all.dom() =~= ab.dom().union(c.claims.dom()));
    assert(both(bc, a.claims) =~= all);
    uniting_associates(a, b, c);
    assert(agree(ab, c.claims));
    assert(agree(bc, a.claims));
    when_pruning_early_is_harmless(ab, c.claims);
    when_pruning_early_is_harmless(bc, a.claims);
    what_is_kept_fits(ab);
    what_is_kept_fits(bc);
    let left = kept(both(kept(ab), c.claims));
    let right = kept(both(kept(bc), a.claims));
    assert(both(a.claims, kept(bc)) =~= both(kept(bc), a.claims));
    assert(joined(joined(a, b), c).claims == left);
    assert(joined(a, joined(b, c)).claims == right);
    assert(joined(joined(a, b), c).scanned == joined(a, joined(b, c)).scanned);
    assert(both(kept(ab), c.claims).dom() =~= kept(ab).dom().union(c.claims.dom()));
    assert(both(kept(bc), a.claims).dom() =~= kept(bc).dom().union(a.claims.dom()));
    what_is_kept_fits(both(kept(ab), c.claims));
    what_is_kept_fits(both(kept(bc), a.claims));
    assert forall|k: ClaimKey| #[trigger] left.contains_key(k) implies all.contains_key(k)
        && left[k] == all[k] by {}
    assert forall|k: ClaimKey| #[trigger] right.contains_key(k) implies all.contains_key(k)
        && right[k] == all[k] by {}
    let one = slipped(ab, c.claims);
    let other = slipped(bc, a.claims);
    if one == other {
        assert forall|k: ClaimKey| left.contains_key(k) <==> right.contains_key(k) by {
            assert(one.contains(k) <==> other.contains(k));
        }
        assert(left =~= right);
    }
    if fits(all) {
        part_fits(ab, all);
        what_fits_is_kept(ab);
        assert(bc.submap_of(all)) by {
            assert forall|k: ClaimKey| #[trigger] bc.contains_key(k) implies all.contains_key(k)
                && all[k] == bc[k] by {}
        }
        part_fits(bc, all);
        what_fits_is_kept(bc);
    }
}

// ---------------------------------------------------------------------------
// Evidence
// ---------------------------------------------------------------------------

/// The claims of a list that can be read.
pub open spec fn read_back(cs: Seq<SignedModel>) -> Seq<BodyModel>
    decreases cs.len(),
{
    if cs.len() == 0 {
        Seq::empty()
    } else {
        match body_from(cs.last().body_cbor) {
            Ok(b) => read_back(cs.drop_last()).push(b),
            Err(_) => read_back(cs.drop_last()),
        }
    }
}

/// Whoever is handed the evidence of a payment folds it to the status that it has in
/// the full state, because no claim about that outpoint is left out.
pub proof fn evidence_is_complete(
    list: Seq<(ClaimKey, SignedModel)>,
    m: Map<OutPoint, OutpointStatus>,
    tip: u32,
    min: u32,
    op: OutPoint,
)
    requires
        qualifies(m, op, tip, min),
    ensures
        about(read_back(evidence(list, m, tip, min)), op) == about(readable(list), op),
        folded(about(read_back(evidence(list, m, tip, min)), op)) == folded(
            about(readable(list), op),
        ),
    decreases list.len(),
{
    if list.len() > 0 {
        let was = list.drop_last();
        let c = list.last().1;
        evidence_is_complete(was, m, tip, min, op);
        let before = evidence(was, m, tip, min);
        let all = evidence(list, m, tip, min);
        if is_evidence(c, m, tip, min) {
            assert(all.drop_last() =~= before);
            assert(all.last() == c);
        }
        if body_from(c.body_cbor) is Ok {
            let b = body_from(c.body_cbor)->Ok_0;
            about_push(read_back(before), b, op);
            about_push(readable(was), b, op);
            if is_about(b, op) {
                assert(is_evidence(c, m, tip, min));
            }
        }
    }
}

/// States with the same claims are written as the same bytes, which is how peers decide that
/// they have converged.
pub proof fn equal_states_are_written_alike(a: &BitcoinAddressStateV1, b: &BitcoinAddressStateV1)
    requires
        a.claims.claims.wf(),
        a.claims.scanned.wf(),
        b.claims.claims.wf(),
        b.claims.scanned.wf(),
        a.model() == b.model(),
    ensures
        bytes_of(a.item()) == bytes_of(b.item()),
{
    SortedMap::same_entries_same_list(&a.claims.claims, &b.claims.claims);
    SortedMap::same_entries_same_list(&a.claims.scanned, &b.claims.scanned);
}

} // verus!
