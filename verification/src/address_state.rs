//! State of an address contract: one script's worth of bridge-signed observations.
//!
//! Two collections with different merge rules. [`ClaimSetV1::claims`] is a set of
//! payment and retraction assertions keyed by digest, merged by union.
//! [`ClaimSetV1::scanned`] keeps, for each bridge, the watermark of the greatest height.
//! When the claims outgrow their budget the ones of the lowest `as_of` go first.

use vstd::prelude::*;

use crate::bytes::{
    arr32, arr32_of_view, comes_before, lex_before, lex_irreflexive, lex_total, lex_transitive,
    same32,
};
use crate::cbor::bytes_of;
use crate::claims::{BodyModel, Claim, ClaimBody};
use crate::digest::{blank, bucket, digest_of, BucketDigest};
use crate::fold::{bodies, confirmations, depth, fold_claims_by_outpoint, statuses, OutpointStatus};
use crate::records::{body_from, signed_item, signed_len};
use crate::signing::{claim_digest, claim_verdict, SignedClaim, SignedModel};
use crate::sorted::{map_of, rising, ClaimKey, Copied, Ordered, SortedMap};
use crate::sums::{
    insert_counts, push_counts, list_sum, list_sum_is_map_sum, map_sum, sum_empty, sum_of_part,
    sum_without,
};
use crate::text::{decimal, decimal_text, join3, wide_decimal};
use crate::types::{BitcoinAddressParameters, BlockAnchor, BridgeId, OutPoint, ParamsModel};

verus! {

broadcast use vstd::array::group_array_axioms;

/// Hard cap on the number of claims.
pub const MAX_CLAIMS: usize = 512;

/// Byte budget for the claim set. A claim's size is set by whoever made the Bitcoin
/// transaction, so a count alone bounds nothing.
pub const MAX_CLAIM_BYTES: usize = 262144;

/// The claim set for one Bitcoin output script.
#[derive(PartialEq, Debug)]
pub struct ClaimSetV1 {
    /// Payment and retraction assertions, keyed by claim digest.
    pub claims: SortedMap<ClaimKey, SignedClaim>,
    /// One watermark for each bridge.
    pub scanned: SortedMap<BridgeId, SignedClaim>,
}

/// A [`ClaimSetV1`] as a mathematical value.
#[verifier::ext_equal]
pub struct SetModel {
    pub claims: Map<ClaimKey, SignedModel>,
    pub scanned: Map<BridgeId, SignedModel>,
}

impl View for ClaimSetV1 {
    type V = SetModel;

    open spec fn view(&self) -> SetModel {
        SetModel { claims: self.claims@, scanned: self.scanned@ }
    }
}

impl SetModel {
    pub open spec fn finite(self) -> bool {
        self.claims.dom().finite() && self.scanned.dom().finite()
    }
}

impl Default for ClaimSetV1 {
    fn default() -> (r: Self)
        ensures
            r@.claims == Map::<ClaimKey, SignedModel>::empty(),
            r@.scanned == Map::<BridgeId, SignedModel>::empty(),
            r.claims.list().len() == 0,
            r.scanned.list().len() == 0,
    {
        ClaimSetV1 { claims: SortedMap::new(), scanned: SortedMap::new() }
    }
}

impl Clone for ClaimSetV1 {
    fn clone(&self) -> (r: Self)
        ensures
            r@ == self@,
            r.claims.list() == self.claims.list(),
            r.scanned.list() == self.scanned.list(),
    {
        ClaimSetV1 { claims: self.claims.clone(), scanned: self.scanned.clone() }
    }
}

/// The height a signed claim was made at; none that can be read counts as 0.
pub open spec fn height_of(c: SignedModel) -> u32 {
    match body_from(c.body_cbor) {
        Ok(b) => b.as_of.height,
        Err(_) => 0,
    }
}

fn claim_height(c: &SignedClaim) -> (r: u32)
    ensures
        r == height_of(c@),
{
    match c.body() {
        Ok(b) => b.as_of.height,
        Err(_) => 0,
    }
}

/// The key a claim belongs under.
pub open spec fn key_of(c: SignedModel) -> ClaimKey {
    ClaimKey(arr32(claim_digest(c)))
}

/// Whether a claim changes the set: a watermark that is higher than the one before, or
/// any other claim under whose key nothing stands.
pub open spec fn admits(s: SetModel, c: SignedModel, body: BodyModel) -> bool {
    if body.claim is ScannedTo {
        !s.scanned.contains_key(c.bridge) || body.as_of.height > height_of(s.scanned[c.bridge])
    } else {
        !s.claims.contains_key(key_of(c))
    }
}

/// The set with one more claim.
pub open spec fn inserted(s: SetModel, c: SignedModel, body: BodyModel) -> SetModel {
    if !admits(s, c, body) {
        s
    } else if body.claim is ScannedTo {
        SetModel { claims: s.claims, scanned: s.scanned.insert(c.bridge, c) }
    } else {
        SetModel { claims: s.claims.insert(key_of(c), c), scanned: s.scanned }
    }
}

/// What a stored claim costs: its encoding and its key's.
pub open spec fn cost(c: SignedModel) -> nat {
    bytes_of(signed_item(c)).len() + 34
}

/// What claims cost together.
pub open spec fn weight(m: Map<ClaimKey, SignedModel>) -> nat {
    map_sum(m, |k: ClaimKey, c: SignedModel| cost(c))
}

/// Whether claims fit the cap and the budget.
pub open spec fn fits(m: Map<ClaimKey, SignedModel>) -> bool {
    m.dom().len() <= MAX_CLAIMS && weight(m) <= MAX_CLAIM_BYTES
}

/// Where a claim stands when claims have to go: the lowest goes first.
#[derive(Clone, Copy, PartialEq, Eq, Debug)]
pub struct Standing {
    pub height: u32,
    pub key: ClaimKey,
}

impl Ordered for Standing {
    open spec fn before(self, other: Self) -> bool {
        self.height < other.height || (self.height == other.height && self.key.before(other.key))
    }

    proof fn irreflexive(a: Self) {
        ClaimKey::irreflexive(a.key);
    }

    proof fn transitive(a: Self, b: Self, c: Self) {
        if a.height == b.height && b.height == c.height {
            ClaimKey::transitive(a.key, b.key, c.key);
        }
    }

    proof fn total(a: Self, b: Self) {
        ClaimKey::total(a.key, b.key);
    }

    fn is_before(&self, other: &Self) -> (r: bool) {
        if self.height != other.height {
            self.height < other.height
        } else {
            self.key.is_before(&other.key)
        }
    }
}

pub open spec fn standing(m: Map<ClaimKey, SignedModel>, k: ClaimKey) -> Standing {
    Standing { height: height_of(m[k]), key: k }
}

/// The claim under `k` and those that stand above it.
pub open spec fn from_standing(m: Map<ClaimKey, SignedModel>, k: ClaimKey) -> Map<
    ClaimKey,
    SignedModel,
> {
    m.restrict(
        Set::new(|q: ClaimKey| q == k || standing(m, k).before(standing(m, q))),
    )
}

/// What stays of a set that must fit: every claim that fits together with all that
/// stand above it.
pub open spec fn kept(m: Map<ClaimKey, SignedModel>) -> Map<ClaimKey, SignedModel> {
    m.restrict(Set::new(|k: ClaimKey| fits(from_standing(m, k))))
}

impl ClaimSetV1 {
    /// Insert a verified claim. Returns true if it was new.
    pub fn insert_verified(&mut self, signed: SignedClaim, body: &ClaimBody) -> (r: bool)
        ensures
            final(self)@ == inserted(old(self)@, signed@, body@),
            r == admits(old(self)@, signed@, body@),
    {
        let ghost was = self@;
        if body.claim.is_watermark() {
            let bridge = signed.bridge;
            let newer = match self.scanned.get(&bridge) {
                Some(existing) => body.as_of.height > claim_height(existing),
                None => true,
            };
            if newer {
                self.scanned.insert(bridge, signed);
            }
            assert(self@ =~= inserted(was, signed@, body@));
            return newer;
        }
        let key = ClaimKey(signed.digest());
        proof {
            arr32_of_view(key.0);
        }
        if self.claims.contains_key(&key) {
            return false;
        }
        self.claims.insert(key, signed);
        assert(self@ =~= inserted(was, signed@, body@));
        true
    }

    /// What a stored claim costs: its encoding and its key's 34 bytes.
    pub fn claim_cost(signed: &SignedClaim) -> (r: u128)
        ensures
            r == cost(signed@),
            r <= 0x1_0000_0000_0000_0021,
    {
        let n: u64 = signed_len(signed) as u64;
        n as u128 + 34
    }

    /// Prune to both the count cap and the byte budget, the lowest `as_of` first.
    pub fn enforce_cap(&mut self)
        ensures
            final(self)@.claims == kept(old(self)@.claims),
            final(self).scanned == old(self).scanned,
    {
        let ghost whole = self.claims@;
        let ghost f = |k: ClaimKey, c: SignedModel| cost(c);
        let ranked = self.ranked();
        let n: usize = ranked.len();
        let ghost list = ranked.list();
        let _ = self.claims.len();
        proof {
            rest_is_finite(whole, list);
            assert(rest_from(whole, list, n as int) =~= Map::<ClaimKey, SignedModel>::empty());
            sum_empty::<ClaimKey, SignedModel>(f);
        }
        // The highest claims that fit together are those from `cut` on.
        let mut cut: usize = n;
        let mut total: u128 = 0;
        let mut full: bool = false;
        while cut > 0 && !full
            invariant
                f == (|k: ClaimKey, c: SignedModel| cost(c)),
                list == ranked.list(),
                n == list.len(),
                ranks(list, whole),
                cut <= n,
                whole.dom().finite(),
                total == weight(rest_from(whole, list, cut as int)),
                n - cut == rest_from(whole, list, cut as int).dom().len(),
                fits(rest_from(whole, list, cut as int)),
                full ==> cut > 0 && !fits(rest_from(whole, list, cut - 1)),
            decreases cut, if full { 0int } else { 1int },
        {
            let (place, price) = ranked.at(cut - 1);
            proof {
                let i = cut - 1;
                assert(list[i].0 == *place);
                let more = rest_from(whole, list, i);
                rest_without_first(whole, list, i);
                rest_is_finite(whole, list);
                assert(more.contains_key(place.key));
                sum_without(more, f, place.key);
                assert(more[place.key] == whole[place.key]);
                assert(more.remove(place.key) == rest_from(whole, list, cut as int));
                assert(more.dom().remove(place.key) =~= more.remove(place.key).dom());
            }
            let room: u128 = MAX_CLAIM_BYTES as u128 - total;
            if n - (cut - 1) <= MAX_CLAIMS && *price <= room {
                cut = cut - 1;
                total = total + *price;
            } else {
                full = true;
            }
        }
        proof {
            assert(whole =~= rest_from(whole, list, 0)) by {
                assert forall|k: ClaimKey| whole.contains_key(k) implies rest_from(
                    whole,
                    list,
                    0,
                ).contains_key(k) by {
                    assert(ranked@.contains_key(standing(whole, k)));
                    let j = choose|j: int|
                        0 <= j < list.len() && (#[trigger] list[j]).0 == standing(whole, k);
                    assert(list[j].0.key == k);
                }
            }
        }
        for i in 0..cut
            invariant
                list == ranked.list(),
                cut <= list.len(),
                ranks(list, whole),
                self.claims@ == rest_from(whole, list, i as int),
                self.scanned == old(self).scanned,
        {
            let key = ranked.at(i).0.key;
            proof {
                assert(list[i as int].0.key == key);
                rest_without_first(whole, list, i as int);
            }
            self.claims.remove(&key);
        }
        proof {
            let end = cut as int;
            let last = self.claims@;
            assert forall|k: ClaimKey| kept(whole).contains_key(k) == last.contains_key(k) by {
                if whole.contains_key(k) {
                    assert(ranked@.contains_key(standing(whole, k)));
                    let j = choose|j: int|
                        0 <= j < list.len() && (#[trigger] list[j]).0 == standing(whole, k);
                    from_standing_is_rest(whole, list, j);
                    rest_is_finite(whole, list);
                    if j < end {
                        rest_shrinks(whole, list, j, end - 1);
                        sum_of_part(
                            rest_from(whole, list, end - 1),
                            rest_from(whole, list, j),
                            f,
                        );
                        if last.contains_key(k) {
                            let q = choose|q: int|
                                end <= q < list.len() && (#[trigger] list[q]).0.key == k;
                            assert(standing(whole, k) == list[q].0);
                            assert(list[j].0.before(list[q].0));
                            Standing::irreflexive(list[j].0);
                        }
                    } else {
                        rest_shrinks(whole, list, end, j);
                        sum_of_part(rest_from(whole, list, j), last, f);
                        assert(list[j].0.key == k);
                    }
                }
            }
            assert(self.claims@ =~= kept(whole));
        }
    }

    /// The claims by where they stand, with what each costs.
    fn ranked(&self) -> (r: SortedMap<Standing, u128>)
        ensures
            ranks(r.list(), self.claims@),
            r.wf(),
            forall|k: ClaimKey|
                self.claims@.contains_key(k) ==> #[trigger] r@.contains_key(
                    standing(self.claims@, k),
                ),
    {
        let ghost whole = self.claims@;
        let ghost all = self.claims.list();
        let n: usize = self.claims.len();
        let mut r: SortedMap<Standing, u128> = SortedMap::new();
        for i in 0..n
            invariant
                whole == self.claims@,
                all == self.claims.list(),
                n == all.len(),
                self.claims.wf(),
                forall|p: Standing| #[trigger]
                    r@.contains_key(p) ==> whole.contains_key(p.key) && p == standing(whole, p.key)
                        && r@[p] == cost(whole[p.key]),
                forall|j: int|
                    0 <= j < i ==> r@.contains_key(standing(whole, (#[trigger] all[j]).0)),
        {
            let (key, signed) = self.claims.at(i);
            assert(all[i as int] == (*key, signed@));
            assert(whole.contains_key(all[i as int].0));
            let price: u128 = Self::claim_cost(signed);
            let place = Standing { height: claim_height(signed), key: *key };
            assert(place == standing(whole, *key));
            r.insert(place, price);
        }
        let _ = r.len();
        assert forall|k: ClaimKey| whole.contains_key(k) implies #[trigger] r@.contains_key(
            standing(whole, k),
        ) by {
            let j = choose|j: int| 0 <= j < all.len() && (#[trigger] all[j]).0 == k;
            assert(r@.contains_key(standing(whole, all[j].0)));
        }
        r
    }

    /// What the claims cost together.
    fn size(&self) -> (r: u128)
        requires
            self.claims.list().len() <= MAX_CLAIMS,
        ensures
            r == weight(self.claims@),
    {
        let ghost f = |k: ClaimKey, c: SignedModel| cost(c);
        let ghost all = self.claims.list();
        let n: usize = self.claims.len();
        let mut total: u128 = 0;
        for i in 0..n
            invariant
                f == (|k: ClaimKey, c: SignedModel| cost(c)),
                all == self.claims.list(),
                n == all.len(),
                n <= MAX_CLAIMS,
                total == list_sum(all.take(i as int), f),
                total <= i * 0x1_0000_0000_0000_0022,
        {
            let (key, signed) = self.claims.at(i);
            let price: u128 = Self::claim_cost(signed);
            proof {
                assert(all[i as int] == (*key, signed@));
                assert(all.take(i + 1).drop_last() =~= all.take(i as int));
                assert(all.take(i + 1).last() == all[i as int]);
            }
            total = total + price;
        }
        proof {
            assert(all.take(all.len() as int) =~= all);
            list_sum_is_map_sum(all, f);
        }
        total
    }
}

/// Whether `list` holds every claim once, by where it stands, with what it costs.
spec fn ranks(list: Seq<(Standing, u128)>, whole: Map<ClaimKey, SignedModel>) -> bool {
    &&& rising(list)
    &&& forall|i: int|
        0 <= i < list.len() ==> whole.contains_key((#[trigger] list[i]).0.key) && list[i].0
            == standing(whole, list[i].0.key) && list[i].1 == cost(whole[list[i].0.key])
}

/// The claims from the `i`th on.
spec fn rest_from(
    whole: Map<ClaimKey, SignedModel>,
    list: Seq<(Standing, u128)>,
    i: int,
) -> Map<ClaimKey, SignedModel> {
    whole.restrict(
        Set::new(|k: ClaimKey| exists|j: int| i <= j < list.len() && (#[trigger] list[j]).0.key == k),
    )
}

proof fn rest_is_finite(whole: Map<ClaimKey, SignedModel>, list: Seq<(Standing, u128)>)
    requires
        whole.dom().finite(),
    ensures
        forall|i: int| (#[trigger] rest_from(whole, list, i)).dom().finite(),
{
    assert forall|i: int| (#[trigger] rest_from(whole, list, i)).dom().finite() by {
        assert(rest_from(whole, list, i).dom().subset_of(whole.dom()));
        vstd::set_lib::lemma_set_subset_finite(whole.dom(), rest_from(whole, list, i).dom());
    }
}

proof fn rest_without_first(
    whole: Map<ClaimKey, SignedModel>,
    list: Seq<(Standing, u128)>,
    i: int,
)
    requires
        ranks(list, whole),
        0 <= i < list.len(),
    ensures
        rest_from(whole, list, i).remove(list[i].0.key) == rest_from(whole, list, i + 1),
{
    let a = rest_from(whole, list, i).remove(list[i].0.key);
    let b = rest_from(whole, list, i + 1);
    assert forall|k: ClaimKey| a.contains_key(k) == b.contains_key(k) by {
        if b.contains_key(k) {
            let j = choose|j: int| i + 1 <= j < list.len() && (#[trigger] list[j]).0.key == k;
            assert(list[i].0.before(list[j].0));
            if k == list[i].0.key {
                assert(list[i].0 == list[j].0);
                Standing::irreflexive(list[i].0);
            }
        }
    }
    assert(a =~= b);
}

proof fn rest_shrinks(
    whole: Map<ClaimKey, SignedModel>,
    list: Seq<(Standing, u128)>,
    i: int,
    j: int,
)
    requires
        i <= j,
    ensures
        rest_from(whole, list, j).submap_of(rest_from(whole, list, i)),
{
    let a = rest_from(whole, list, j);
    let b = rest_from(whole, list, i);
    assert forall|k: ClaimKey| a.dom().contains(k) implies #[trigger] b.dom().contains(k) && a[k]
        == b[k] by {
        let q = choose|q: int| j <= q < list.len() && (#[trigger] list[q]).0.key == k;
        assert(list[q].0.key == k);
    }
}

proof fn from_standing_is_rest(
    whole: Map<ClaimKey, SignedModel>,
    list: Seq<(Standing, u128)>,
    j: int,
)
    requires
        ranks(list, whole),
        0 <= j < list.len(),
        forall|k: ClaimKey|
            whole.contains_key(k) ==> exists|q: int|
                0 <= q < list.len() && (#[trigger] list[q]).0 == standing(whole, k),
    ensures
        from_standing(whole, list[j].0.key) == rest_from(whole, list, j),
{
    let k = list[j].0.key;
    let a = from_standing(whole, k);
    let b = rest_from(whole, list, j);
    assert forall|q: ClaimKey| a.contains_key(q) == b.contains_key(q) by {
        if whole.contains_key(q) {
            let x = choose|x: int|
                0 <= x < list.len() && (#[trigger] list[x]).0 == standing(whole, q);
            assert(list[x].0.key == q);
            if x < j {
                assert(list[x].0.before(list[j].0));
                if a.contains_key(q) {
                    if q == k {
                        Standing::irreflexive(list[j].0);
                    } else {
                        Standing::transitive(list[x].0, list[j].0, list[x].0);
                        Standing::irreflexive(list[x].0);
                    }
                }
                if b.contains_key(q) {
                    let y = choose|y: int| j <= y < list.len() && (#[trigger] list[y]).0.key == q;
                    assert(list[y].0 == list[x].0);
                    assert(list[x].0.before(list[y].0));
                    Standing::irreflexive(list[x].0);
                }
            } else {
                if x > j {
                    assert(list[j].0.before(list[x].0));
                }
            }
        }
    }
    assert(a =~= b);
}

// ---------------------------------------------------------------------------
// What a set of claims says
// ---------------------------------------------------------------------------

/// The claims that can be read, in the order of their keys.
pub open spec fn readable(list: Seq<(ClaimKey, SignedModel)>) -> Seq<BodyModel>
    decreases list.len(),
{
    if list.len() == 0 {
        Seq::empty()
    } else {
        let before = readable(list.drop_last());
        match body_from(list.last().1.body_cbor) {
            Ok(b) => before.push(b),
            Err(_) => before,
        }
    }
}

/// What an output adds to a total: where it is confirmed deep enough, or, of what is
/// still pending, where it is not.
pub open spec fn counted(s: OutpointStatus, tip: u32, min: u32, pending: bool) -> nat {
    match s {
        OutpointStatus::Confirmed { value_sats, anchor, .. } => if (depth(anchor.height, tip)
            >= min) != pending {
            value_sats as nat
        } else {
            0
        },
        OutpointStatus::Unconfirmed { value_sats } => if pending {
            value_sats as nat
        } else {
            0
        },
        OutpointStatus::Retracted => 0,
    }
}

/// What outputs come to.
pub open spec fn counted_total(
    m: Map<OutPoint, OutpointStatus>,
    tip: u32,
    min: u32,
    pending: bool,
) -> nat {
    map_sum(m, |op: OutPoint, s: OutpointStatus| counted(s, tip, min, pending))
}

/// As much of an amount as 64 bits hold.
pub open spec fn capped(n: nat) -> u64 {
    if n <= u64::MAX {
        n as u64
    } else {
        u64::MAX
    }
}

fn count_value(s: &OutpointStatus, tip: u32, min: u32, pending: bool) -> (r: u64)
    ensures
        r == counted(*s, tip, min, pending),
{
    match s {
        OutpointStatus::Confirmed { value_sats, anchor, .. } => {
            if (confirmations(anchor, tip) >= min) != pending {
                *value_sats
            } else {
                0
            }
        },
        OutpointStatus::Unconfirmed { value_sats } => {
            if pending {
                *value_sats
            } else {
                0
            }
        },
        OutpointStatus::Retracted => 0,
    }
}

fn count_total(
    m: &SortedMap<OutPoint, OutpointStatus>,
    tip: u32,
    min: u32,
    pending: bool,
) -> (r: u64)
    ensures
        r == capped(counted_total(m@, tip, min, pending)),
{
    let ghost f = |op: OutPoint, s: OutpointStatus| counted(s, tip, min, pending);
    let ghost list = m.list();
    let n: usize = m.len();
    let mut total: u64 = 0;
    for i in 0..n
        invariant
            f == (|op: OutPoint, s: OutpointStatus| counted(s, tip, min, pending)),
            list == m.list(),
            n == list.len(),
            total == capped(list_sum(list.take(i as int), f)),
    {
        let (op, s) = m.at(i);
        proof {
            assert(list[i as int] == (*op, *s));
            assert(list.take(i + 1).drop_last() =~= list.take(i as int));
            assert(list.take(i + 1).last() == list[i as int]);
        }
        total = total.saturating_add(count_value(s, tip, min, pending));
    }
    proof {
        assert(list.take(list.len() as int) =~= list);
        list_sum_is_map_sum(list, f);
    }
    total
}

/// Whether an outpoint is confirmed deep enough.
pub open spec fn qualifies(m: Map<OutPoint, OutpointStatus>, op: OutPoint, tip: u32, min: u32) -> bool {
    m.contains_key(op) && m[op] is Confirmed && depth(m[op]->Confirmed_anchor.height, tip) >= min
}

/// Whether a signed claim is about an outpoint that is confirmed deep enough.
pub open spec fn is_evidence(
    c: SignedModel,
    m: Map<OutPoint, OutpointStatus>,
    tip: u32,
    min: u32,
) -> bool {
    match body_from(c.body_cbor) {
        Ok(b) => match b.claim.outpoint() {
            Some(op) => qualifies(m, op, tip, min),
            None => false,
        },
        Err(_) => false,
    }
}

/// The signed claims about outpoints that are confirmed deep enough, in the order of
/// their keys.
pub open spec fn evidence(
    list: Seq<(ClaimKey, SignedModel)>,
    m: Map<OutPoint, OutpointStatus>,
    tip: u32,
    min: u32,
) -> Seq<SignedModel>
    decreases list.len(),
{
    if list.len() == 0 {
        Seq::empty()
    } else {
        let before = evidence(list.drop_last(), m, tip, min);
        if is_evidence(list.last().1, m, tip, min) {
            before.push(list.last().1)
        } else {
            before
        }
    }
}

pub open spec fn signed_models(v: Seq<SignedClaim>) -> Seq<SignedModel> {
    v.map_values(|c: SignedClaim| c@)
}

/// Whether each claim stands under its own digest.
pub open spec fn keyed_by_digest(list: Seq<(ClaimKey, SignedModel)>) -> bool {
    forall|i: int| 0 <= i < list.len() ==> (#[trigger] list[i]).0.0@ == claim_digest(list[i].1)
}

/// Whether `r` is the highest height that a watermark which can be read reports, or `None`
/// where none can be.
pub open spec fn reaches(scanned: Map<BridgeId, SignedModel>, r: Option<u32>) -> bool {
    match r {
        None => forall|b: BridgeId| #[trigger]
            scanned.contains_key(b) ==> body_from(scanned[b].body_cbor) is Err,
        Some(h) => {
            &&& exists|b: BridgeId| #[trigger]
                scanned.contains_key(b) && body_from(scanned[b].body_cbor) is Ok && height_of(
                    scanned[b],
                ) == h
            &&& forall|b: BridgeId| #[trigger]
                scanned.contains_key(b) && body_from(scanned[b].body_cbor) is Ok ==> height_of(
                    scanned[b],
                ) <= h
        },
    }
}

/// Digests that never fall.
pub open spec fn digests_rise(s: Seq<SignedModel>) -> bool {
    forall|i: int, j: int|
        0 <= i < j < s.len() ==> !lex_before(
            claim_digest(#[trigger] s[j]),
            claim_digest(#[trigger] s[i]),
        )
}

impl ClaimSetV1 {
    /// Every claim in the set that can be read.
    pub fn claim_bodies(&self) -> (r: Vec<ClaimBody>)
        ensures
            bodies(r@) == readable(self.claims.list()),
    {
        let ghost list = self.claims.list();
        let n: usize = self.claims.len();
        let mut r: Vec<ClaimBody> = Vec::new();
        assert(bodies(r@) =~= readable(list.take(0)));
        for i in 0..n
            invariant
                list == self.claims.list(),
                n == list.len(),
                bodies(r@) == readable(list.take(i as int)),
        {
            let (key, signed) = self.claims.at(i);
            proof {
                assert(list[i as int] == (*key, signed@));
                assert(list.take(i + 1).drop_last() =~= list.take(i as int));
                assert(list.take(i + 1).last() == list[i as int]);
            }
            let ghost was = bodies(r@);
            match signed.body() {
                Ok(b) => {
                    r.push(b);
                    assert(bodies(r@) =~= was.push(b@));
                },
                Err(_) => {},
            }
        }
        assert(list.take(list.len() as int) =~= list);
        r
    }

    /// The highest height any bridge reports having scanned to. `None` means that no
    /// bridge has reported, which is not the same as no payments.
    pub fn scanned_to(&self) -> (r: Option<u32>)
        ensures
            reaches(self@.scanned, r),
    {
        let ghost list = self.scanned.list();
        let n: usize = self.scanned.len();
        let mut best: Option<u32> = None;
        for i in 0..n
            invariant
                list == self.scanned.list(),
                n == list.len(),
                self.scanned.wf(),
                best is None <==> forall|j: int|
                    0 <= j < i ==> body_from((#[trigger] list[j]).1.body_cbor) is Err,
                best matches Some(h) ==> {
                    &&& exists|j: int|
                        0 <= j < i && body_from((#[trigger] list[j]).1.body_cbor) is Ok
                            && height_of(list[j].1) == h
                    &&& forall|j: int|
                        0 <= j < i && body_from((#[trigger] list[j]).1.body_cbor) is Ok
                            ==> height_of(list[j].1) <= h
                },
        {
            let (bridge, signed) = self.scanned.at(i);
            assert(list[i as int] == (*bridge, signed@));
            match signed.body() {
                Ok(b) => {
                    let higher = match best {
                        Some(h) => b.as_of.height > h,
                        None => true,
                    };
                    if higher {
                        best = Some(b.as_of.height);
                        assert(body_from(list[i as int].1.body_cbor) is Ok && height_of(
                            list[i as int].1,
                        ) == b.as_of.height);
                    }
                },
                Err(_) => {},
            }
        }
        proof {
            let m = self@.scanned;
            if best is None {
                assert forall|b: BridgeId| #[trigger] m.contains_key(b) implies body_from(
                    m[b].body_cbor,
                ) is Err by {
                    let j = choose|j: int| 0 <= j < list.len() && (#[trigger] list[j]).0 == b;
                    assert(m[list[j].0] == list[j].1);
                }
            } else {
                let h = best->Some_0;
                let j = choose|j: int|
                    0 <= j < list.len() && body_from((#[trigger] list[j]).1.body_cbor) is Ok
                        && height_of(list[j].1) == h;
                assert(m.contains_key(list[j].0) && m[list[j].0] == list[j].1);
                assert forall|b: BridgeId| #[trigger]
                    m.contains_key(b) && body_from(m[b].body_cbor) is Ok implies height_of(m[b])
                    <= h by {
                    let q = choose|q: int| 0 <= q < list.len() && (#[trigger] list[q]).0 == b;
                    assert(m[list[q].0] == list[q].1);
                }
            }
        }
        best
    }

    /// Current status of every outpoint the bridges have told us about.
    pub fn outpoint_statuses(&self) -> (r: SortedMap<OutPoint, OutpointStatus>)
        ensures
            r@ == statuses(readable(self.claims.list())),
            r.wf(),
    {
        let all = self.claim_bodies();
        fold_claims_by_outpoint(&all)
    }

    /// Total value confirmed to this script with at least `min_confirmations` against
    /// `tip_height`, as far as 64 bits hold it.
    pub fn confirmed_value_sats(&self, tip_height: u32, min_confirmations: u32) -> (r: u64)
        ensures
            r == capped(
                counted_total(
                    statuses(readable(self.claims.list())),
                    tip_height,
                    min_confirmations,
                    false,
                ),
            ),
    {
        count_total(&self.outpoint_statuses(), tip_height, min_confirmations, false)
    }

    /// Value seen but not yet confirmed to the required depth, as far as 64 bits hold it.
    pub fn pending_value_sats(&self, tip_height: u32, min_confirmations: u32) -> (r: u64)
        ensures
            r == capped(
                counted_total(
                    statuses(readable(self.claims.list())),
                    tip_height,
                    min_confirmations,
                    true,
                ),
            ),
    {
        count_total(&self.outpoint_statuses(), tip_height, min_confirmations, true)
    }

    /// The signed claims that prove a payment of at least `min_sats` with at least
    /// `min_confirmations`, or `None` if the set proves none.
    ///
    /// Every claim about an outpoint that counts is handed over, so that whoever checks
    /// them reaches the same conclusion.
    pub fn payment_evidence(
        &self,
        min_sats: u64,
        tip_height: u32,
        min_confirmations: u32,
    ) -> (r: Option<Vec<SignedClaim>>)
        ensures
            ({
                let m = statuses(readable(self.claims.list()));
                let all = evidence(self.claims.list(), m, tip_height, min_confirmations);
                &&& r is Some <==> counted_total(m, tip_height, min_confirmations, false)
                    >= min_sats
                &&& r matches Some(v) ==> {
                    &&& signed_models(v@).to_multiset() == all.to_multiset()
                    &&& digests_rise(signed_models(v@))
                    &&& keyed_by_digest(self.claims.list()) ==> signed_models(v@) == all
                }
            }),
    {
        let found = self.outpoint_statuses();
        let total: u64 = count_total(&found, tip_height, min_confirmations, false);
        if total < min_sats {
            return None;
        }
        let ghost list = self.claims.list();
        let ghost m = found@;
        let ghost keyed = keyed_by_digest(list);
        let n: usize = self.claims.len();
        let mut shown: Vec<SignedClaim> = Vec::new();
        proof {
            assert(signed_models(shown@) =~= Seq::<SignedModel>::empty());
        }
        for i in 0..n
            invariant
                list == self.claims.list(),
                self.claims.wf(),
                n == list.len(),
                m == found@,
                keyed == keyed_by_digest(list),
                signed_models(shown@).to_multiset() == evidence(
                    list.take(i as int),
                    m,
                    tip_height,
                    min_confirmations,
                ).to_multiset(),
                digests_rise(signed_models(shown@)),
                keyed ==> signed_models(shown@) == evidence(
                    list.take(i as int),
                    m,
                    tip_height,
                    min_confirmations,
                ),
                keyed ==> forall|j: int|
                    0 <= j < shown@.len() ==> exists|q: int|
                        0 <= q < i && (#[trigger] list[q]).1 == #[trigger] signed_models(shown@)[j],
        {
            let (key, signed) = self.claims.at(i);
            proof {
                assert(list[i as int] == (*key, signed@));
                assert(list.take(i + 1).drop_last() =~= list.take(i as int));
                assert(list.take(i + 1).last() == list[i as int]);
            }
            if Self::counts(signed, &found, tip_height, min_confirmations) {
                let ghost was = signed_models(shown@);
                let ghost before = evidence(
                    list.take(i as int),
                    m,
                    tip_height,
                    min_confirmations,
                );
                let at: usize = slot(&shown, signed);
                proof {
                    if keyed {
                        assert forall|j: int| 0 <= j < was.len() implies lex_before(
                            claim_digest(#[trigger] was[j]),
                            claim_digest(signed@),
                        ) by {
                            let q = choose|q: int| 0 <= q < i && (#[trigger] list[q]).1 == was[j];
                            assert(list[q].0.before(list[i as int].0));
                        }
                        if at < was.len() {
                            lex_transitive(
                                claim_digest(was[at as int]),
                                claim_digest(signed@),
                                claim_digest(was[at as int]),
                            );
                            lex_irreflexive(claim_digest(was[at as int]));
                        }
                        assert(at == was.len());
                    }
                }
                shown.insert(at, signed.copied());
                proof {
                    let now = signed_models(shown@);
                    assert(now =~= was.insert(at as int, signed@));
                    insert_counts(was, at as int, signed@);
                    push_counts(before, signed@);
                    if keyed {
                        assert(now =~= was.push(signed@));
                        assert forall|j: int| 0 <= j < now.len() implies exists|q: int|
                            0 <= q < i + 1 && (#[trigger] list[q]).1 == #[trigger] now[j] by {
                            if j < was.len() {
                                let q = choose|q: int|
                                    0 <= q < i && (#[trigger] list[q]).1 == was[j];
                                assert(list[q].1 == now[j]);
                            } else {
                                assert(list[i as int].1 == now[j]);
                            }
                        }
                    }
                }
            }
        }
        assert(list.take(list.len() as int) =~= list);
        Some(shown)
    }

    /// Whether a claim is about an outpoint that is confirmed deep enough.
    fn counts(
        signed: &SignedClaim,
        found: &SortedMap<OutPoint, OutpointStatus>,
        tip_height: u32,
        min_confirmations: u32,
    ) -> (r: bool)
        ensures
            r == is_evidence(signed@, found@, tip_height, min_confirmations),
    {
        match signed.body() {
            Ok(b) => match b.claim.outpoint() {
                Some(op) => match found.get(&op) {
                    Some(OutpointStatus::Confirmed { anchor, .. }) => confirmations(
                        anchor,
                        tip_height,
                    ) >= min_confirmations,
                    _ => false,
                },
                None => false,
            },
            Err(_) => false,
        }
    }
}

/// Where a claim goes among claims whose digests never fall: behind all that are not
/// above it.
fn slot(sorted: &Vec<SignedClaim>, c: &SignedClaim) -> (r: usize)
    requires
        digests_rise(signed_models(sorted@)),
    ensures
        r <= sorted@.len(),
        digests_rise(signed_models(sorted@).insert(r as int, c@)),
        r < sorted@.len() ==> lex_before(claim_digest(c@), claim_digest(sorted@[r as int]@)),
{
    let ghost s = signed_models(sorted@);
    let d = c.digest();
    let mut i: usize = sorted.len();
    while i > 0 && comes_before(&d, &sorted[i - 1].digest())
        invariant
            s == signed_models(sorted@),
            d@ == claim_digest(c@),
            digests_rise(s),
            i <= s.len(),
            forall|j: int| i <= j < s.len() ==> lex_before(d@, claim_digest(#[trigger] s[j])),
        decreases i,
    {
        assert(s[i - 1] == sorted@[i - 1]@);
        i = i - 1;
    }
    proof {
        let t = s.insert(i as int, c@);
        assert(i > 0 ==> s[i - 1] == sorted@[i - 1]@);
        assert(i < s.len() ==> s[i as int] == sorted@[i as int]@);
        assert forall|a: int, b: int| 0 <= a < b < t.len() implies !lex_before(
            claim_digest(#[trigger] t[b]),
            claim_digest(#[trigger] t[a]),
        ) by {
            let x = claim_digest(t[a]);
            let y = claim_digest(t[b]);
            if lex_before(y, x) {
                if b < i {
                    assert(!lex_before(claim_digest(s[b]), claim_digest(s[a])));
                } else if b == i {
                    // `a` stands before the slot, so it is not above the claim.
                    if a < i - 1 {
                        assert(!lex_before(claim_digest(s[i - 1]), claim_digest(s[a])));
                        lex_total(claim_digest(s[i - 1]), claim_digest(s[a]));
                        if claim_digest(s[a]) != claim_digest(s[i - 1]) {
                            lex_transitive(y, x, claim_digest(s[i - 1]));
                        }
                    }
                } else if a < i {
                    assert(!lex_before(claim_digest(s[b - 1]), claim_digest(s[a])));
                } else if a == i {
                    assert(lex_before(d@, claim_digest(s[b - 1])));
                    lex_transitive(y, x, y);
                    lex_irreflexive(y);
                } else {
                    assert(!lex_before(claim_digest(s[b - 1]), claim_digest(s[a - 1])));
                }
            }
        }
    }
    i
}

// ---------------------------------------------------------------------------
// Exchange with peers
// ---------------------------------------------------------------------------

/// A constant-size summary of a set: one digest for each bucket of claims, and one
/// height for each bridge.
#[derive(PartialEq, Debug)]
pub struct ClaimSetSummary {
    pub claims: BucketDigest,
    pub scanned: SortedMap<BridgeId, u32>,
}

impl Default for ClaimSetSummary {
    fn default() -> (r: Self)
        ensures
            r.claims.0@ == blank(),
            r.scanned@ == Map::<BridgeId, u32>::empty(),
    {
        ClaimSetSummary { claims: BucketDigest::default(), scanned: SortedMap::new() }
    }
}

impl Clone for ClaimSetSummary {
    fn clone(&self) -> (r: Self)
        ensures
            r.claims == self.claims,
            r.scanned@ == self.scanned@,
    {
        ClaimSetSummary { claims: self.claims, scanned: self.scanned.clone() }
    }
}

/// A delta: whole buckets of claims, and the watermarks that are ahead.
#[derive(PartialEq, Debug)]
pub struct ClaimSetDelta {
    pub claims: Vec<SignedClaim>,
    pub scanned: Vec<SignedClaim>,
}

impl Default for ClaimSetDelta {
    fn default() -> (r: Self)
        ensures
            r.claims@.len() == 0,
            r.scanned@.len() == 0,
    {
        ClaimSetDelta { claims: Vec::new(), scanned: Vec::new() }
    }
}

impl ClaimSetDelta {
    pub fn is_empty(&self) -> (r: bool)
        ensures
            r == (self.claims@.len() == 0 && self.scanned@.len() == 0),
    {
        self.claims.is_empty() && self.scanned.is_empty()
    }

    /// Everything a delta carries, the claims before the watermarks.
    pub open spec fn all(self) -> Seq<SignedModel> {
        signed_models(self.claims@) + signed_models(self.scanned@)
    }
}

/// The keys of a list of claims.
pub open spec fn keys_of(list: Seq<(ClaimKey, SignedModel)>) -> Seq<[u8; 32]> {
    list.map_values(|e: (ClaimKey, SignedModel)| e.0.0)
}

/// The height of each bridge's watermark.
pub open spec fn heights(m: Map<BridgeId, SignedModel>) -> Map<BridgeId, u32> {
    m.map_values(|c: SignedModel| height_of(c))
}

/// The claims in buckets where `mine` and `theirs` disagree, in the order of their keys.
pub open spec fn claims_to_send(
    list: Seq<(ClaimKey, SignedModel)>,
    mine: Seq<u64>,
    theirs: Seq<u64>,
) -> Seq<SignedModel>
    decreases list.len(),
{
    if list.len() == 0 {
        Seq::empty()
    } else {
        let before = claims_to_send(list.drop_last(), mine, theirs);
        let at = bucket(list.last().0.0);
        if mine[at] != theirs[at] {
            before.push(list.last().1)
        } else {
            before
        }
    }
}

/// Whether a watermark is ahead of what a peer has.
pub open spec fn ahead(bridge: BridgeId, c: SignedModel, theirs: Map<BridgeId, u32>) -> bool {
    !theirs.contains_key(bridge) || height_of(c) > theirs[bridge]
}

/// The watermarks that are ahead of what a peer has, in the order of their bridges.
pub open spec fn watermarks_to_send(
    list: Seq<(BridgeId, SignedModel)>,
    theirs: Map<BridgeId, u32>,
) -> Seq<SignedModel>
    decreases list.len(),
{
    if list.len() == 0 {
        Seq::empty()
    } else {
        let before = watermarks_to_send(list.drop_last(), theirs);
        if ahead(list.last().0, list.last().1, theirs) {
            before.push(list.last().1)
        } else {
            before
        }
    }
}

/// Why claims from the `i`th on make a state invalid.
pub open spec fn claims_fault(
    list: Seq<(ClaimKey, SignedModel)>,
    i: int,
    p: ParamsModel,
) -> Option<Seq<char>>
    decreases list.len() - i,
{
    if i >= list.len() {
        None
    } else {
        match claim_verdict(list[i].1, p) {
            Err(e) => Some(e),
            Ok(body) => if list[i].0.0@ != claim_digest(list[i].1) {
                Some("claim is filed under a key that is not its digest"@)
            } else if body.claim is ScannedTo {
                Some("a ScannedTo watermark must live in `scanned`"@)
            } else {
                claims_fault(list, i + 1, p)
            },
        }
    }
}

/// Why watermarks from the `i`th on make a state invalid.
pub open spec fn watermarks_fault(
    list: Seq<(BridgeId, SignedModel)>,
    i: int,
    p: ParamsModel,
) -> Option<Seq<char>>
    decreases list.len() - i,
{
    if i >= list.len() {
        None
    } else {
        match claim_verdict(list[i].1, p) {
            Err(e) => Some(e),
            Ok(body) => if !(body.claim is ScannedTo) {
                Some("`scanned` may only hold ScannedTo watermarks"@)
            } else if list[i].0 != list[i].1.bridge {
                Some("scan watermark filed under another bridge's key"@)
            } else {
                watermarks_fault(list, i + 1, p)
            },
        }
    }
}

/// Why a state is invalid, if it is.
pub open spec fn set_fault(
    claims: Seq<(ClaimKey, SignedModel)>,
    scanned: Seq<(BridgeId, SignedModel)>,
    p: ParamsModel,
) -> Option<Seq<char>> {
    if claims.len() > MAX_CLAIMS {
        Some("claim set holds "@ + decimal_text(claims.len()) + " entries, cap is 512"@)
    } else if weight(map_of(claims)) > MAX_CLAIM_BYTES {
        Some("claim set is "@ + decimal_text(weight(map_of(claims))) + " bytes, budget is 262144"@)
    } else {
        match claims_fault(claims, 0, p) {
            Some(e) => Some(e),
            None => watermarks_fault(scanned, 0, p),
        }
    }
}

/// A set after signed claims have been checked and inserted one by one, and the fault
/// of the first that did not verify, at which it stops.
pub open spec fn absorbed(s: SetModel, cs: Seq<SignedModel>, p: ParamsModel) -> (
    SetModel,
    Option<Seq<char>>,
)
    decreases cs.len(),
{
    if cs.len() == 0 {
        (s, None)
    } else {
        let (before, fault) = absorbed(s, cs.drop_last(), p);
        match fault {
            Some(e) => (before, Some(e)),
            None => match claim_verdict(cs.last(), p) {
                Err(e) => (before, Some(e)),
                Ok(body) => (inserted(before, cs.last(), body), None),
            },
        }
    }
}

/// The set after a delta: pruned to what fits, unless a claim did not verify.
pub open spec fn updated(s: SetModel, cs: Seq<SignedModel>, p: ParamsModel) -> (
    SetModel,
    Option<Seq<char>>,
) {
    let (after, fault) = absorbed(s, cs, p);
    match fault {
        Some(e) => (after, Some(e)),
        None => (SetModel { claims: kept(after.claims), scanned: after.scanned }, None),
    }
}

/// What a replica with the claims `mine` and the watermarks `my_marks` lacks of another.
pub open spec fn lacking(
    mine: Seq<(ClaimKey, SignedModel)>,
    my_marks: Map<BridgeId, SignedModel>,
    theirs: Seq<(ClaimKey, SignedModel)>,
    their_marks: Seq<(BridgeId, SignedModel)>,
) -> Seq<SignedModel> {
    claims_to_send(theirs, digest_of(keys_of(theirs)), digest_of(keys_of(mine)))
        + watermarks_to_send(their_marks, heights(my_marks))
}

/// A replica after it has merged another.
pub open spec fn merged(
    mine: Seq<(ClaimKey, SignedModel)>,
    my_marks: Map<BridgeId, SignedModel>,
    theirs: Seq<(ClaimKey, SignedModel)>,
    their_marks: Seq<(BridgeId, SignedModel)>,
    p: ParamsModel,
) -> (SetModel, Option<Seq<char>>) {
    let a = SetModel { claims: map_of(mine), scanned: my_marks };
    let sent = lacking(mine, my_marks, theirs, their_marks);
    if sent.len() == 0 {
        (a, None)
    } else {
        updated(a, sent, p)
    }
}

/// A fault stops everything behind it.
proof fn fault_stops(s: SetModel, cs: Seq<SignedModel>, i: int, p: ParamsModel)
    requires
        0 <= i <= cs.len(),
        absorbed(s, cs.take(i), p).1 is Some,
    ensures
        absorbed(s, cs, p) == absorbed(s, cs.take(i), p),
    decreases cs.len() - i,
{
    if i < cs.len() {
        assert(cs.take(i + 1).drop_last() =~= cs.take(i));
        fault_stops(s, cs, i + 1, p);
    } else {
        assert(cs.take(i) =~= cs);
    }
}

/// Absorbing one list after another absorbs both, unless the first has a fault.
pub proof fn absorbed_in_parts(s: SetModel, a: Seq<SignedModel>, b: Seq<SignedModel>, p: ParamsModel)
    ensures
        absorbed(s, a + b, p) == (match absorbed(s, a, p).1 {
            Some(e) => (absorbed(s, a, p).0, Some(e)),
            None => absorbed(absorbed(s, a, p).0, b, p),
        }),
    decreases b.len(),
{
    if b.len() == 0 {
        assert(a + b =~= a);
    } else {
        assert((a + b).drop_last() =~= a + b.drop_last());
        assert((a + b).last() == b.last());
        absorbed_in_parts(s, a, b.drop_last(), p);
    }
}

impl ClaimSetV1 {
    /// Whether this is a state that a contract may hold.
    pub fn verify(&self, params: &BitcoinAddressParameters) -> (r: Result<(), String>)
        ensures
            match r {
                Ok(_) => set_fault(self.claims.list(), self.scanned.list(), params@) is None,
                Err(e) => set_fault(self.claims.list(), self.scanned.list(), params@) == Some(e@),
            },
    {
        let ghost claims = self.claims.list();
        let ghost scanned = self.scanned.list();
        let n: usize = self.claims.len();
        if n > MAX_CLAIMS {
            return Err(join3("claim set holds ", &decimal(n as u64), " entries, cap is 512"));
        }
        let bytes: u128 = self.size();
        if bytes > MAX_CLAIM_BYTES as u128 {
            return Err(
                join3("claim set is ", &wide_decimal(bytes), " bytes, budget is 262144"),
            );
        }
        for i in 0..n
            invariant
                claims == self.claims.list(),
                scanned == self.scanned.list(),
                n == claims.len(),
                set_fault(claims, scanned, params@) == (match claims_fault(
                    claims,
                    i as int,
                    params@,
                ) {
                    Some(e) => Some(e),
                    None => watermarks_fault(scanned, 0, params@),
                }),
        {
            let (key, signed) = self.claims.at(i);
            assert(claims[i as int] == (*key, signed@));
            let body = match signed.verify(params) {
                Err(e) => {
                    return Err(e);
                },
                Ok(body) => body,
            };
            let digest = signed.digest();
            if !same32(&key.0, &digest) {
                return Err("claim is filed under a key that is not its digest".to_owned());
            }
            if body.claim.is_watermark() {
                return Err("a ScannedTo watermark must live in `scanned`".to_owned());
            }
        }
        let m: usize = self.scanned.len();
        for i in 0..m
            invariant
                claims == self.claims.list(),
                scanned == self.scanned.list(),
                m == scanned.len(),
                set_fault(claims, scanned, params@) == watermarks_fault(
                    scanned,
                    i as int,
                    params@,
                ),
        {
            let (bridge, signed) = self.scanned.at(i);
            assert(scanned[i as int] == (*bridge, signed@));
            let body = match signed.verify(params) {
                Err(e) => {
                    return Err(e);
                },
                Ok(body) => body,
            };
            if !body.claim.is_watermark() {
                return Err("`scanned` may only hold ScannedTo watermarks".to_owned());
            }
            if !same32(&bridge.0, &signed.bridge.0) {
                return Err("scan watermark filed under another bridge's key".to_owned());
            }
        }
        Ok(())
    }

    /// The digest of the keys of the claims.
    fn key_digest(&self) -> (r: BucketDigest)
        ensures
            r.0@ == digest_of(keys_of(self.claims.list())),
    {
        let ghost list = self.claims.list();
        let n: usize = self.claims.len();
        let mut keys: Vec<[u8; 32]> = Vec::new();
        for i in 0..n
            invariant
                list == self.claims.list(),
                n == list.len(),
                keys@.len() == i,
                forall|j: int| 0 <= j < i ==> keys@[j] == (#[trigger] list[j]).0.0,
        {
            keys.push(self.claims.at(i).0.0);
        }
        assert(keys@ =~= keys_of(list));
        BucketDigest::from_keys(&keys)
    }

    /// Summarize the set for a peer.
    pub fn summarize(&self) -> (r: ClaimSetSummary)
        ensures
            r.claims.0@ == digest_of(keys_of(self.claims.list())),
            r.scanned@ == heights(self@.scanned),
    {
        let ghost list = self.scanned.list();
        let n: usize = self.scanned.len();
        let mut scanned: SortedMap<BridgeId, u32> = SortedMap::new();
        for i in 0..n
            invariant
                list == self.scanned.list(),
                n == list.len(),
                self.scanned.wf(),
                forall|b: BridgeId| #[trigger]
                    scanned@.contains_key(b) <==> exists|j: int|
                        0 <= j < i && (#[trigger] list[j]).0 == b,
                forall|b: BridgeId| #[trigger]
                    scanned@.contains_key(b) ==> self@.scanned.contains_key(b) && scanned@[b]
                        == height_of(self@.scanned[b]),
        {
            let (bridge, signed) = self.scanned.at(i);
            assert(list[i as int] == (*bridge, signed@));
            let ghost was = scanned@;
            scanned.insert(*bridge, claim_height(signed));
            assert forall|b: BridgeId| #[trigger] scanned@.contains_key(b) <==> exists|j: int|
                0 <= j < i + 1 && (#[trigger] list[j]).0 == b by {
                assert(was.contains_key(b) <==> exists|j: int|
                    0 <= j < i && (#[trigger] list[j]).0 == b);
                if b == *bridge {
                    assert(list[i as int].0 == b);
                }
            }
        }
        assert(scanned@ =~= heights(self@.scanned));
        ClaimSetSummary { claims: self.key_digest(), scanned }
    }

    /// What a peer with this summary lacks, or `None` if nothing. A bucket whose digest
    /// differs is sent whole, which is harmless because applying a claim that is already
    /// held changes nothing.
    pub fn delta(&self, old: &ClaimSetSummary) -> (r: Option<ClaimSetDelta>)
        ensures
            ({
                let claims = claims_to_send(
                    self.claims.list(),
                    digest_of(keys_of(self.claims.list())),
                    old.claims.0@,
                );
                let scanned = watermarks_to_send(self.scanned.list(), old.scanned@);
                &&& r is None <==> claims.len() == 0 && scanned.len() == 0
                &&& r matches Some(d) ==> signed_models(d.claims@) == claims && signed_models(
                    d.scanned@,
                ) == scanned
            }),
    {
        let mine = self.key_digest();
        let ghost claims_list = self.claims.list();
        let ghost scanned_list = self.scanned.list();
        let n: usize = self.claims.len();
        let mut claims: Vec<SignedClaim> = Vec::new();
        assert(signed_models(claims@) =~= Seq::<SignedModel>::empty());
        for i in 0..n
            invariant
                claims_list == self.claims.list(),
                n == claims_list.len(),
                signed_models(claims@) == claims_to_send(
                    claims_list.take(i as int),
                    mine.0@,
                    old.claims.0@,
                ),
        {
            let (key, signed) = self.claims.at(i);
            proof {
                assert(claims_list[i as int] == (*key, signed@));
                assert(claims_list.take(i + 1).drop_last() =~= claims_list.take(i as int));
                assert(claims_list.take(i + 1).last() == claims_list[i as int]);
            }
            let at: usize = BucketDigest::bucket_of(&key.0);
            if mine.0[at] != old.claims.0[at] {
                let ghost was = signed_models(claims@);
                claims.push(signed.copied());
                assert(signed_models(claims@) =~= was.push(signed@));
            }
        }
        let m: usize = self.scanned.len();
        let mut scanned: Vec<SignedClaim> = Vec::new();
        assert(signed_models(scanned@) =~= Seq::<SignedModel>::empty());
        for i in 0..m
            invariant
                scanned_list == self.scanned.list(),
                m == scanned_list.len(),
                signed_models(scanned@) == watermarks_to_send(
                    scanned_list.take(i as int),
                    old.scanned@,
                ),
        {
            let (bridge, signed) = self.scanned.at(i);
            proof {
                assert(scanned_list[i as int] == (*bridge, signed@));
                assert(scanned_list.take(i + 1).drop_last() =~= scanned_list.take(i as int));
                assert(scanned_list.take(i + 1).last() == scanned_list[i as int]);
            }
            let send = match old.scanned.get(bridge) {
                Some(theirs) => claim_height(signed) > *theirs,
                None => true,
            };
            if send {
                let ghost was = signed_models(scanned@);
                scanned.push(signed.copied());
                assert(signed_models(scanned@) =~= was.push(signed@));
            }
        }
        assert(claims_list.take(claims_list.len() as int) =~= claims_list);
        assert(scanned_list.take(scanned_list.len() as int) =~= scanned_list);
        if claims.is_empty() && scanned.is_empty() {
            None
        } else {
            Some(ClaimSetDelta { claims, scanned })
        }
    }

    /// Verify and insert one claim.
    fn absorb(&mut self, signed: &SignedClaim, params: &BitcoinAddressParameters) -> (r: Result<
        (),
        String,
    >)
        ensures
            match r {
                Ok(_) => claim_verdict(signed@, params@) is Ok && final(self)@ == inserted(
                    old(self)@,
                    signed@,
                    claim_verdict(signed@, params@)->Ok_0,
                ),
                Err(e) => claim_verdict(signed@, params@) is Err && claim_verdict(
                    signed@,
                    params@,
                )->Err_0 == e@ && *final(self) == *old(self),
            },
    {
        match signed.verify(params) {
            Err(e) => Err(e),
            Ok(body) => {
                self.insert_verified(signed.copied(), &body);
                Ok(())
            },
        }
    }

    /// Verify and insert claims one by one, up to the first that does not verify.
    fn absorb_all(
        &mut self,
        claims: &Vec<SignedClaim>,
        params: &BitcoinAddressParameters,
    ) -> (r: Result<(), String>)
        ensures
            ({
                let (after, fault) = absorbed(old(self)@, signed_models(claims@), params@);
                &&& final(self)@ == after
                &&& match r {
                    Ok(_) => fault is None,
                    Err(e) => fault == Some(e@),
                }
            }),
    {
        let ghost start = self@;
        let ghost all = signed_models(claims@);
        let n: usize = claims.len();
        assert(all.take(0) =~= Seq::<SignedModel>::empty());
        for i in 0..n
            invariant
                n == claims@.len(),
                start == old(self)@,
                all == signed_models(claims@),
                absorbed(start, all.take(i as int), params@).0 == self@,
                absorbed(start, all.take(i as int), params@).1 is None,
        {
            proof {
                assert(all.take(i + 1).drop_last() =~= all.take(i as int));
                assert(all.take(i + 1).last() == claims@[i as int]@);
            }
            match self.absorb(&claims[i], params) {
                Err(e) => {
                    proof {
                        fault_stops(start, all, i + 1, params@);
                    }
                    return Err(e);
                },
                Ok(_) => {},
            }
        }
        assert(all.take(n as int) =~= all);
        Ok(())
    }

    /// Apply a delta from a peer. Each claim is verified before it is inserted; the first
    /// that does not verify ends it, with what came before it in place.
    pub fn apply_delta(
        &mut self,
        params: &BitcoinAddressParameters,
        delta: &Option<ClaimSetDelta>,
    ) -> (r: Result<(), String>)
        ensures
            delta is None ==> r is Ok && *final(self) == *old(self),
            delta matches Some(d) ==> {
                let (after, fault) = updated(old(self)@, d.all(), params@);
                &&& final(self)@ == after
                &&& match r {
                    Ok(_) => fault is None,
                    Err(e) => fault == Some(e@),
                }
            },
    {
        let d = match delta {
            None => {
                return Ok(());
            },
            Some(d) => d,
        };
        proof {
            absorbed_in_parts(
                self@,
                signed_models(d.claims@),
                signed_models(d.scanned@),
                params@,
            );
        }
        match self.absorb_all(&d.claims, params) {
            Err(e) => {
                return Err(e);
            },
            Ok(_) => {},
        }
        match self.absorb_all(&d.scanned, params) {
            Err(e) => {
                return Err(e);
            },
            Ok(_) => {},
        }
        let ghost before = self@;
        self.enforce_cap();
        assert(self@ =~= SetModel { claims: kept(before.claims), scanned: before.scanned });
        Ok(())
    }

    /// Take over what another state has that this one lacks.
    pub fn merge(&mut self, params: &BitcoinAddressParameters, other: &ClaimSetV1) -> (r: Result<
        (),
        String,
    >)
        ensures
            ({
                let (after, fault) = merged(
                    old(self).claims.list(),
                    old(self)@.scanned,
                    other.claims.list(),
                    other.scanned.list(),
                    params@,
                );
                &&& final(self)@ == after
                &&& match r {
                    Ok(_) => fault is None,
                    Err(e) => fault == Some(e@),
                }
            }),
    {
        let summary = self.summarize();
        let delta = other.delta(&summary);
        self.apply_delta(params, &delta)
    }
}

/// Top-level state of an address contract.
#[derive(PartialEq, Debug)]
pub struct BitcoinAddressStateV1 {
    pub claims: ClaimSetV1,
}

impl Default for BitcoinAddressStateV1 {
    fn default() -> (r: Self)
        ensures
            r.claims@.claims == Map::<ClaimKey, SignedModel>::empty(),
            r.claims@.scanned == Map::<BridgeId, SignedModel>::empty(),
            r.claims.claims.list().len() == 0,
            r.claims.scanned.list().len() == 0,
    {
        BitcoinAddressStateV1 { claims: ClaimSetV1::default() }
    }
}

impl Clone for BitcoinAddressStateV1 {
    fn clone(&self) -> (r: Self)
        ensures
            r.claims@ == self.claims@,
            r.claims.claims.list() == self.claims.claims.list(),
            r.claims.scanned.list() == self.claims.scanned.list(),
    {
        BitcoinAddressStateV1 { claims: self.claims.clone() }
    }
}

/// The set that holds nothing.
pub open spec fn empty_set() -> SetModel {
    SetModel { claims: Map::empty(), scanned: Map::empty() }
}

impl BitcoinAddressStateV1 {
    /// Build a state from claims, verifying each.
    pub fn from_claims(params: &BitcoinAddressParameters, claims: Vec<SignedClaim>) -> (r: Result<
        Self,
        String,
    >)
        ensures
            ({
                let (after, fault) = updated(empty_set(), signed_models(claims@), params@);
                match r {
                    Ok(s) => fault is None && s.claims@ == after,
                    Err(e) => fault == Some(e@),
                }
            }),
    {
        let mut s = ClaimSetV1::default();
        assert(s@ =~= empty_set());
        match s.absorb_all(&claims, params) {
            Err(e) => {
                return Err(e);
            },
            Ok(_) => {},
        }
        let ghost before = s@;
        s.enforce_cap();
        assert(s@ =~= SetModel { claims: kept(before.claims), scanned: before.scanned });
        Ok(BitcoinAddressStateV1 { claims: s })
    }

    /// The height the bridges say they have scanned to for this script.
    pub fn scanned_to(&self) -> (r: Option<u32>)
        ensures
            reaches(self.claims@.scanned, r),
    {
        self.claims.scanned_to()
    }
}

/// The summary of a whole state.
#[derive(PartialEq, Debug)]
pub struct BitcoinAddressStateV1Summary {
    pub claims: ClaimSetSummary,
}

/// What a peer lacks of a whole state.
#[derive(PartialEq, Debug)]
pub struct BitcoinAddressStateV1Delta {
    pub claims: Option<ClaimSetDelta>,
}

impl BitcoinAddressStateV1 {
    /// Whether this is a state that a contract may hold.
    pub fn verify(&self, params: &BitcoinAddressParameters) -> (r: Result<(), String>)
        ensures
            match r {
                Ok(_) => set_fault(
                    self.claims.claims.list(),
                    self.claims.scanned.list(),
                    params@,
                ) is None,
                Err(e) => set_fault(
                    self.claims.claims.list(),
                    self.claims.scanned.list(),
                    params@,
                ) == Some(e@),
            },
    {
        self.claims.verify(params)
    }

    /// Summarize the state for a peer.
    pub fn summarize(&self) -> (r: BitcoinAddressStateV1Summary)
        ensures
            r.claims.claims.0@ == digest_of(keys_of(self.claims.claims.list())),
            r.claims.scanned@ == heights(self.claims@.scanned),
    {
        BitcoinAddressStateV1Summary { claims: self.claims.summarize() }
    }

    /// What a peer with this summary lacks, or `None` if nothing.
    pub fn delta(&self, old: &BitcoinAddressStateV1Summary) -> (r: Option<
        BitcoinAddressStateV1Delta,
    >)
        ensures
            ({
                let claims = claims_to_send(
                    self.claims.claims.list(),
                    digest_of(keys_of(self.claims.claims.list())),
                    old.claims.claims.0@,
                );
                let scanned = watermarks_to_send(
                    self.claims.scanned.list(),
                    old.claims.scanned@,
                );
                &&& r is None <==> claims.len() == 0 && scanned.len() == 0
                &&& r matches Some(d) ==> d.claims is Some && signed_models(
                    d.claims->Some_0.claims@,
                ) == claims && signed_models(d.claims->Some_0.scanned@) == scanned
            }),
    {
        match self.claims.delta(&old.claims) {
            Some(d) => Some(BitcoinAddressStateV1Delta { claims: Some(d) }),
            None => None,
        }
    }

    /// Apply a delta from a peer.
    pub fn apply_delta(
        &mut self,
        params: &BitcoinAddressParameters,
        delta: &Option<BitcoinAddressStateV1Delta>,
    ) -> (r: Result<(), String>)
        ensures
            match *delta {
                Some(BitcoinAddressStateV1Delta { claims: Some(d) }) => {
                    let (after, fault) = updated(old(self).claims@, d.all(), params@);
                    &&& final(self).claims@ == after
                    &&& match r {
                        Ok(_) => fault is None,
                        Err(e) => fault == Some(e@),
                    }
                },
                _ => r is Ok && *final(self) == *old(self),
            },
    {
        match delta {
            Some(d) => self.claims.apply_delta(params, &d.claims),
            None => Ok(()),
        }
    }

    /// Take over what another state has that this one lacks.
    pub fn merge(
        &mut self,
        params: &BitcoinAddressParameters,
        other: &BitcoinAddressStateV1,
    ) -> (r: Result<(), String>)
        ensures
            ({
                let (after, fault) = merged(
                    old(self).claims.claims.list(),
                    old(self).claims@.scanned,
                    other.claims.claims.list(),
                    other.claims.scanned.list(),
                    params@,
                );
                &&& final(self).claims@ == after
                &&& match r {
                    Ok(_) => fault is None,
                    Err(e) => fault == Some(e@),
                }
            }),
    {
        let summary = self.summarize();
        let delta = other.delta(&summary);
        self.apply_delta(params, &delta)
    }
}

/// The watermark of a bridge that has scanned up to `as_of`.
pub fn scanned_to_body(params: &BitcoinAddressParameters, as_of: BlockAnchor) -> (r: ClaimBody)
    ensures
        r.script_id.0@ == params@.script_id(),
        r.network == params.network,
        r.as_of == as_of,
        r.claim == Claim::ScannedTo,
{
    ClaimBody {
        script_id: params.script_id(),
        network: params.network,
        as_of,
        claim: Claim::ScannedTo,
    }
}

} // verus!
