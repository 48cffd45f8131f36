//! What a contract's state can be relied on for.
//!
//! A state is made of signed claims, or of signed summaries of blocks. These laws say which
//! of them a state takes in, what it makes of them, what it hands on to its peers, and what
//! it lets go.

use vstd::prelude::*;

use crate::address_state::{
    absorbed, admits, capped, claims_fault, claims_to_send, cost, counted, digests_rise, reaches,
    counted_total, evidence, fits, from_standing, height_of, heights, inserted, is_evidence, kept,
    key_of, readable, set_fault, standing, updated, watermarks_fault, watermarks_to_send, weight,
    SetModel,
};
use crate::bytes::{arr32, lex_before};
use crate::cbor::bytes_of;
use crate::claims::{BodyModel, ClaimModel, TipEntryBody};
use crate::digest::{bucket, mark};
use crate::fold::{depth, OutpointStatus};
use crate::outside::{blake3_of, ed25519_key_fault, ed25519_signature_fault};
use crate::records::{body_from, signed_item, tip_from};
use crate::signing::{claim_digest, claim_verdict, tip_digest, tip_verdict, SignedModel};
use crate::sorted::{map_of, ClaimKey, Ordered};
use crate::spv::proof_fault;
use crate::sums::sum_with;
use crate::text::ascii;
use crate::tip_state::{
    above, all_placed, displaces, entries_fault, highest_of, lowest_of, newest_first, offered,
    overwritten, placed, retained, tip_fault, tips_to_send, tips_updated,
};
use crate::types::{script_id_input, BridgeId, OutPoint, ParamsModel, TipParamsModel};

verus! {

// ---------------------------------------------------------------------------
// Signed claims and summaries
// ---------------------------------------------------------------------------

/// A claim is accepted, as what its bytes say, exactly if a trusted bridge signed those very
/// bytes as a claim, they are a claim about this script on this network, and a confirmation
/// among them carries evidence that holds here.
pub proof fn a_claim_is_accepted_for_what_it_is(c: SignedModel, p: ParamsModel, body: BodyModel)
    ensures
        claim_verdict(c, p) == Ok::<BodyModel, Seq<char>>(body) <==> {
            &&& p.trusted_bridges.contains(c.bridge)
            &&& ed25519_key_fault(c.bridge.0@) is None
            &&& c.signature.len() == 64
            &&& ed25519_signature_fault(
                c.bridge.0@,
                ascii("freenet-bitcoin/claim/v1\0"@) + c.body_cbor,
                c.signature,
            ) is None
            &&& body_from(c.body_cbor) == Ok::<BodyModel, Seq<char>>(body)
            &&& body.network == p.network
            &&& body.script_id.0@ == blake3_of(script_id_input(p.network, p.script_pubkey))
            &&& body.claim matches ClaimModel::ConfirmedOutput {
                outpoint,
                value_sats,
                anchor,
                spv,
            } ==> proof_fault(
                spv,
                outpoint.txid,
                outpoint.vout,
                p.script_pubkey,
                value_sats,
                anchor.hash,
                p.pow_floor,
            ) is None
        },
{
}

/// A summary is accepted, as what its bytes say, exactly if a trusted bridge signed those
/// very bytes as a summary, and they are one of a block on this network.
pub proof fn a_summary_is_accepted_for_what_it_is(
    c: SignedModel,
    p: TipParamsModel,
    body: TipEntryBody,
)
    ensures
        tip_verdict(c, p) == Ok::<TipEntryBody, Seq<char>>(body) <==> {
            &&& p.trusted_bridges.contains(c.bridge)
            &&& ed25519_key_fault(c.bridge.0@) is None
            &&& c.signature.len() == 64
            &&& ed25519_signature_fault(
                c.bridge.0@,
                ascii("freenet-bitcoin/tip/v1\0"@) + c.body_cbor,
                c.signature,
            ) is None
            &&& tip_from(c.body_cbor) == Ok::<TipEntryBody, Seq<char>>(body)
            &&& body.network == p.network
        },
{
}

/// A claim's identity is the hash of its bridge, its bytes and its signature, under a name
/// that nothing else is hashed under.
pub proof fn a_claim_is_known_by_all_of_it(c: SignedModel)
    ensures
        claim_digest(c) == blake3_of(
            ascii("freenet-bitcoin/claim-digest/v1"@) + c.bridge.0@ + c.body_cbor + c.signature,
        ),
        tip_digest(c) == blake3_of(
            ascii("freenet-bitcoin/tip-digest/v1"@) + c.bridge.0@ + c.body_cbor + c.signature,
        ),
        key_of(c).0 == arr32(claim_digest(c)),
{
}

// ---------------------------------------------------------------------------
// Sets of claims
// ---------------------------------------------------------------------------

/// A claim is made at the height that it says, and one that cannot be read at none.
pub proof fn a_claim_is_made_at_its_height(c: SignedModel)
    ensures
        body_from(c.body_cbor) matches Ok(b) ==> height_of(c) == b.as_of.height,
        body_from(c.body_cbor) is Err ==> height_of(c) == 0,
{
}

/// A claim that is no watermark is kept under its own key, unless something stands there
/// already; nothing else changes.
pub proof fn a_claim_is_filed_under_its_key(s: SetModel, c: SignedModel, body: BodyModel)
    requires
        !(body.claim is ScannedTo),
    ensures
        ({
            let t = inserted(s, c, body);
            let key = ClaimKey(arr32(claim_digest(c)));
            &&& t.scanned == s.scanned
            &&& t.claims.contains_key(key)
            &&& s.claims.contains_key(key) ==> t == s
            &&& !s.claims.contains_key(key) ==> t.claims[key] == c
            &&& forall|k: ClaimKey|
                k != key ==> (#[trigger] t.claims.contains_key(k) <==> s.claims.contains_key(k))
            &&& forall|k: ClaimKey|
                k != key && #[trigger] s.claims.contains_key(k) ==> t.claims[k] == s.claims[k]
            &&& admits(s, c, body) <==> t != s
        }),
{
    let t = inserted(s, c, body);
    let key = key_of(c);
    if !s.claims.contains_key(key) {
        assert(t.claims.contains_key(key) && !s.claims.contains_key(key));
    }
}

/// A watermark takes the place of its bridge's last exactly if it is higher, or if the bridge
/// had none; nothing else changes.
pub proof fn only_a_higher_watermark_replaces_one(s: SetModel, c: SignedModel, body: BodyModel)
    requires
        body.claim is ScannedTo,
    ensures
        ({
            let t = inserted(s, c, body);
            &&& t.claims == s.claims
            &&& !s.scanned.contains_key(c.bridge) ==> t.scanned == s.scanned.insert(c.bridge, c)
            &&& s.scanned.contains_key(c.bridge) && body.as_of.height > height_of(
                s.scanned[c.bridge],
            ) ==> t.scanned == s.scanned.insert(c.bridge, c)
            &&& s.scanned.contains_key(c.bridge) && body.as_of.height <= height_of(
                s.scanned[c.bridge],
            ) ==> t == s
            &&& forall|b: BridgeId|
                b != c.bridge ==> (#[trigger] t.scanned.contains_key(b) <==> s.scanned.contains_key(
                    b,
                ))
        }),
{
}

/// Claims are taken in one by one up to the first that does not verify, whose fault is
/// given; those behind it are not looked at.
pub proof fn claims_are_taken_in_up_to_the_first_fault(
    s: SetModel,
    cs: Seq<SignedModel>,
    p: ParamsModel,
    i: int,
)
    requires
        0 <= i < cs.len(),
        forall|j: int| 0 <= j < i ==> claim_verdict(#[trigger] cs[j], p) is Ok,
    ensures
        absorbed(s, cs.take(i), p).1 is None,
        claim_verdict(cs[i], p) matches Ok(body) ==> absorbed(s, cs.take(i + 1), p) == (
            inserted(absorbed(s, cs.take(i), p).0, cs[i], body),
            None::<Seq<char>>,
        ),
        claim_verdict(cs[i], p) matches Err(e) ==> absorbed(s, cs, p) == (
            absorbed(s, cs.take(i), p).0,
            Some(e),
        ),
    decreases i,
{
    if i > 0 {
        claims_are_taken_in_up_to_the_first_fault(s, cs, p, i - 1);
    } else {
        assert(cs.take(0).len() == 0);
    }
    assert(cs.take(i + 1).drop_last() =~= cs.take(i));
    assert(cs.take(i + 1).last() == cs[i]);
    if claim_verdict(cs[i], p) is Err {
        stopped(s, cs, p, i + 1);
    }
}

proof fn stopped(s: SetModel, cs: Seq<SignedModel>, p: ParamsModel, i: int)
    requires
        0 <= i <= cs.len(),
        absorbed(s, cs.take(i), p).1 is Some,
    ensures
        absorbed(s, cs, p) == absorbed(s, cs.take(i), p),
    decreases cs.len() - i,
{
    if i < cs.len() {
        assert(cs.take(i + 1).drop_last() =~= cs.take(i));
        stopped(s, cs, p, i + 1);
    } else {
        assert(cs.take(i) =~= cs);
    }
}

/// A delta that verifies is taken in and pruned; one that does not is taken in up to its
/// first fault, which is given.
pub proof fn a_delta_is_taken_in_and_pruned(s: SetModel, cs: Seq<SignedModel>, p: ParamsModel)
    ensures
        updated(s, cs, p).1 == absorbed(s, cs, p).1,
        updated(s, cs, p).0.scanned == absorbed(s, cs, p).0.scanned,
        absorbed(s, cs, p).1 is None ==> updated(s, cs, p).0.claims == kept(
            absorbed(s, cs, p).0.claims,
        ),
        absorbed(s, cs, p).1 is Some ==> updated(s, cs, p).0 == absorbed(s, cs, p).0,
{
}

// ---------------------------------------------------------------------------
// Room
// ---------------------------------------------------------------------------

/// A claim takes the room of its own encoding and 34 bytes for its key, and claims together
/// take the sum. They fit if they are no more than 512, and take no more than 262144 bytes.
pub proof fn claims_take_the_room_of_their_bytes(
    m: Map<ClaimKey, SignedModel>,
    k: ClaimKey,
    c: SignedModel,
)
    requires
        m.dom().finite(),
        !m.contains_key(k),
    ensures
        cost(c) == bytes_of(signed_item(c)).len() + 34,
        weight(Map::<ClaimKey, SignedModel>::empty()) == 0,
        weight(m.insert(k, c)) == weight(m) + cost(c),
        fits(m) <==> m.dom().len() <= 512 && weight(m) <= 262144,
{
    let f = |k: ClaimKey, c: SignedModel| cost(c);
    sum_with(m, f, k, c);
    crate::sums::sum_empty::<ClaimKey, SignedModel>(f);
}

/// Of two claims the one made at the lower height goes first, and of two made at one height
/// the one whose key comes first.
pub proof fn the_oldest_claim_goes_first(m: Map<ClaimKey, SignedModel>, k: ClaimKey, q: ClaimKey)
    ensures
        height_of(m[k]) < height_of(m[q]) ==> standing(m, k).before(standing(m, q)),
        height_of(m[k]) == height_of(m[q]) ==> (standing(m, k).before(standing(m, q))
            <==> lex_before(k.0@, q.0@)),
        height_of(m[k]) > height_of(m[q]) ==> !standing(m, k).before(standing(m, q)),
{
}

/// A claim is let go only if it and those that go after it would not fit together, and kept
/// whenever they would.
pub proof fn a_claim_goes_only_for_want_of_room(
    m: Map<ClaimKey, SignedModel>,
    k: ClaimKey,
    later: Map<ClaimKey, SignedModel>,
)
    requires
        m.contains_key(k),
        forall|q: ClaimKey| #[trigger]
            later.contains_key(q) <==> m.contains_key(q) && (q == k || standing(m, k).before(
                standing(m, q),
            )),
        forall|q: ClaimKey| #[trigger] later.contains_key(q) ==> later[q] == m[q],
    ensures
        kept(m).contains_key(k) <==> later.dom().len() <= 512 && weight(later) <= 262144,
        kept(m).contains_key(k) ==> kept(m)[k] == m[k],
{
    assert(from_standing(m, k) =~= later);
}

// ---------------------------------------------------------------------------
// What a set says
// ---------------------------------------------------------------------------

/// Every claim of a set that can be read is read, and nothing else.
pub proof fn every_claim_that_can_be_is_read(list: Seq<(ClaimKey, SignedModel)>, b: BodyModel)
    ensures
        readable(list).contains(b) <==> exists|i: int|
            0 <= i < list.len() && body_from((#[trigger] list[i]).1.body_cbor) == Ok::<
                BodyModel,
                Seq<char>,
            >(b),
        readable(list).len() <= list.len(),
    decreases list.len(),
{
    if list.len() > 0 {
        let rest = list.drop_last();
        every_claim_that_can_be_is_read(rest, b);
        let before = readable(rest);
        let now = readable(list);
        if now.contains(b) {
            let j = choose|j: int| 0 <= j < now.len() && now[j] == b;
            if j < before.len() {
                assert(before[j] == b);
                let i = choose|i: int|
                    0 <= i < rest.len() && body_from((#[trigger] rest[i]).1.body_cbor) == Ok::<
                        BodyModel,
                        Seq<char>,
                    >(b);
                assert(list[i] == rest[i]);
            } else {
                assert(list[list.len() - 1] == list.last());
            }
        }
        if exists|i: int|
            0 <= i < list.len() && body_from((#[trigger] list[i]).1.body_cbor) == Ok::<
                BodyModel,
                Seq<char>,
            >(b) {
            let i = choose|i: int|
                0 <= i < list.len() && body_from((#[trigger] list[i]).1.body_cbor) == Ok::<
                    BodyModel,
                    Seq<char>,
                >(b);
            if i < rest.len() {
                assert(rest[i] == list[i]);
                let j = choose|j: int| 0 <= j < before.len() && before[j] == b;
                assert(now[j] == b);
            } else {
                assert(now[now.len() - 1] == b);
            }
        }
    }
}

/// An output counts in full or not at all: a confirmed one as confirmed once the chain is
/// deep enough over it, and as pending until then; an unconfirmed one as pending; and one
/// that was retracted as neither.
pub proof fn an_output_counts_once(s: OutpointStatus, tip: u32, min: u32)
    ensures
        match s {
            OutpointStatus::Confirmed { value_sats, anchor, .. } => {
                &&& counted(s, tip, min, false) + counted(s, tip, min, true) == value_sats
                &&& depth(anchor.height, tip) >= min ==> counted(s, tip, min, false) == value_sats
                &&& depth(anchor.height, tip) < min ==> counted(s, tip, min, true) == value_sats
            },
            OutpointStatus::Unconfirmed { value_sats } => counted(s, tip, min, false) == 0
                && counted(s, tip, min, true) == value_sats,
            OutpointStatus::Retracted => counted(s, tip, min, false) == 0 && counted(
                s,
                tip,
                min,
                true,
            ) == 0,
        },
{
}

/// What counts as confirmed still does at every later tip, and at every smaller depth.
pub proof fn what_counts_goes_on_counting(
    s: OutpointStatus,
    tip: u32,
    min: u32,
    later: u32,
    fewer: u32,
)
    requires
        tip <= later,
        fewer <= min,
    ensures
        counted(s, tip, min, false) <= counted(s, later, fewer, false),
        counted(s, later, fewer, true) <= counted(s, tip, min, true),
{
}

/// Outputs come to the sum of what each comes to, one by one; and as much of that is given
/// as 64 bits hold.
pub proof fn outputs_come_to_their_sum(
    m: Map<OutPoint, OutpointStatus>,
    op: OutPoint,
    s: OutpointStatus,
    tip: u32,
    min: u32,
    pending: bool,
    n: nat,
)
    requires
        m.dom().finite(),
        !m.contains_key(op),
    ensures
        counted_total(Map::<OutPoint, OutpointStatus>::empty(), tip, min, pending) == 0,
        counted_total(m.insert(op, s), tip, min, pending) == counted_total(m, tip, min, pending)
            + counted(s, tip, min, pending),
        n < 0x1_0000_0000_0000_0000 ==> capped(n) == n,
        n >= 0x1_0000_0000_0000_0000 ==> capped(n) == 0xffff_ffff_ffff_ffff,
{
    let f = |op: OutPoint, s: OutpointStatus| counted(s, tip, min, pending);
    sum_with(m, f, op, s);
    crate::sums::sum_empty::<OutPoint, OutpointStatus>(f);
}

/// A total that is confirmed never falls as the tip rises.
pub proof fn a_confirmed_total_never_falls(
    m: Map<OutPoint, OutpointStatus>,
    tip: u32,
    later: u32,
    min: u32,
)
    requires
        m.dom().finite(),
        tip <= later,
    ensures
        counted_total(m, tip, min, false) <= counted_total(m, later, min, false),
    decreases m.dom().len(),
{
    let f = |op: OutPoint, s: OutpointStatus| counted(s, tip, min, false);
    let g = |op: OutPoint, s: OutpointStatus| counted(s, later, min, false);
    if m.dom().len() > 0 {
        let k = m.dom().choose();
        crate::sums::sum_without(m, f, k);
        crate::sums::sum_without(m, g, k);
        what_counts_goes_on_counting(m[k], tip, min, later, min);
        a_confirmed_total_never_falls(m.remove(k), tip, later, min);
    } else {
        assert(m =~= Map::<OutPoint, OutpointStatus>::empty());
        crate::sums::sum_empty::<OutPoint, OutpointStatus>(f);
        crate::sums::sum_empty::<OutPoint, OutpointStatus>(g);
    }
}

/// The evidence of a payment is every claim of the set about an output that is confirmed deep
/// enough, and no other claim.
pub proof fn evidence_is_every_claim_that_counts(
    list: Seq<(ClaimKey, SignedModel)>,
    m: Map<OutPoint, OutpointStatus>,
    tip: u32,
    min: u32,
    c: SignedModel,
)
    ensures
        evidence(list, m, tip, min).contains(c) <==> (exists|i: int|
            0 <= i < list.len() && (#[trigger] list[i]).1 == c) && (body_from(
            c.body_cbor,
        ) matches Ok(b) && b.claim.outpoint() matches Some(op) && m.contains_key(op) && (
        m[op] matches OutpointStatus::Confirmed { anchor, .. } && depth(anchor.height, tip)
            >= min)),
    decreases list.len(),
{
    if list.len() > 0 {
        let rest = list.drop_last();
        evidence_is_every_claim_that_counts(rest, m, tip, min, c);
        let before = evidence(rest, m, tip, min);
        let now = evidence(list, m, tip, min);
        if now.contains(c) {
            let j = choose|j: int| 0 <= j < now.len() && now[j] == c;
            if j < before.len() {
                assert(before[j] == c);
                let i = choose|i: int| 0 <= i < rest.len() && (#[trigger] rest[i]).1 == c;
                assert(list[i] == rest[i]);
            } else {
                assert(list[list.len() - 1] == list.last());
            }
        }
        if exists|i: int| 0 <= i < list.len() && (#[trigger] list[i]).1 == c {
            let i = choose|i: int| 0 <= i < list.len() && (#[trigger] list[i]).1 == c;
            if is_evidence(c, m, tip, min) {
                if i < rest.len() {
                    assert(rest[i] == list[i]);
                    let j = choose|j: int| 0 <= j < before.len() && before[j] == c;
                    assert(now[j] == c);
                } else {
                    assert(now[now.len() - 1] == c);
                }
            }
        }
    }
}

// ---------------------------------------------------------------------------
// Peers
// ---------------------------------------------------------------------------

/// A key falls into the bucket of its first byte, modulo 16, and counts there by the first
/// eight bytes of a hash of it.
pub proof fn a_key_falls_into_the_bucket_of_its_first_byte(key: [u8; 32])
    ensures
        0 <= bucket(key) < 16,
        bucket(key) == key@[0] as int % 16,
        mark(key) == crate::bytes::le64(
            blake3_of(ascii("freenet-bitcoin/bucket/v1"@) + key@),
            0,
        ) as u64,
{
}

/// A claim is sent exactly if its bucket differs.
pub proof fn claims_of_differing_buckets_are_sent(
    list: Seq<(ClaimKey, SignedModel)>,
    mine: Seq<u64>,
    theirs: Seq<u64>,
    c: SignedModel,
)
    ensures
        claims_to_send(list, mine, theirs).contains(c) <==> exists|i: int|
            0 <= i < list.len() && (#[trigger] list[i]).1 == c && mine[bucket(list[i].0.0)]
                != theirs[bucket(list[i].0.0)],
    decreases list.len(),
{
    if list.len() > 0 {
        let rest = list.drop_last();
        claims_of_differing_buckets_are_sent(rest, mine, theirs, c);
        let before = claims_to_send(rest, mine, theirs);
        let now = claims_to_send(list, mine, theirs);
        if now.contains(c) {
            let j = choose|j: int| 0 <= j < now.len() && now[j] == c;
            if j < before.len() {
                assert(before[j] == c);
                let i = choose|i: int|
                    0 <= i < rest.len() && (#[trigger] rest[i]).1 == c && mine[bucket(rest[i].0.0)]
                        != theirs[bucket(rest[i].0.0)];
                assert(list[i] == rest[i]);
            } else {
                assert(list[list.len() - 1] == list.last());
            }
        }
        if exists|i: int|
            0 <= i < list.len() && (#[trigger] list[i]).1 == c && mine[bucket(list[i].0.0)]
                != theirs[bucket(list[i].0.0)] {
            let i = choose|i: int|
                0 <= i < list.len() && (#[trigger] list[i]).1 == c && mine[bucket(list[i].0.0)]
                    != theirs[bucket(list[i].0.0)];
            if i < rest.len() {
                assert(rest[i] == list[i]);
                let j = choose|j: int| 0 <= j < before.len() && before[j] == c;
                assert(now[j] == c);
            } else {
                assert(now[now.len() - 1] == c);
            }
        }
    }
}

/// A watermark is sent exactly if the peer has none of that bridge, or a lower one.
pub proof fn watermarks_that_are_ahead_are_sent(
    list: Seq<(BridgeId, SignedModel)>,
    theirs: Map<BridgeId, u32>,
    c: SignedModel,
)
    ensures
        watermarks_to_send(list, theirs).contains(c) <==> exists|i: int|
            0 <= i < list.len() && (#[trigger] list[i]).1 == c && (!theirs.contains_key(list[i].0)
                || height_of(c) > theirs[list[i].0]),
    decreases list.len(),
{
    if list.len() > 0 {
        let rest = list.drop_last();
        watermarks_that_are_ahead_are_sent(rest, theirs, c);
        let before = watermarks_to_send(rest, theirs);
        let now = watermarks_to_send(list, theirs);
        if now.contains(c) {
            let j = choose|j: int| 0 <= j < now.len() && now[j] == c;
            if j < before.len() {
                assert(before[j] == c);
                let i = choose|i: int|
                    0 <= i < rest.len() && (#[trigger] rest[i]).1 == c && (!theirs.contains_key(
                        rest[i].0,
                    ) || height_of(c) > theirs[rest[i].0]);
                assert(list[i] == rest[i]);
            } else {
                assert(list[list.len() - 1] == list.last());
            }
        }
        if exists|i: int|
            0 <= i < list.len() && (#[trigger] list[i]).1 == c && (!theirs.contains_key(list[i].0)
                || height_of(c) > theirs[list[i].0]) {
            let i = choose|i: int|
                0 <= i < list.len() && (#[trigger] list[i]).1 == c && (!theirs.contains_key(
                    list[i].0,
                ) || height_of(c) > theirs[list[i].0]);
            if i < rest.len() {
                assert(rest[i] == list[i]);
                let j = choose|j: int| 0 <= j < before.len() && before[j] == c;
                assert(now[j] == c);
            } else {
                assert(now[now.len() - 1] == c);
            }
        }
    }
}

/// A summary of watermarks gives the height of each bridge's.
pub proof fn a_summary_gives_each_height(m: Map<BridgeId, SignedModel>, b: BridgeId)
    ensures
        heights(m).contains_key(b) <==> m.contains_key(b),
        m.contains_key(b) ==> heights(m)[b] == height_of(m[b]),
{
}

/// A state is valid exactly if it holds no more than it may, every claim is accepted, stands
/// under its own digest and is no watermark, and every watermark is accepted, is one, and
/// stands under the bridge that made it.
pub proof fn what_makes_a_state_valid(
    claims: Seq<(ClaimKey, SignedModel)>,
    scanned: Seq<(BridgeId, SignedModel)>,
    p: ParamsModel,
)
    ensures
        set_fault(claims, scanned, p) is None <==> {
            &&& claims.len() <= 512
            &&& weight(map_of(claims)) <= 262144
            &&& forall|i: int|
                0 <= i < claims.len() ==> (claim_verdict((#[trigger] claims[i]).1, p) matches Ok(b)
                    && !(b.claim is ScannedTo) && claims[i].0.0@ == claim_digest(claims[i].1))
            &&& forall|i: int|
                0 <= i < scanned.len() ==> (claim_verdict((#[trigger] scanned[i]).1, p) matches Ok(
                    b,
                ) && b.claim is ScannedTo && scanned[i].0 == scanned[i].1.bridge)
        },
{
    sound_claims(claims, 0, p);
    sound_watermarks(scanned, 0, p);
}

#[verifier::spinoff_prover]
#[verifier::rlimit(40)]
proof fn sound_claims(list: Seq<(ClaimKey, SignedModel)>, at: int, p: ParamsModel)
    requires
        0 <= at,
    ensures
        claims_fault(list, at, p) is None <==> forall|i: int|
            at <= i < list.len() ==> (claim_verdict((#[trigger] list[i]).1, p) matches Ok(b) && !(
            b.claim is ScannedTo) && list[i].0.0@ == claim_digest(list[i].1)),
    decreases list.len() - at,
{
    if at < list.len() {
        sound_claims(list, at + 1, p);
        assert(list[at] == list[at]);
    }
}

#[verifier::spinoff_prover]
#[verifier::rlimit(40)]
proof fn sound_watermarks(list: Seq<(BridgeId, SignedModel)>, at: int, p: ParamsModel)
    requires
        0 <= at,
    ensures
        watermarks_fault(list, at, p) is None <==> forall|i: int|
            at <= i < list.len() ==> (claim_verdict((#[trigger] list[i]).1, p) matches Ok(b)
                && b.claim is ScannedTo && list[i].0 == list[i].1.bridge),
    decreases list.len() - at,
{
    if at < list.len() {
        sound_watermarks(list, at + 1, p);
        assert(list[at] == list[at]);
    }
}

// ---------------------------------------------------------------------------
// Tips
// ---------------------------------------------------------------------------

/// Of two blocks at one height the one with the greater hash stands, of two summaries of one
/// block the one with the greater digest, and any that can be read over one that cannot.
pub proof fn the_greater_block_stands(
    new: SignedModel,
    body: TipEntryBody,
    there: SignedModel,
)
    ensures
        tip_from(there.body_cbor) is Err ==> displaces(new, body, there),
        tip_from(there.body_cbor) matches Ok(e) ==> {
            &&& lex_before(e.anchor.hash.0@, body.anchor.hash.0@) ==> displaces(new, body, there)
            &&& lex_before(body.anchor.hash.0@, e.anchor.hash.0@) ==> !displaces(new, body, there)
            &&& e.anchor.hash.0@ == body.anchor.hash.0@ ==> (displaces(new, body, there)
                <==> lex_before(tip_digest(there), tip_digest(new)))
        },
{
    if let Ok(e) = tip_from(there.body_cbor) {
        let (a, b) = (e.anchor.hash.0@, body.anchor.hash.0@);
        if lex_before(a, b) && lex_before(b, a) {
            crate::bytes::lex_transitive(a, b, a);
            crate::bytes::lex_irreflexive(a);
        }
        crate::bytes::lex_irreflexive(a);
    }
}

/// An entry is placed at its own height, unless what stands there stands over it; nothing
/// changes at any other height.
pub proof fn an_entry_is_placed_at_its_height(
    m: Map<u32, SignedModel>,
    c: SignedModel,
    body: TipEntryBody,
    h: u32,
)
    ensures
        ({
            let t = placed(m, c, body);
            &&& h != body.anchor.height ==> (t.contains_key(h) <==> m.contains_key(h))
            &&& h != body.anchor.height && m.contains_key(h) ==> t[h] == m[h]
            &&& t.contains_key(body.anchor.height)
            &&& t[body.anchor.height] == (if m.contains_key(body.anchor.height) && !displaces(
                c,
                body,
                m[body.anchor.height],
            ) {
                m[body.anchor.height]
            } else {
                c
            })
        }),
{
}

/// A block stays exactly if fewer than 64 of the blocks held are higher.
pub proof fn a_block_stays_among_the_highest(m: Map<u32, SignedModel>, h: u32, higher: Set<u32>)
    requires
        m.contains_key(h),
        forall|q: u32| #[trigger] higher.contains(q) <==> m.contains_key(q) && q > h,
    ensures
        retained(m).contains_key(h) <==> higher.len() < 64,
        retained(m).contains_key(h) ==> retained(m)[h] == m[h],
{
    assert(above(m, h) =~= higher);
}

/// Entries that come one after the other are taken in up to the first that does not verify;
/// those that do are placed, and then the highest blocks are kept.
pub proof fn entries_are_taken_in_and_the_highest_kept(
    m: Map<u32, SignedModel>,
    cs: Seq<SignedModel>,
    p: TipParamsModel,
    c: SignedModel,
)
    requires
        all_placed(m, cs, p).1 is None,
    ensures
        tip_verdict(c, p) matches Ok(body) ==> all_placed(m, cs.push(c), p) == (
            placed(all_placed(m, cs, p).0, c, body),
            None::<Seq<char>>,
        ),
        tip_verdict(c, p) matches Err(e) ==> all_placed(m, cs.push(c), p) == (
            all_placed(m, cs, p).0,
            Some(e),
        ),
        tips_updated(m, cs, p) == (retained(all_placed(m, cs, p).0), None::<Seq<char>>),
{
    assert(cs.push(c).drop_last() =~= cs);
}

/// A state built from entries holds at each height the last that came for it.
pub proof fn the_last_entry_for_a_height_stands(
    cs: Seq<SignedModel>,
    p: TipParamsModel,
    c: SignedModel,
)
    requires
        overwritten(cs, p).1 is None,
    ensures
        overwritten(Seq::empty(), p) == (Map::<u32, SignedModel>::empty(), None::<Seq<char>>),
        tip_verdict(c, p) matches Ok(body) ==> overwritten(cs.push(c), p) == (
            overwritten(cs, p).0.insert(body.anchor.height, c),
            None::<Seq<char>>,
        ),
        tip_verdict(c, p) matches Err(e) ==> overwritten(cs.push(c), p).1 == Some(e),
{
    assert(cs.push(c).drop_last() =~= cs);
}

/// An entry is offered exactly if its bucket differs and the peer, where it holds 64 blocks,
/// holds none that are all above it.
pub proof fn entries_a_peer_lacks_are_offered(
    list: Seq<(u32, SignedModel)>,
    mine: Seq<u64>,
    theirs: Seq<u64>,
    count: u32,
    lowest: u32,
    c: SignedModel,
)
    ensures
        tips_to_send(list, mine, theirs, count, lowest).contains(c) <==> exists|i: int|
            {
                &&& 0 <= i < list.len()
                &&& (#[trigger] list[i]).1 == c
                &&& mine[bucket(arr32(tip_digest(c)))] != theirs[bucket(arr32(tip_digest(c)))]
                &&& count < 64 || list[i].0 >= lowest
            },
    decreases list.len(),
{
    if list.len() > 0 {
        let rest = list.drop_last();
        entries_a_peer_lacks_are_offered(rest, mine, theirs, count, lowest, c);
        let before = tips_to_send(rest, mine, theirs, count, lowest);
        let now = tips_to_send(list, mine, theirs, count, lowest);
        if now.contains(c) {
            let j = choose|j: int| 0 <= j < now.len() && now[j] == c;
            if j < before.len() {
                assert(before[j] == c);
                let i = choose|i: int|
                    {
                        &&& 0 <= i < rest.len()
                        &&& (#[trigger] rest[i]).1 == c
                        &&& mine[bucket(arr32(tip_digest(c)))] != theirs[bucket(
                            arr32(tip_digest(c)),
                        )]
                        &&& count < 64 || rest[i].0 >= lowest
                    };
                assert(list[i] == rest[i]);
            } else {
                assert(list[list.len() - 1] == list.last());
            }
        }
        if exists|i: int|
            {
                &&& 0 <= i < list.len()
                &&& (#[trigger] list[i]).1 == c
                &&& mine[bucket(arr32(tip_digest(c)))] != theirs[bucket(arr32(tip_digest(c)))]
                &&& count < 64 || list[i].0 >= lowest
            } {
            let i = choose|i: int|
                {
                    &&& 0 <= i < list.len()
                    &&& (#[trigger] list[i]).1 == c
                    &&& mine[bucket(arr32(tip_digest(c)))] != theirs[bucket(arr32(tip_digest(c)))]
                    &&& count < 64 || list[i].0 >= lowest
                };
            if i < rest.len() {
                assert(rest[i] == list[i]);
                let j = choose|j: int| 0 <= j < before.len() && before[j] == c;
                assert(now[j] == c);
            } else {
                assert(now[now.len() - 1] == c);
            }
        }
    }
}

/// A tip state is valid exactly if it holds no more than 64 blocks, and every entry is
/// accepted and stands at its own height.
pub proof fn what_makes_a_tip_state_valid(list: Seq<(u32, SignedModel)>, p: TipParamsModel)
    ensures
        tip_fault(list, p) is None <==> list.len() <= 64 && forall|i: int|
            0 <= i < list.len() ==> (tip_verdict((#[trigger] list[i]).1, p) matches Ok(b)
                && b.anchor.height == list[i].0),
{
    sound_entries(list, 0, p);
}

proof fn sound_entries(list: Seq<(u32, SignedModel)>, at: int, p: TipParamsModel)
    requires
        0 <= at,
    ensures
        entries_fault(list, at, p) is None <==> forall|i: int|
            at <= i < list.len() ==> (tip_verdict((#[trigger] list[i]).1, p) matches Ok(b)
                && b.anchor.height == list[i].0),
    decreases list.len() - at,
{
    if at < list.len() {
        sound_entries(list, at + 1, p);
        assert(list[at] == list[at]);
    }
}

/// Recent blocks come with the highest first: where all can be read, the `i`th of them is
/// the `i`th from the end of the list.
#[verifier::spinoff_prover]
#[verifier::rlimit(40)]
pub proof fn recent_blocks_come_highest_first(list: Seq<(u32, SignedModel)>, i: int)
    requires
        forall|j: int| 0 <= j < list.len() ==> tip_from((#[trigger] list[j]).1.body_cbor) is Ok,
        0 <= i < list.len(),
    ensures
        newest_first(list).len() == list.len(),
        newest_first(list)[i] == tip_from(list[list.len() - 1 - i].1.body_cbor)->Ok_0,
    decreases list.len(),
{
    let rest = list.drop_last();
    assert(tip_from(list[list.len() - 1].1.body_cbor) is Ok);
    if rest.len() > 0 {
        assert forall|j: int| 0 <= j < rest.len() implies tip_from(
            (#[trigger] rest[j]).1.body_cbor,
        ) is Ok by {
            assert(rest[j] == list[j]);
        }
        recent_blocks_come_highest_first(rest, if i > 0 {
            i - 1
        } else {
            0
        });
    }
}

/// A summary gives the height of the first and of the last entry, and zeros where there is
/// none.
pub proof fn a_summary_gives_the_ends(list: Seq<(u32, SignedModel)>)
    ensures
        list.len() == 0 ==> lowest_of(list) == 0 && highest_of(list) == 0,
        list.len() > 0 ==> lowest_of(list) == list[0].0 && highest_of(list) == list[list.len()
            - 1].0,
{
}

/// How far a script has been scanned is the highest height that any bridge's watermark gives;
/// it is unknown exactly if no watermark can be read.
pub proof fn how_far_a_script_is_scanned(
    scanned: Map<BridgeId, SignedModel>,
    r: Option<u32>,
    b: BridgeId,
    body: BodyModel,
)
    requires
        reaches(scanned, r),
        scanned.contains_key(b),
        body_from(scanned[b].body_cbor) == Ok::<BodyModel, Seq<char>>(body),
    ensures
        r is Some,
        body.as_of.height <= r->Some_0,
        exists|q: BridgeId| #[trigger]
            scanned.contains_key(q) && (body_from(scanned[q].body_cbor) matches Ok(top)
                && top.as_of.height == r->Some_0),
{
    let q = choose|q: BridgeId| #[trigger]
        scanned.contains_key(q) && body_from(scanned[q].body_cbor) is Ok && height_of(scanned[q])
            == r->Some_0;
    assert(scanned.contains_key(q));
}

/// Where nothing has been said about scanning, nothing is known of it.
pub proof fn nothing_said_is_nothing_scanned(r: Option<u32>)
    requires
        reaches(Map::<BridgeId, SignedModel>::empty(), r),
    ensures
        r is None,
{
}

/// Claims in the order of their digests are given lowest first.
pub proof fn claims_are_given_lowest_digest_first(s: Seq<SignedModel>, i: int, j: int)
    requires
        digests_rise(s),
        0 <= i < j < s.len(),
    ensures
        claim_digest(s[i]) == claim_digest(s[j]) || lex_before(
            claim_digest(s[i]),
            claim_digest(s[j]),
        ),
{
    crate::bytes::lex_total(claim_digest(s[i]), claim_digest(s[j]));
}

} // verus!
