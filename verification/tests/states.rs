//! Contract states: how they merge, what they keep, and how they are written down.

use ciborium::value::Value;
use freenet_bitcoin::address_state::{
    scanned_to_body, ClaimSetDelta, MAX_CLAIMS, MAX_CLAIM_BYTES,
};
use freenet_bitcoin::digest::{BucketDigest, BUCKETS};
use freenet_bitcoin::spv::{meets_target, sha256d, target_from_bits, HEADER_LEN};
use freenet_bitcoin::tip_state::BlockSummariesDelta;
use freenet_bitcoin::{
    auth_signing_input, from_cbor, to_cbor, BitcoinAddressParameters, BitcoinAddressStateV1,
    BitcoinNetwork, BitcoinTipParameters, BitcoinTipStateV1, BlockAnchor, BlockHash, BlockHeader,
    BridgeError, BridgeId, Claim, ClaimBody, ClaimKey, ClaimSetV1, GhostKeyAuth, OutPoint,
    PowFloor, RequestBody, ScriptId, ServiceAuth, ServiceRequest, SignedClaim, SignedTipEntry,
    SpvProof, TipEntryBody, Txid, WatchRequest, TIP_RETAIN,
};

const EASY: u32 = 0x207f_ffff;

fn build_tx(outputs: &[(u64, Vec<u8>)]) -> Vec<u8> {
    let mut t = Vec::new();
    t.extend_from_slice(&2u32.to_le_bytes());
    t.push(1);
    t.extend_from_slice(&[0u8; 32]);
    t.extend_from_slice(&0u32.to_le_bytes());
    t.push(0);
    t.extend_from_slice(&0xffff_ffffu32.to_le_bytes());
    t.push(outputs.len() as u8);
    for (v, spk) in outputs {
        t.extend_from_slice(&v.to_le_bytes());
        t.push(spk.len() as u8);
        t.extend_from_slice(spk);
    }
    t.extend_from_slice(&0u32.to_le_bytes());
    t
}

fn mine(prev: [u8; 32], merkle_root: [u8; 32], time: u32, bits: u32) -> BlockHeader {
    let target = target_from_bits(bits);
    let mut h = [0u8; HEADER_LEN];
    h[..4].copy_from_slice(&1u32.to_le_bytes());
    h[4..36].copy_from_slice(&prev);
    h[36..68].copy_from_slice(&merkle_root);
    h[68..72].copy_from_slice(&time.to_le_bytes());
    h[72..76].copy_from_slice(&bits.to_le_bytes());
    for nonce in 0u32..u32::MAX {
        h[76..80].copy_from_slice(&nonce.to_le_bytes());
        if meets_target(&sha256d(&h), &target) {
            return BlockHeader(h);
        }
    }
    panic!("no nonce found");
}

fn payment_proof(script: &[u8], value: u64, depth: u32, prev: [u8; 32]) -> (SpvProof, Txid, BlockHash) {
    let raw = build_tx(&[(value, script.to_vec())]);
    let txid = Txid(sha256d(&raw));
    let header = mine(prev, txid.0, 1_700_000_000, EASY);
    let block = BlockHash(sha256d(&header.0));
    let mut following = Vec::new();
    let mut last = header;
    for i in 1..depth {
        let h = mine(sha256d(&last.0), [i as u8; 32], 1_700_000_000 + i * 600, EASY);
        following.push(h);
        last = h;
    }
    (
        SpvProof {
            raw_tx: raw,
            merkle_branch: vec![],
            tx_index: 0,
            header,
            following_headers: following,
        },
        txid,
        block,
    )
}

fn key(seed: u8) -> [u8; 32] {
    [seed; 32]
}

fn bridge_of(seed: &[u8; 32]) -> BridgeId {
    BridgeId(ed25519_dalek::SigningKey::from_bytes(seed).verifying_key().to_bytes())
}

// ---------------------------------------------------------------------------
// Address states
// ---------------------------------------------------------------------------

fn params() -> BitcoinAddressParameters {
    BitcoinAddressParameters {
        network: BitcoinNetwork::Signet,
        script_pubkey: vec![0x00, 0x14, 0xaa, 0xbb],
        trusted_bridges: vec![bridge_of(&key(1))],
        pow_floor: PowFloor::none(),
    }
}

fn anchor(h: u32) -> BlockAnchor {
    let mut b = [0u8; 32];
    b[..4].copy_from_slice(&h.to_le_bytes());
    BlockAnchor { height: h, hash: BlockHash(b) }
}

fn confirmed(p: &BitcoinAddressParameters, n: u8, sats: u64, at: u32, as_of: u32) -> SignedClaim {
    let (spv, txid, block) = payment_proof(&p.script_pubkey, sats, 1, [n; 32]);
    SignedClaim::sign(
        &key(1),
        &ClaimBody {
            script_id: p.script_id(),
            network: p.network,
            as_of: anchor(as_of),
            claim: Claim::ConfirmedOutput {
                outpoint: OutPoint { txid, vout: 0 },
                value_sats: sats,
                anchor: BlockAnchor { height: at, hash: block },
                spv,
            },
        },
    )
    .unwrap()
}

fn retracted_for(p: &BitcoinAddressParameters, n: u8, sats: u64, as_of: u32) -> SignedClaim {
    let (_, txid, _) = payment_proof(&p.script_pubkey, sats, 1, [n; 32]);
    SignedClaim::sign(
        &key(1),
        &ClaimBody {
            script_id: p.script_id(),
            network: p.network,
            as_of: anchor(as_of),
            claim: Claim::Retracted { outpoint: OutPoint { txid, vout: 0 } },
        },
    )
    .unwrap()
}

fn scanned(p: &BitcoinAddressParameters, h: u32) -> SignedClaim {
    SignedClaim::sign(&key(1), &scanned_to_body(p, anchor(h))).unwrap()
}

fn state(p: &BitcoinAddressParameters, claims: Vec<SignedClaim>) -> BitcoinAddressStateV1 {
    BitcoinAddressStateV1::from_claims(p, claims).unwrap()
}

fn merged(
    p: &BitcoinAddressParameters,
    base: &BitcoinAddressStateV1,
    other: &BitcoinAddressStateV1,
) -> BitcoinAddressStateV1 {
    let mut s = base.clone();
    s.merge(p, other).unwrap();
    s
}

fn bytes(s: &BitcoinAddressStateV1) -> Vec<u8> {
    to_cbor(s).unwrap()
}

#[test]
fn merge_is_idempotent() {
    let p = params();
    let a = state(&p, vec![confirmed(&p, 1, 50_000, 99, 100)]);
    let once = merged(&p, &a, &a);
    let twice = merged(&p, &once, &a);
    assert_eq!(bytes(&once), bytes(&twice), "re-merging must not change bytes");
    assert_eq!(bytes(&a), bytes(&once));
}

#[test]
fn merge_is_commutative() {
    let p = params();
    let a = state(&p, vec![confirmed(&p, 1, 1, 10, 11)]);
    let b = state(&p, vec![confirmed(&p, 2, 2, 12, 13)]);
    assert_eq!(bytes(&merged(&p, &a, &b)), bytes(&merged(&p, &b, &a)));
}

#[test]
fn merge_is_associative() {
    let p = params();
    let a = state(&p, vec![confirmed(&p, 1, 1, 10, 11)]);
    let b = state(&p, vec![confirmed(&p, 2, 2, 12, 13)]);
    let c = state(&p, vec![retracted_for(&p, 1, 1, 20)]);
    let left = merged(&p, &merged(&p, &a, &b), &c);
    let right = merged(&p, &a, &merged(&p, &b, &c));
    assert_eq!(bytes(&left), bytes(&right));
}

#[test]
fn scan_watermark_keeps_the_higher_and_only_one_entry() {
    let p = params();
    let a = state(&p, vec![scanned(&p, 100)]);
    let b = state(&p, vec![scanned(&p, 200)]);
    let m = merged(&p, &a, &b);
    assert_eq!(m.claims.scanned.len(), 1, "one watermark per bridge, not one per block");
    assert_eq!(m.scanned_to(), Some(200));
    assert_eq!(bytes(&m), bytes(&merged(&p, &b, &a)));
}

#[test]
fn a_lower_watermark_never_moves_us_backwards() {
    let p = params();
    let high = state(&p, vec![scanned(&p, 500)]);
    let low = state(&p, vec![scanned(&p, 100)]);
    assert_eq!(merged(&p, &high, &low).scanned_to(), Some(500));
}

#[test]
fn address_state_delta_to_an_up_to_date_peer_is_empty() {
    let p = params();
    let s = state(&p, (1..40u8).map(|n| confirmed(&p, n, 1000, 10, 11)).collect());
    let summary = s.claims.summarize();
    assert!(
        s.claims.delta(&summary).is_none(),
        "a peer that already has everything must receive no delta at all"
    );
}

#[test]
fn summary_is_small_and_does_not_grow_with_the_claim_set() {
    let p = params();
    let small = state(&p, vec![confirmed(&p, 1, 1, 10, 11)]);
    let big = state(&p, (1..200u8).map(|n| confirmed(&p, n, 1000, 10, 11)).collect());

    let s1 = to_cbor(&small.claims.summarize()).unwrap().len();
    let s2 = to_cbor(&big.claims.summarize()).unwrap().len();
    assert_eq!(s1, s2, "summary size must not depend on how many claims exist");
    assert!(s2 < 400, "summary encoded to {s2} bytes; expected well under 400");

    let state_len = to_cbor(&big).unwrap().len();
    assert!(
        s2 * 10 < state_len,
        "summary {s2} is not much smaller than state {state_len}"
    );
}

#[test]
fn a_peer_missing_one_claim_gets_it() {
    let p = params();
    let full = state(&p, vec![confirmed(&p, 1, 1, 10, 11), confirmed(&p, 2, 2, 12, 13)]);
    let partial = state(&p, vec![confirmed(&p, 1, 1, 10, 11)]);
    let m = merged(&p, &partial, &full);
    assert_eq!(bytes(&m), bytes(&full), "merge must reach the full state");
}

#[test]
fn a_delta_carries_exactly_what_the_peer_lacks_of_a_bucket() {
    let p = params();
    let full = state(&p, vec![confirmed(&p, 1, 1, 10, 11), confirmed(&p, 2, 2, 12, 13)]);
    let none = BitcoinAddressStateV1::default();
    let d = full.claims.delta(&none.claims.summarize()).unwrap();
    assert_eq!(d.claims.len(), 2);
    let mut peer = none.clone();
    peer.claims.apply_delta(&p, &Some(d)).unwrap();
    assert_eq!(bytes(&peer), bytes(&full));
}

#[test]
fn a_claim_from_an_untrusted_bridge_is_rejected() {
    let p = params();
    let (spv, txid, block) = payment_proof(&p.script_pubkey, 21_000_000_00000000, 1, [1; 32]);
    let rogue = SignedClaim::sign(
        &key(9),
        &ClaimBody {
            script_id: p.script_id(),
            network: p.network,
            as_of: anchor(1),
            claim: Claim::ConfirmedOutput {
                outpoint: OutPoint { txid, vout: 0 },
                value_sats: 21_000_000_00000000,
                anchor: BlockAnchor { height: 1, hash: block },
                spv,
            },
        },
    )
    .unwrap();
    assert!(BitcoinAddressStateV1::from_claims(&p, vec![rogue]).is_err());
}

#[test]
fn a_claim_filed_under_the_wrong_key_fails_verification() {
    let p = params();
    let c = confirmed(&p, 1, 1, 10, 11);
    let mut s = BitcoinAddressStateV1::default();
    s.claims.claims.insert(ClaimKey([0xaa; 32]), c);
    assert!(s.claims.verify(&p).is_err());
}

#[test]
fn a_delta_carrying_a_forged_claim_is_rejected() {
    let p = params();
    let mut s = BitcoinAddressStateV1::default();
    let (spv, txid, block) = payment_proof(&p.script_pubkey, 999, 1, [1; 32]);
    let forged = SignedClaim::sign(
        &key(9),
        &ClaimBody {
            script_id: p.script_id(),
            network: p.network,
            as_of: anchor(1),
            claim: Claim::ConfirmedOutput {
                outpoint: OutPoint { txid, vout: 0 },
                value_sats: 999,
                anchor: BlockAnchor { height: 1, hash: block },
                spv,
            },
        },
    )
    .unwrap();
    let d = ClaimSetDelta { claims: vec![forged], scanned: vec![] };
    assert!(s.claims.apply_delta(&p, &Some(d)).is_err());
}

#[test]
fn payment_evidence_requires_enough_value_and_depth() {
    let p = params();
    let s = state(&p, vec![confirmed(&p, 1, 50_000, 100, 100)]);
    assert!(s.claims.payment_evidence(50_000, 100, 2).is_none());
    assert!(s.claims.payment_evidence(50_000, 101, 2).is_some());
    assert!(s.claims.payment_evidence(50_001, 101, 2).is_none());
}

#[test]
fn a_reorged_out_payment_stops_being_evidence() {
    let p = params();
    let s = state(
        &p,
        vec![confirmed(&p, 1, 50_000, 100, 100), retracted_for(&p, 1, 50_000, 105)],
    );
    assert!(
        s.claims.payment_evidence(50_000, 110, 2).is_none(),
        "a retraction at a higher as_of must supersede the confirmation"
    );
    assert_eq!(s.claims.confirmed_value_sats(110, 2), 0);
}

#[test]
fn evidence_includes_the_retraction_history_so_a_verifier_reaches_the_same_fold() {
    let p = params();
    let s = state(
        &p,
        vec![
            confirmed(&p, 1, 50_000, 100, 100),
            retracted_for(&p, 1, 50_000, 105),
            confirmed(&p, 1, 50_000, 106, 107),
        ],
    );
    let shown = s.claims.payment_evidence(50_000, 110, 2).unwrap();
    assert_eq!(shown.len(), 3, "proof must carry the whole history for that outpoint");
}

#[test]
fn scanned_to_distinguishes_no_payments_from_never_looked() {
    let p = params();
    let never = BitcoinAddressStateV1::default();
    assert_eq!(never.scanned_to(), None, "nobody has looked");

    let looked = state(&p, vec![scanned(&p, 900)]);
    assert_eq!(looked.scanned_to(), Some(900), "looked, found nothing");
    assert_eq!(looked.claims.confirmed_value_sats(900, 1), 0);
}

#[test]
fn what_is_not_deep_enough_is_pending() {
    let p = params();
    let s = state(&p, vec![confirmed(&p, 1, 50_000, 100, 101), confirmed(&p, 2, 7, 101, 101)]);
    assert_eq!(s.claims.confirmed_value_sats(101, 2), 50_000);
    assert_eq!(s.claims.pending_value_sats(101, 2), 7);
    assert_eq!(s.claims.confirmed_value_sats(101, 1), 50_007);
    assert_eq!(s.claims.pending_value_sats(101, 1), 0);
}

#[test]
fn claim_cap_is_enforced_deterministically() {
    let p = params();
    let (spv, txid, block) = payment_proof(&p.script_pubkey, 1, 1, [5; 32]);
    let claims: Vec<SignedClaim> = (0..(MAX_CLAIMS as u32 + 50))
        .map(|i| {
            SignedClaim::sign(
                &key(1),
                &ClaimBody {
                    script_id: p.script_id(),
                    network: p.network,
                    as_of: anchor(1000 + i),
                    claim: Claim::ConfirmedOutput {
                        outpoint: OutPoint { txid, vout: 0 },
                        value_sats: 1,
                        anchor: BlockAnchor { height: 1, hash: block },
                        spv: spv.clone(),
                    },
                },
            )
            .unwrap()
        })
        .collect();

    let a = state(&p, claims.clone());
    let mut shuffled = claims;
    shuffled.reverse();
    let b = state(&p, shuffled);

    assert!(
        a.claims.claims.len() <= MAX_CLAIMS,
        "count cap not enforced: {}",
        a.claims.claims.len()
    );
    assert!(a.claims.claims.len() < MAX_CLAIMS + 50);
    assert_eq!(
        bytes(&a),
        bytes(&b),
        "the cap must prune to the same subset regardless of insertion order"
    );
    let min_kept = a.claims.claim_bodies().iter().map(|b| b.as_of.height).min().unwrap();
    assert!(min_kept > 1000, "pruning kept stale claims instead of recent ones");
}

/// Claims with a long proof each, which run into the limit on bytes before that on count.
fn fat_claims(p: &BitcoinAddressParameters, n: u32) -> Vec<SignedClaim> {
    let (spv, txid, block) = payment_proof(&p.script_pubkey, 1000, 8, [5; 32]);
    (0..n)
        .map(|i| {
            SignedClaim::sign(
                &key(1),
                &ClaimBody {
                    script_id: p.script_id(),
                    network: p.network,
                    as_of: BlockAnchor {
                        height: 1000 + i,
                        hash: BlockHash([(i % 251) as u8; 32]),
                    },
                    claim: Claim::ConfirmedOutput {
                        outpoint: OutPoint { txid, vout: 0 },
                        value_sats: 1000,
                        anchor: BlockAnchor { height: 999, hash: block },
                        spv: spv.clone(),
                    },
                },
            )
            .unwrap()
        })
        .collect()
}

#[test]
fn state_stays_within_the_byte_budget_however_many_claims_arrive() {
    let p = params();
    let s = state(&p, fat_claims(&p, 400));
    let encoded = to_cbor(&s).unwrap().len();
    assert!(
        encoded <= MAX_CLAIM_BYTES + 64 * 1024,
        "state grew to {encoded} bytes despite the budget"
    );
}

#[test]
fn byte_pruning_is_order_independent() {
    let p = params();
    let claims = fat_claims(&p, 300);
    let mut reversed = claims.clone();
    reversed.reverse();
    let a = state(&p, claims);
    let b = state(&p, reversed);
    assert_eq!(to_cbor(&a).unwrap(), to_cbor(&b).unwrap());
}

#[test]
fn oversized_state_from_a_peer_is_rejected() {
    let p = params();
    let mut s = BitcoinAddressStateV1::default();
    for c in fat_claims(&p, 400) {
        let key = ClaimKey(c.digest());
        s.claims.claims.insert(key, c);
    }
    assert!(s.claims.claims.len() > 1, "fixture did not actually build a large set");
    let total: u128 = (0..s.claims.claims.len())
        .map(|i| ClaimSetV1::claim_cost(s.claims.claims.at(i).1))
        .sum();
    assert!(total > MAX_CLAIM_BYTES as u128);
    let err = s.claims.verify(&p).unwrap_err();
    assert!(err.contains("budget"), "got: {err}");
}

#[test]
fn a_watermark_stands_only_under_its_own_bridge() {
    let p = params();
    let w = scanned(&p, 5);
    let mut s = BitcoinAddressStateV1::default();
    s.claims.scanned.insert(BridgeId([9; 32]), w.clone());
    assert_eq!(
        s.claims.verify(&p).unwrap_err(),
        "scan watermark filed under another bridge's key"
    );
    let mut s = BitcoinAddressStateV1::default();
    s.claims.claims.insert(ClaimKey(w.digest()), w);
    assert_eq!(
        s.claims.verify(&p).unwrap_err(),
        "a ScannedTo watermark must live in `scanned`"
    );
    let c = confirmed(&p, 1, 1, 10, 11);
    let mut s = BitcoinAddressStateV1::default();
    s.claims.scanned.insert(c.bridge, c);
    assert_eq!(
        s.claims.verify(&p).unwrap_err(),
        "`scanned` may only hold ScannedTo watermarks"
    );
}

// ---------------------------------------------------------------------------
// Tip states
// ---------------------------------------------------------------------------

fn tip_params() -> BitcoinTipParameters {
    BitcoinTipParameters {
        network: BitcoinNetwork::Signet,
        trusted_bridges: vec![bridge_of(&key(1))],
    }
}

fn hash_at(h: u32, variant: u8) -> BlockHash {
    let mut b = [variant; 32];
    b[..4].copy_from_slice(&h.to_le_bytes());
    BlockHash(b)
}

fn entry(h: u32, variant: u8) -> SignedTipEntry {
    SignedTipEntry::sign(
        &key(1),
        &TipEntryBody {
            network: BitcoinNetwork::Signet,
            anchor: BlockAnchor { height: h, hash: hash_at(h, variant) },
            prev_hash: hash_at(h.saturating_sub(1), variant),
            block_time: 1_700_000_000 + h,
            tx_count: 100 + h,
            median_time: 1_700_000_000 + h - 300,
        },
    )
    .unwrap()
}

fn tips(p: &BitcoinTipParameters, entries: Vec<SignedTipEntry>) -> BitcoinTipStateV1 {
    BitcoinTipStateV1::from_entries(p, entries).unwrap()
}

fn tip_bytes(s: &BitcoinTipStateV1) -> Vec<u8> {
    to_cbor(s).unwrap()
}

fn merged_tips(
    p: &BitcoinTipParameters,
    a: &BitcoinTipStateV1,
    b: &BitcoinTipStateV1,
) -> BitcoinTipStateV1 {
    let mut s = a.clone();
    s.merge(p, b).unwrap();
    s
}

#[test]
fn merge_laws_hold() {
    let p = tip_params();
    let a = tips(&p, vec![entry(10, 1), entry(11, 1)]);
    let b = tips(&p, vec![entry(12, 1)]);
    let c = tips(&p, vec![entry(13, 1)]);

    assert_eq!(tip_bytes(&merged_tips(&p, &a, &a)), tip_bytes(&a), "idempotent");
    assert_eq!(
        tip_bytes(&merged_tips(&p, &a, &b)),
        tip_bytes(&merged_tips(&p, &b, &a)),
        "commutative"
    );
    assert_eq!(
        tip_bytes(&merged_tips(&p, &merged_tips(&p, &a, &b), &c)),
        tip_bytes(&merged_tips(&p, &a, &merged_tips(&p, &b, &c))),
        "associative"
    );
}

#[test]
fn retention_is_bounded() {
    let p = tip_params();
    let s = tips(&p, (0..(TIP_RETAIN as u32 + 40)).map(|h| entry(h, 1)).collect());
    assert_eq!(s.blocks.blocks.len(), TIP_RETAIN);
    assert_eq!(s.tip_height(), Some(TIP_RETAIN as u32 + 39));
}

#[test]
fn pruned_entries_are_never_re_offered() {
    let p = tip_params();
    let ahead = tips(&p, (100..(100 + TIP_RETAIN as u32)).map(|h| entry(h, 1)).collect());
    let behind = tips(&p, (0..20).map(|h| entry(h, 1)).collect());

    let mut x = ahead.clone();
    x.merge(&p, &behind).unwrap();
    let first = tip_bytes(&x);
    for _ in 0..5 {
        x.merge(&p, &behind).unwrap();
        assert_eq!(tip_bytes(&x), first, "merge must reach a fixed point");
    }
    assert_eq!(x.blocks.blocks.len(), TIP_RETAIN);
}

#[test]
fn tip_state_delta_to_an_up_to_date_peer_is_empty() {
    let p = tip_params();
    let s = tips(&p, (0..30).map(|h| entry(h, 1)).collect());
    let summary = s.blocks.summarize();
    assert!(s.blocks.delta(&summary).is_none());
}

#[test]
fn competing_blocks_at_one_height_resolve_identically_on_every_peer() {
    let p = tip_params();
    let a = tips(&p, vec![entry(50, 1)]);
    let b = tips(&p, vec![entry(50, 2)]);
    assert_eq!(tip_bytes(&merged_tips(&p, &a, &b)), tip_bytes(&merged_tips(&p, &b, &a)));
}

#[test]
fn the_order_of_entries_in_a_delta_does_not_matter() {
    let p = tip_params();
    let entries = || {
        vec![entry(50, 1), entry(51, 3), entry(50, 2), entry(51, 1), entry(51, 2), entry(49, 1)]
    };
    let held = tips(&p, vec![entry(50, 3), entry(48, 1)]);
    let mut results = Vec::new();
    for turn in 0..6 {
        let mut blocks = entries();
        blocks.rotate_left(turn);
        if turn % 2 == 1 {
            blocks.reverse();
        }
        let mut s = held.clone();
        s.blocks.apply_delta(&p, &Some(BlockSummariesDelta { blocks })).unwrap();
        results.push(tip_bytes(&s));
    }
    assert!(results.iter().all(|r| *r == results[0]));
    assert_ne!(results[0], tip_bytes(&held));
}

#[test]
fn an_untrusted_bridge_cannot_publish_a_tip() {
    let p = tip_params();
    let rogue = SignedTipEntry::sign(
        &key(9),
        &TipEntryBody {
            network: BitcoinNetwork::Signet,
            anchor: BlockAnchor { height: 9_999_999, hash: hash_at(9_999_999, 1) },
            prev_hash: hash_at(0, 1),
            block_time: 0,
            tx_count: 0,
            median_time: 0,
        },
    )
    .unwrap();
    assert!(BitcoinTipStateV1::from_entries(&p, vec![rogue]).is_err());
}

#[test]
fn anchor_canonicality_distinguishes_unknown_from_reorged() {
    let p = tip_params();
    let s = tips(&p, (100..120).map(|h| entry(h, 1)).collect());
    assert_eq!(
        s.blocks.anchor_is_canonical(&BlockAnchor { height: 110, hash: hash_at(110, 1) }),
        Some(true)
    );
    assert_eq!(
        s.blocks.anchor_is_canonical(&BlockAnchor { height: 110, hash: hash_at(110, 7) }),
        Some(false)
    );
    assert_eq!(
        s.blocks.anchor_is_canonical(&BlockAnchor { height: 5, hash: hash_at(5, 1) }),
        None
    );
}

#[test]
fn summary_stays_small() {
    let p = tip_params();
    let s = tips(&p, (0..(TIP_RETAIN as u32)).map(|h| entry(h, 1)).collect());
    let sum = to_cbor(&s.blocks.summarize()).unwrap().len();
    let whole = tip_bytes(&s).len();
    assert!(sum < 500, "tip summary was {sum} bytes");
    assert!(sum * 10 < whole, "summary {sum} not much smaller than state {whole}");
}

#[test]
fn the_newest_blocks_come_first() {
    let p = tip_params();
    let s = tips(&p, (0..10).map(|h| entry(h, 1)).collect());
    let heights: Vec<u32> = s.blocks.recent(3).iter().map(|e| e.anchor.height).collect();
    assert_eq!(heights, vec![9, 8, 7]);
    assert_eq!(s.blocks.tip().unwrap().anchor.height, 9);
    assert!(BitcoinTipStateV1::default().blocks.tip().is_none());
}

#[test]
fn nothing_below_a_full_peers_window_is_sent() {
    let p = tip_params();
    let full = tips(&p, (100..(100 + TIP_RETAIN as u32)).map(|h| entry(h, 1)).collect());
    let old = tips(&p, (0..20).map(|h| entry(h, 1)).collect());
    assert!(old.blocks.delta(&full.blocks.summarize()).is_none());
    let d: BlockSummariesDelta = full.blocks.delta(&old.blocks.summarize()).unwrap();
    assert_eq!(d.blocks.len(), TIP_RETAIN);
}

// ---------------------------------------------------------------------------
// Writing things down
// ---------------------------------------------------------------------------

#[test]
fn bytes32_encodes_to_34_cbor_bytes_regardless_of_content() {
    assert_eq!(to_cbor(&Txid([0x00; 32])).unwrap().len(), 34);
    assert_eq!(to_cbor(&Txid([0xff; 32])).unwrap().len(), 34);
}

#[test]
fn all_four_newtypes_use_the_byte_string_encoding() {
    assert_eq!(to_cbor(&Txid([0xab; 32])).unwrap().len(), 34);
    assert_eq!(to_cbor(&BlockHash([0xab; 32])).unwrap().len(), 34);
    assert_eq!(to_cbor(&ScriptId([0xab; 32])).unwrap().len(), 34);
    assert_eq!(to_cbor(&BridgeId([0xab; 32])).unwrap().len(), 34);
}

#[test]
fn roundtrips_as_a_cbor_byte_string() {
    let t = Txid([7; 32]);
    let bytes = to_cbor(&t).unwrap();
    assert_eq!(bytes[0], 0x58, "expected a CBOR byte-string header");
    assert_eq!(from_cbor::<Txid>(&bytes).unwrap(), t);
}

#[test]
fn a_legacy_sequence_encoding_still_decodes() {
    let mut buf = Vec::new();
    ciborium::into_writer(&vec![9u8; 32], &mut buf).unwrap();
    assert_eq!(from_cbor::<Txid>(&buf).unwrap(), Txid([9; 32]));
}

#[test]
fn wrong_length_is_rejected() {
    let mut buf = Vec::new();
    ciborium::into_writer(&vec![1u8; 31], &mut buf).unwrap();
    assert!(from_cbor::<Txid>(&buf).is_err());
}

fn written(v: &Value) -> Vec<u8> {
    let mut buf = Vec::new();
    ciborium::into_writer(v, &mut buf).unwrap();
    buf
}

fn text(s: &str) -> Value {
    Value::Text(s.to_string())
}

fn number(n: u64) -> Value {
    Value::Integer(n.into())
}

fn anchor_value(a: &BlockAnchor) -> Value {
    Value::Map(vec![
        (text("height"), number(a.height as u64)),
        (text("hash"), Value::Bytes(a.hash.0.to_vec())),
    ])
}

#[test]
fn a_claim_is_written_as_maps_of_named_fields() {
    let body = ClaimBody {
        script_id: ScriptId([4; 32]),
        network: BitcoinNetwork::Testnet4,
        as_of: anchor(70_000),
        claim: Claim::MempoolOutput {
            outpoint: OutPoint { txid: Txid([5; 32]), vout: 3 },
            value_sats: 1_000_000,
        },
    };
    let value = Value::Map(vec![
        (text("script_id"), Value::Bytes(vec![4; 32])),
        (text("network"), text("Testnet4")),
        (text("as_of"), anchor_value(&body.as_of)),
        (
            text("claim"),
            Value::Map(vec![(
                text("MempoolOutput"),
                Value::Map(vec![
                    (
                        text("outpoint"),
                        Value::Map(vec![
                            (text("txid"), Value::Bytes(vec![5; 32])),
                            (text("vout"), number(3)),
                        ]),
                    ),
                    (text("value_sats"), number(1_000_000)),
                ]),
            )]),
        ),
    ]);
    assert_eq!(to_cbor(&body).unwrap(), written(&value));
    assert_eq!(from_cbor::<ClaimBody>(&written(&value)).unwrap(), body);
}

#[test]
fn a_watermark_is_written_as_a_bare_name() {
    let p = params();
    let body = scanned_to_body(&p, anchor(9));
    let value = Value::Map(vec![
        (text("script_id"), Value::Bytes(body.script_id.0.to_vec())),
        (text("network"), text("Signet")),
        (text("as_of"), anchor_value(&body.as_of)),
        (text("claim"), text("ScannedTo")),
    ]);
    assert_eq!(to_cbor(&body).unwrap(), written(&value));
}

fn spelled(s: &str) -> Value {
    Value::Bytes(s.as_bytes().to_vec())
}

fn tagged(v: Value) -> Value {
    Value::Tag(55_799, Box::new(v))
}

fn body_value(claim: Value) -> Value {
    Value::Map(vec![
        (text("script_id"), Value::Bytes(vec![4; 32])),
        (text("network"), text("Testnet4")),
        (text("as_of"), anchor_value(&anchor(70_000))),
        (text("claim"), claim),
    ])
}

fn outpoint_value() -> Value {
    Value::Map(vec![(text("txid"), Value::Bytes(vec![5; 32])), (text("vout"), number(3))])
}

#[test]
fn tags_are_looked_past_but_a_tagged_null_is_no_null() {
    assert_eq!(
        from_cbor::<Txid>(&written(&tagged(tagged(Value::Bytes(vec![7; 32]))))).unwrap(),
        Txid([7; 32])
    );
    let read = from_cbor::<ClaimBody>(&written(&tagged(body_value(tagged(text("ScannedTo")))))).unwrap();
    assert_eq!(read.claim, Claim::ScannedTo);
    assert_eq!(read.as_of, anchor(70_000));

    let request = |height: Value| {
        Value::Map(vec![
            (
                text("body"),
                Value::Map(vec![(
                    text("Watch"),
                    Value::Map(vec![
                        (tagged(text("network")), tagged(text("Signet"))),
                        (text("script_pubkey"), Value::Array(vec![tagged(number(81))])),
                        (text("scan_from_height"), height),
                    ]),
                )]),
            ),
            (text("auth"), text("None")),
        ])
    };
    let watch = |hint: Option<u32>| ServiceRequest {
        body: RequestBody::Watch(WatchRequest {
            network: BitcoinNetwork::Signet,
            script_pubkey: vec![81],
            scan_from_height: hint,
        }),
        auth: ServiceAuth::Open,
    };
    assert_eq!(
        from_cbor::<ServiceRequest>(&written(&request(tagged(number(9))))).unwrap(),
        watch(Some(9))
    );
    assert_eq!(from_cbor::<ServiceRequest>(&written(&request(Value::Null))).unwrap(), watch(None));
    assert!(from_cbor::<ServiceRequest>(&written(&request(tagged(Value::Null)))).is_err());
}

#[test]
fn a_name_may_be_the_bytes_of_its_text() {
    let value = Value::Map(vec![
        (spelled("script_id"), Value::Bytes(vec![4; 32])),
        (text("network"), text("Testnet4")),
        (spelled("as_of"), anchor_value(&anchor(70_000))),
        (spelled("unheard of"), number(1)),
        (text("claim"), Value::Map(vec![(
            spelled("Retracted"),
            Value::Map(vec![(spelled("outpoint"), outpoint_value())]),
        )])),
    ]);
    let body = from_cbor::<ClaimBody>(&written(&value)).unwrap();
    assert_eq!(
        body.claim,
        Claim::Retracted { outpoint: OutPoint { txid: Txid([5; 32]), vout: 3 } }
    );
    assert_eq!(body.script_id, ScriptId([4; 32]));

    // The same name in both spellings is the same name twice.
    let twice = Value::Map(vec![
        (spelled("height"), number(1)),
        (text("height"), number(1)),
        (text("hash"), Value::Bytes(vec![0; 32])),
    ]);
    let mut fields = match body_value(text("ScannedTo")) {
        Value::Map(fields) => fields,
        _ => unreachable!(),
    };
    assert!(from_cbor::<ClaimBody>(&written(&Value::Map(fields.clone()))).is_ok());
    fields[2].1 = twice;
    assert!(from_cbor::<ClaimBody>(&written(&Value::Map(fields))).is_err());
    // A choice without content is a text.
    assert!(from_cbor::<ClaimBody>(&written(&body_value(spelled("ScannedTo")))).is_err());
}

#[test]
fn the_parts_of_a_claim_may_be_listed_in_their_order() {
    let listed = |name: &str, parts: Vec<Value>| {
        from_cbor::<ClaimBody>(&written(&body_value(Value::Map(vec![(
            text(name),
            Value::Array(parts),
        )]))))
        .map(|b| b.claim)
    };
    let outpoint = OutPoint { txid: Txid([5; 32]), vout: 3 };
    assert_eq!(
        listed("MempoolOutput", vec![outpoint_value(), number(1_000_000)]),
        Ok(Claim::MempoolOutput { outpoint, value_sats: 1_000_000 })
    );
    assert_eq!(listed("Retracted", vec![outpoint_value()]), Ok(Claim::Retracted { outpoint }));
    assert!(listed("MempoolOutput", vec![outpoint_value()]).is_err());
    assert!(listed("MempoolOutput", vec![number(1_000_000), outpoint_value()]).is_err());
    assert!(listed("Retracted", vec![outpoint_value(), number(1)]).is_err());

    let spv = Value::Map(vec![
        (text("raw_tx"), Value::Array(vec![number(1), number(2)])),
        (text("merkle_branch"), Value::Array(vec![])),
        (text("tx_index"), number(6)),
        (text("header"), Value::Bytes(vec![8; HEADER_LEN])),
        (text("following_headers"), Value::Array(vec![])),
    ]);
    assert_eq!(
        listed(
            "ConfirmedOutput",
            vec![outpoint_value(), number(4), anchor_value(&anchor(11)), spv]
        ),
        Ok(Claim::ConfirmedOutput {
            outpoint,
            value_sats: 4,
            anchor: anchor(11),
            spv: SpvProof {
                raw_tx: vec![1, 2],
                merkle_branch: vec![],
                tx_index: 6,
                header: BlockHeader([8; HEADER_LEN]),
                following_headers: vec![],
            },
        })
    );
}

#[test]
fn every_state_is_read_back_as_it_was_written() {
    let p = params();
    let s = state(&p, vec![confirmed(&p, 1, 50_000, 99, 100), scanned(&p, 100)]);
    assert_eq!(from_cbor::<BitcoinAddressStateV1>(&bytes(&s)).unwrap(), s);
    let tp = tip_params();
    let t = tips(&tp, vec![entry(10, 1), entry(11, 1)]);
    assert_eq!(from_cbor::<BitcoinTipStateV1>(&tip_bytes(&t)).unwrap(), t);
    assert_eq!(from_cbor::<BitcoinAddressParameters>(&to_cbor(&p).unwrap()).unwrap(), p);
    assert_eq!(from_cbor::<BitcoinTipParameters>(&to_cbor(&tp).unwrap()).unwrap(), tp);
    assert!(from_cbor::<BitcoinAddressStateV1>(&tip_bytes(&t)).is_err());
    assert!(from_cbor::<BitcoinAddressStateV1>(b"\xff")
        .unwrap_err()
        .starts_with("CBOR deserialize: "));
}

fn digest_key(n: u8) -> [u8; 32] {
    let mut k = [0u8; 32];
    k[0] = n;
    k[1] = n.wrapping_mul(7);
    k
}

#[test]
fn digest_is_order_independent() {
    let ks = vec![digest_key(1), digest_key(2), digest_key(3), digest_key(200)];
    let a = BucketDigest::from_keys(&ks);
    let b = BucketDigest::from_keys(&ks.iter().rev().copied().collect());
    assert_eq!(a, b);
}

#[test]
fn equal_sets_have_no_differing_buckets() {
    let ks = vec![digest_key(4), digest_key(9), digest_key(88)];
    let a = BucketDigest::from_keys(&ks);
    let b = BucketDigest::from_keys(&ks);
    assert!(a.differing_buckets(&b).is_empty());
}

#[test]
fn an_added_item_shows_up_in_exactly_one_bucket() {
    let base = vec![digest_key(4), digest_key(9)];
    let a = BucketDigest::from_keys(&base);
    let extra = digest_key(77);
    let mut b = a;
    b.insert(&extra);
    let diff = a.differing_buckets(&b);
    assert_eq!(diff, vec![BucketDigest::bucket_of(&extra)]);
}

#[test]
fn bucketed_digest_is_fixed_width_regardless_of_bucket_values() {
    let empty = BucketDigest::default();
    let full = BucketDigest([u64::MAX; BUCKETS]);
    let a = to_cbor(&empty).unwrap();
    let b = to_cbor(&full).unwrap();
    assert_eq!(a.len(), b.len());
    assert_eq!(a.len(), BUCKETS * 8 + 2, "expected a fixed-width byte string");
    assert_eq!(from_cbor::<BucketDigest>(&b).unwrap(), full);
}

#[test]
fn digest_size_is_constant_in_set_size() {
    let small = BucketDigest::from_keys(&vec![digest_key(1)]);
    let manys: Vec<[u8; 32]> = (0..10_000u32)
        .map(|i| {
            let mut k = [0u8; 32];
            k[..4].copy_from_slice(&i.to_le_bytes());
            k
        })
        .collect();
    let big = BucketDigest::from_keys(&manys);
    let a = to_cbor(&small).unwrap().len();
    let b = to_cbor(&big).unwrap().len();
    assert_eq!(a, b, "bucketed digest must not grow with the set");
    assert!(b < 300, "digest encoded to {b} bytes, expected well under 300");
}

// ---------------------------------------------------------------------------
// Requests
// ---------------------------------------------------------------------------

#[test]
fn auth_input_binds_the_request_body() {
    let watch_a = to_cbor(&RequestBody::Watch(WatchRequest {
        network: BitcoinNetwork::Signet,
        script_pubkey: vec![1, 2, 3],
        scan_from_height: None,
    }))
    .unwrap();
    let watch_b = to_cbor(&RequestBody::Watch(WatchRequest {
        network: BitcoinNetwork::Signet,
        script_pubkey: vec![9, 9, 9],
        scan_from_height: None,
    }))
    .unwrap();
    let chal = b"nonce".to_vec();
    assert_ne!(auth_signing_input(&chal, &watch_a), auth_signing_input(&chal, &watch_b));
}

#[test]
fn auth_input_binds_the_challenge() {
    let body = to_cbor(&RequestBody::Status).unwrap();
    assert_ne!(
        auth_signing_input(b"nonce-1", &body),
        auth_signing_input(b"nonce-2", &body)
    );
}

#[test]
fn challenge_length_is_prefixed_so_fields_cannot_be_shifted() {
    let a = auth_signing_input(b"ab", b"cd");
    let b = auth_signing_input(b"a", b"bcd");
    assert_ne!(a, b);
}

#[test]
fn status_request_needs_no_authorization() {
    let req = ServiceRequest {
        body: RequestBody::Status,
        auth: ServiceAuth::Open,
    };
    let round: ServiceRequest = from_cbor(&to_cbor(&req).unwrap()).unwrap();
    assert_eq!(round, req);
}

#[test]
fn a_signed_request_is_read_back_as_it_was_written() {
    let req = ServiceRequest {
        body: RequestBody::Unwatch(WatchRequest {
            network: BitcoinNetwork::Bitcoin,
            script_pubkey: vec![0x51],
            scan_from_height: Some(9),
        }),
        auth: ServiceAuth::GhostKey(GhostKeyAuth {
            certificate_pem: "pem".into(),
            challenge: vec![1, 2],
            signature: vec![3, 4, 5],
        }),
    };
    let round: ServiceRequest = from_cbor(&to_cbor(&req).unwrap()).unwrap();
    assert_eq!(round, req);
}

#[test]
fn what_is_signed_for_a_request_is_prefix_length_challenge_and_body() {
    let mut expected = b"freenet-bitcoin/service-auth/v1\0".to_vec();
    expected.extend_from_slice(&2u32.to_le_bytes());
    expected.extend_from_slice(b"abcd");
    assert_eq!(auth_signing_input(b"ab", b"cd"), expected);
}

#[test]
fn every_error_says_what_is_wrong() {
    for (e, said) in [
        (BridgeError::NotAuthorized { detail: "x".into() }, "not authorized: x"),
        (BridgeError::StaleChallenge, "challenge expired or already used"),
        (BridgeError::NotSynced { tip_height: 7 }, "bridge still syncing (at height 7)"),
        (BridgeError::RejectedByNode { reason: "dust".into() }, "node rejected: dust"),
        (BridgeError::UnsupportedNetwork, "network not served by this bridge"),
        (BridgeError::RateLimited { retry_after_s: 30 }, "rate limited, retry in 30s"),
        (BridgeError::Internal { detail: "y".into() }, "bridge error: y"),
    ] {
        assert_eq!(e.message(), said);
    }
}
