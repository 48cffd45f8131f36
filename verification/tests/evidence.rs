//! Evidence that a payment was made, the claims that carry it, and what they fold to.

use core::cmp::Ordering;

use ed25519_dalek::Signer;
use freenet_bitcoin::fold::{claim_precedence, confirmations, fold_claims_by_outpoint, fold_outpoint_status};
use freenet_bitcoin::signing::{signing_input, tip_domain};
use freenet_bitcoin::spv::{
    meets_target, merkle_root_from_branch, parse_tx_outputs, read_varint, sha256d,
    target_from_bits, verify_header, verify_spv_proof, HEADER_LEN, MAX_FOLLOWING_HEADERS,
    MAX_MERKLE_DEPTH, MAX_RAW_TX,
};
use freenet_bitcoin::{
    to_cbor, BitcoinAddressParameters, BitcoinNetwork, BlockAnchor, BlockHash, BlockHeader,
    BridgeId, Claim, ClaimBody, OutPoint, OutpointStatus, PowFloor, ScriptId, SignedClaim,
    SpvError, SpvProof, SpvVerified, Txid,
};

const EASY: u32 = 0x207f_ffff;

/// A minimal transaction without witness data.
fn make_tx(outputs: &[(u64, Vec<u8>)]) -> Vec<u8> {
    let mut t = Vec::new();
    t.extend_from_slice(&2u32.to_le_bytes());
    t.push(1);
    t.extend_from_slice(&[0u8; 32]);
    t.extend_from_slice(&0u32.to_le_bytes());
    t.push(0);
    t.extend_from_slice(&0xffff_ffffu32.to_le_bytes());
    t.push(outputs.len() as u8);
    for (v, spk) in outputs {
        t.extend_from_slice(&v.to_le_bytes());
        t.push(spk.len() as u8);
        t.extend_from_slice(spk);
    }
    t.extend_from_slice(&0u32.to_le_bytes());
    t
}

fn mine(prev: [u8; 32], merkle_root: [u8; 32], time: u32, bits: u32) -> BlockHeader {
    let target = target_from_bits(bits);
    let mut h = [0u8; HEADER_LEN];
    h[..4].copy_from_slice(&1u32.to_le_bytes());
    h[4..36].copy_from_slice(&prev);
    h[36..68].copy_from_slice(&merkle_root);
    h[68..72].copy_from_slice(&time.to_le_bytes());
    h[72..76].copy_from_slice(&bits.to_le_bytes());
    for nonce in 0u32..u32::MAX {
        h[76..80].copy_from_slice(&nonce.to_le_bytes());
        if meets_target(&sha256d(&h), &target) {
            return BlockHeader(h);
        }
    }
    panic!("no nonce found");
}

fn mine_header(prev: [u8; 32], merkle_root: [u8; 32], bits: u32) -> BlockHeader {
    mine(prev, merkle_root, 1_700_000_000, bits)
}

/// A block with one transaction that pays `script`, under `depth - 1` further blocks.
fn payment_proof(script: &[u8], value: u64, depth: u32, prev: [u8; 32]) -> (SpvProof, Txid, BlockHash) {
    let raw = make_tx(&[(value, script.to_vec())]);
    let txid = Txid(sha256d(&raw));
    let header = mine(prev, txid.0, 1_700_000_000, EASY);
    let block = BlockHash(sha256d(&header.0));
    let mut following = Vec::new();
    let mut last = header;
    for i in 1..depth {
        let h = mine(sha256d(&last.0), [i as u8; 32], 1_700_000_000 + i * 600, EASY);
        following.push(h);
        last = h;
    }
    (
        SpvProof {
            raw_tx: raw,
            merkle_branch: vec![],
            tx_index: 0,
            header,
            following_headers: following,
        },
        txid,
        block,
    )
}

// ---------------------------------------------------------------------------
// Evidence
// ---------------------------------------------------------------------------

struct Fixture {
    proof: SpvProof,
    txid: Txid,
    block: BlockHash,
    script: Vec<u8>,
    value: u64,
}

fn fixture(following: usize) -> Fixture {
    let script = vec![0x00, 0x14, 0xab, 0xcd, 0xef, 0x01];
    let value = 50_000u64;
    let raw = make_tx(&[(value, script.clone())]);
    let txid = Txid(sha256d(&raw));
    let header = mine_header([0u8; 32], txid.0, EASY);
    let block = BlockHash(sha256d(&header.0));
    let mut following_headers = Vec::new();
    let mut prev = header;
    for _ in 0..following {
        let h = mine_header(sha256d(&prev.0), [7u8; 32], EASY);
        following_headers.push(h);
        prev = h;
    }
    Fixture {
        proof: SpvProof {
            raw_tx: raw,
            merkle_branch: vec![],
            tx_index: 0,
            header,
            following_headers,
        },
        txid,
        block,
        script,
        value,
    }
}

fn verify(f: &Fixture) -> Result<SpvVerified, SpvError> {
    verify_spv_proof(&f.proof, &f.txid, 0, &f.script, f.value, &f.block, PowFloor::none())
}

#[test]
fn a_good_proof_verifies_and_reports_depth() {
    let f = fixture(5);
    let v = verify(&f).unwrap();
    assert_eq!(v.value_sats, 50_000);
    assert_eq!(v.depth, 6, "1 containing block + 5 following headers");
}

#[test]
fn a_forged_amount_is_caught_because_the_txid_commits_to_it() {
    let mut f = fixture(1);
    let bigger = make_tx(&[(50_000_000, f.script.clone())]);
    f.proof.raw_tx = bigger;
    assert!(matches!(verify(&f), Err(SpvError::TxidMismatch { .. })));
}

#[test]
fn a_transaction_paying_a_different_script_is_rejected() {
    let script = vec![0x00, 0x14, 0x11, 0x22, 0x33, 0x44];
    let raw = make_tx(&[(50_000, script)]);
    let txid = Txid(sha256d(&raw));
    let header = mine_header([0u8; 32], txid.0, EASY);
    let f = Fixture {
        proof: SpvProof {
            raw_tx: raw,
            merkle_branch: vec![],
            tx_index: 0,
            header,
            following_headers: vec![],
        },
        txid,
        block: BlockHash(sha256d(&header.0)),
        script: vec![0x00, 0x14, 0xab, 0xcd, 0xef, 0x01],
        value: 50_000,
    };
    assert_eq!(verify(&f), Err(SpvError::ScriptMismatch));
}

#[test]
fn a_header_that_does_not_meet_its_target_is_rejected() {
    let mut f = fixture(0);
    f.proof.header.0[72..76].copy_from_slice(&0x1d00_ffffu32.to_le_bytes());
    let tampered = BlockHash(sha256d(&f.proof.header.0));
    let r = verify_spv_proof(&f.proof, &f.txid, 0, &f.script, f.value, &tampered, PowFloor::none());
    assert_eq!(r, Err(SpvError::InsufficientWork));
}

#[test]
fn a_following_header_that_does_not_chain_is_rejected() {
    let mut f = fixture(2);
    f.proof.following_headers[1] = mine_header([0x99u8; 32], [1u8; 32], EASY);
    assert_eq!(verify(&f), Err(SpvError::BrokenChain(1)));
}

#[test]
fn a_header_below_the_work_floor_is_rejected() {
    let f = fixture(0);
    let r = verify_spv_proof(
        &f.proof,
        &f.txid,
        0,
        &f.script,
        f.value,
        &f.block,
        PowFloor(0x1703_98e4),
    );
    assert_eq!(r, Err(SpvError::BelowPowFloor));
}

#[test]
fn merkle_branch_folds_correctly_for_a_non_zero_index() {
    let script = vec![0x51];
    let raw = make_tx(&[(1234, script.clone())]);
    let txid = Txid(sha256d(&raw));
    let sibling = [0x42u8; 32];
    let mut buf = [0u8; 64];
    buf[..32].copy_from_slice(&sibling);
    buf[32..].copy_from_slice(&txid.0);
    let root = sha256d(&buf);

    let header = mine_header([0u8; 32], root, EASY);
    let proof = SpvProof {
        raw_tx: raw,
        merkle_branch: vec![sibling],
        tx_index: 1,
        header,
        following_headers: vec![],
    };
    let v = verify_spv_proof(
        &proof,
        &txid,
        0,
        &script,
        1234,
        &BlockHash(sha256d(&header.0)),
        PowFloor::none(),
    )
    .unwrap();
    assert_eq!(v.depth, 1);
}

#[test]
fn a_wrong_merkle_position_is_rejected() {
    let script = vec![0x51];
    let raw = make_tx(&[(1234, script.clone())]);
    let txid = Txid(sha256d(&raw));
    let sibling = [0x42u8; 32];
    let mut buf = [0u8; 64];
    buf[..32].copy_from_slice(&sibling);
    buf[32..].copy_from_slice(&txid.0);
    let root = sha256d(&buf);
    let header = mine_header([0u8; 32], root, EASY);
    let proof = SpvProof {
        raw_tx: raw,
        merkle_branch: vec![sibling],
        tx_index: 0,
        header,
        following_headers: vec![],
    };
    assert_eq!(
        verify_spv_proof(
            &proof,
            &txid,
            0,
            &script,
            1234,
            &BlockHash(sha256d(&header.0)),
            PowFloor::none()
        ),
        Err(SpvError::MerkleMismatch)
    );
}

#[test]
fn segwit_serialization_is_refused_rather_than_misparsed() {
    let mut raw = make_tx(&[(1, vec![0x51])]);
    raw.insert(4, 0x01);
    raw.insert(4, 0x00);
    assert!(matches!(parse_tx_outputs(&raw), Err(SpvError::MalformedTx(_))));
}

#[test]
fn truncated_transactions_are_rejected_not_panicked_on() {
    let full = make_tx(&[(50_000, vec![0x00, 0x14, 0xaa])]);
    for n in 0..full.len() {
        let _ = parse_tx_outputs(&full[..n]); // must not panic
    }
}

#[test]
fn target_expansion_matches_known_values() {
    let t = target_from_bits(0x1d00_ffff);
    assert_eq!(t[0..4], [0x00, 0x00, 0x00, 0x00]);
    assert_eq!(t[4..6], [0xff, 0xff]);
    assert!(t[6..].iter().all(|b| *b == 0));
}

#[test]
fn varint_forms_all_decode() {
    assert_eq!(read_varint(&[0x10], 0).unwrap(), (0x10, 1));
    assert_eq!(read_varint(&[0xfd, 0x34, 0x12], 0).unwrap(), (0x1234, 3));
    assert_eq!(
        read_varint(&[0xfe, 0x78, 0x56, 0x34, 0x12], 0).unwrap(),
        (0x1234_5678, 5)
    );
    assert!(read_varint(&[0xfd, 0x00], 0).is_err(), "truncated must error");
}

#[test]
fn the_eight_byte_varint_decodes() {
    assert_eq!(
        read_varint(&[0xff, 8, 7, 6, 5, 4, 3, 2, 1], 0).unwrap(),
        (0x0102_0304_0506_0708, 9)
    );
    assert!(read_varint(&[], 0).is_err());
}

#[test]
fn every_output_of_a_transaction_is_read() {
    let raw = make_tx(&[(7, vec![0x51]), (u64::MAX, vec![]), (0, vec![1, 2, 3])]);
    let outs = parse_tx_outputs(&raw).unwrap();
    let plain: Vec<(u64, Vec<u8>)> = outs.into_iter().map(|o| (o.value_sats, o.script_pubkey)).collect();
    assert_eq!(plain, vec![(7, vec![0x51]), (u64::MAX, vec![]), (0, vec![1, 2, 3])]);
}

#[test]
fn a_genuine_header_has_the_hash_that_is_known_of_it() {
    // The first block there is.
    let hex = "0100000000000000000000000000000000000000000000000000000000000000000000003ba3edfd7a7b12b27ac72c3e67768f617fc81bc3888a51323a9fb8aa4b1e5e4a29ab5f49ffff001d1dac2b7c";
    let raw = hex::decode(hex).unwrap();
    let mut h = [0u8; 80];
    h.copy_from_slice(&raw);
    let view = verify_header(&BlockHeader(h), PowFloor::none()).unwrap();
    assert_eq!(
        view.hash.to_display_string(),
        "000000000019d6689c085ae165831e934ff763ae46a2a6c172b3f1b60a8ce26f"
    );
    assert_eq!(view.time, 1_231_006_505);
    assert_eq!(view.prev_hash, BlockHash([0; 32]));
    // One bit elsewhere, and the work is gone.
    h[70] ^= 1;
    assert_eq!(verify_header(&BlockHeader(h), PowFloor::none()), Err(SpvError::InsufficientWork));
}

#[test]
fn each_other_way_a_proof_can_fail_has_its_error() {
    let f = fixture(0);
    let mut big = fixture(0);
    big.proof.raw_tx = vec![0; MAX_RAW_TX + 1];
    assert_eq!(verify(&big), Err(SpvError::TxTooLarge(MAX_RAW_TX + 1)));

    let mut long = fixture(0);
    long.proof.following_headers = vec![f.proof.header; MAX_FOLLOWING_HEADERS + 1];
    assert_eq!(verify(&long), Err(SpvError::TooManyHeaders(MAX_FOLLOWING_HEADERS + 1)));

    let v = verify_spv_proof(&f.proof, &f.txid, 1, &f.script, f.value, &f.block, PowFloor::none());
    assert_eq!(v, Err(SpvError::NoSuchOutput(1)));

    let v = verify_spv_proof(&f.proof, &f.txid, 0, &f.script, 1, &f.block, PowFloor::none());
    assert_eq!(v, Err(SpvError::ValueMismatch { in_tx: 50_000, claimed: 1 }));

    let other = BlockHash([9; 32]);
    let v = verify_spv_proof(&f.proof, &f.txid, 0, &f.script, f.value, &other, PowFloor::none());
    assert_eq!(v, Err(SpvError::BlockHashMismatch));

    let deep = vec![[0u8; 32]; MAX_MERKLE_DEPTH + 1];
    assert!(merkle_root_from_branch(&f.txid, &deep, 0).is_err());
}

// ---------------------------------------------------------------------------
// Signed claims
// ---------------------------------------------------------------------------

fn key(seed: u8) -> [u8; 32] {
    [seed; 32]
}

fn bridge_of(seed: &[u8; 32]) -> BridgeId {
    BridgeId(ed25519_dalek::SigningKey::from_bytes(seed).verifying_key().to_bytes())
}

fn params(bridges: Vec<BridgeId>) -> BitcoinAddressParameters {
    BitcoinAddressParameters {
        network: BitcoinNetwork::Signet,
        script_pubkey: vec![0x00, 0x14, 0xaa, 0xbb],
        trusted_bridges: bridges,
        pow_floor: PowFloor::none(),
    }
}

fn body_for(p: &BitcoinAddressParameters) -> ClaimBody {
    let (spv, txid, block) = payment_proof(&p.script_pubkey, 50_000, 1, [3; 32]);
    ClaimBody {
        script_id: p.script_id(),
        network: p.network,
        as_of: BlockAnchor { height: 500, hash: BlockHash([3; 32]) },
        claim: Claim::ConfirmedOutput {
            outpoint: OutPoint { txid, vout: 0 },
            value_sats: 50_000,
            anchor: BlockAnchor { height: 499, hash: block },
            spv,
        },
    }
}

#[test]
fn roundtrip_verifies() {
    let k = key(1);
    let p = params(vec![bridge_of(&k)]);
    let signed = SignedClaim::sign(&k, &body_for(&p)).unwrap();
    assert_eq!(signed.verify(&p).unwrap(), body_for(&p));
}

#[test]
fn untrusted_bridge_is_rejected() {
    let signer = key(1);
    let other = key(2);
    let p = params(vec![bridge_of(&other)]);
    let signed = SignedClaim::sign(&signer, &body_for(&p)).unwrap();
    let err = signed.verify(&p).unwrap_err();
    assert!(err.contains("untrusted bridge"), "got: {err}");
}

#[test]
fn tampering_with_the_body_fails() {
    let k = key(1);
    let p = params(vec![bridge_of(&k)]);
    let mut signed = SignedClaim::sign(&k, &body_for(&p)).unwrap();
    let idx = signed.body_cbor.len() / 2;
    signed.body_cbor[idx] ^= 0xff;
    assert!(signed.verify(&p).is_err(), "tampered body must not verify");
}

#[test]
fn claim_for_another_script_is_rejected() {
    let k = key(1);
    let p = params(vec![bridge_of(&k)]);
    let mut body = body_for(&p);
    body.script_id = ScriptId([0xff; 32]);
    let signed = SignedClaim::sign(&k, &body).unwrap();
    let err = signed.verify(&p).unwrap_err();
    assert!(err.contains("script_id"), "got: {err}");
}

#[test]
fn claim_from_another_network_is_rejected() {
    let k = key(1);
    let p = params(vec![bridge_of(&k)]);
    let mut body = body_for(&p);
    body.network = BitcoinNetwork::Bitcoin;
    let signed = SignedClaim::sign(&k, &body).unwrap();
    assert!(signed.verify(&p).is_err());
}

#[test]
fn tip_and_claim_signatures_do_not_cross_verify() {
    let k = key(1);
    let bid = bridge_of(&k);
    let p = params(vec![bid]);
    let body = body_for(&p);
    let body_cbor = to_cbor(&body).unwrap();
    let wrong = SignedClaim {
        signature: ed25519_dalek::SigningKey::from_bytes(&k)
            .sign(&signing_input(tip_domain(), &body_cbor))
            .to_bytes()
            .to_vec(),
        body_cbor,
        bridge: bid,
    };
    assert!(wrong.verify(&p).is_err());
}

#[test]
fn a_trusted_bridge_cannot_mint_a_payment_that_never_happened() {
    let k = key(1);
    let p = params(vec![bridge_of(&k)]);
    let (spv, txid, block) = payment_proof(&p.script_pubkey, 1, 1, [3; 32]);
    let lie = ClaimBody {
        script_id: p.script_id(),
        network: p.network,
        as_of: BlockAnchor { height: 500, hash: BlockHash([3; 32]) },
        claim: Claim::ConfirmedOutput {
            outpoint: OutPoint { txid, vout: 0 },
            value_sats: 50_000,
            anchor: BlockAnchor { height: 499, hash: block },
            spv,
        },
    };
    let signed = SignedClaim::sign(&k, &lie).unwrap();
    let err = signed.verify(&p).unwrap_err();
    assert!(err.contains("bitcoin evidence rejected"), "got: {err}");
}

#[test]
fn a_trusted_bridge_cannot_repoint_another_addresss_payment_here() {
    let k = key(1);
    let p = params(vec![bridge_of(&k)]);
    let (spv, txid, block) = payment_proof(&[0x00, 0x14, 0x99, 0x88], 50_000, 1, [4; 32]);
    let lie = ClaimBody {
        script_id: p.script_id(),
        network: p.network,
        as_of: BlockAnchor { height: 500, hash: BlockHash([3; 32]) },
        claim: Claim::ConfirmedOutput {
            outpoint: OutPoint { txid, vout: 0 },
            value_sats: 50_000,
            anchor: BlockAnchor { height: 499, hash: block },
            spv,
        },
    };
    let signed = SignedClaim::sign(&k, &lie).unwrap();
    assert!(signed.verify(&p).is_err());
}

#[test]
fn digest_is_stable_and_distinguishes_claims() {
    let k = key(1);
    let p = params(vec![bridge_of(&k)]);
    let a = SignedClaim::sign(&k, &body_for(&p)).unwrap();
    let b = SignedClaim::sign(&k, &body_for(&p)).unwrap();
    assert_eq!(a.digest(), b.digest(), "same claim -> same digest");

    let mut other_body = body_for(&p);
    other_body.as_of.height = 501;
    let c = SignedClaim::sign(&k, &other_body).unwrap();
    assert_ne!(a.digest(), c.digest());
}

#[test]
fn a_claims_digest_is_the_hash_of_its_parts() {
    let k = key(1);
    let p = params(vec![bridge_of(&k)]);
    let a = SignedClaim::sign(&k, &body_for(&p)).unwrap();
    let mut h = blake3::Hasher::new();
    h.update(b"freenet-bitcoin/claim-digest/v1");
    h.update(&a.bridge.0);
    h.update(&a.body_cbor);
    h.update(&a.signature);
    assert_eq!(a.digest(), *h.finalize().as_bytes());
}

#[test]
fn a_signature_of_the_wrong_length_is_refused() {
    let k = key(1);
    let p = params(vec![bridge_of(&k)]);
    let mut a = SignedClaim::sign(&k, &body_for(&p)).unwrap();
    a.signature.pop();
    assert!(a.verify(&p).is_err());
    a.signature.push(0);
    a.signature.push(0);
    assert!(a.verify(&p).is_err());
}

// ---------------------------------------------------------------------------
// Folding
// ---------------------------------------------------------------------------

fn anchor(h: u32, seed: u8) -> BlockAnchor {
    BlockAnchor { height: h, hash: BlockHash([seed; 32]) }
}

fn claim(as_of_h: u32, c: Claim) -> ClaimBody {
    ClaimBody {
        script_id: ScriptId([7u8; 32]),
        network: BitcoinNetwork::Signet,
        as_of: anchor(as_of_h, as_of_h as u8),
        claim: c,
    }
}

fn op() -> OutPoint {
    OutPoint { txid: Txid([1u8; 32]), vout: 0 }
}

fn any_spv() -> SpvProof {
    payment_proof(&[0x51], 1, 1, [0xaa; 32]).0
}

fn fold(claims: &[&ClaimBody]) -> Option<OutpointStatus> {
    let owned: Vec<ClaimBody> = claims.iter().map(|c| (*c).clone()).collect();
    fold_outpoint_status(&owned)
}

#[test]
fn script_id_separates_networks() {
    let script = [0x00, 0x14, 0xab, 0xcd];
    assert_ne!(
        ScriptId::compute(BitcoinNetwork::Bitcoin, &script),
        ScriptId::compute(BitcoinNetwork::Signet, &script),
        "the same script on two networks must not share a ScriptId, or a \
         signet observation could be replayed as a mainnet one"
    );
}

#[test]
fn fold_prefers_highest_as_of() {
    let seen = claim(
        100,
        Claim::ConfirmedOutput {
            outpoint: op(),
            value_sats: 50_000,
            anchor: anchor(99, 9),
            spv: any_spv(),
        },
    );
    let gone = claim(105, Claim::Retracted { outpoint: op() });
    assert_eq!(fold(&[&seen, &gone]), Some(OutpointStatus::Retracted));
}

#[test]
fn fold_is_order_independent_and_idempotent() {
    let a = claim(100, Claim::MempoolOutput { outpoint: op(), value_sats: 1 });
    let b = claim(
        101,
        Claim::ConfirmedOutput {
            outpoint: op(),
            value_sats: 1,
            anchor: anchor(101, 3),
            spv: any_spv(),
        },
    );
    let c = claim(102, Claim::Retracted { outpoint: op() });

    let forward = fold(&[&a, &b, &c]);
    let backward = fold(&[&c, &b, &a]);
    let dupes = fold(&[&b, &a, &c, &a, &c, &b]);
    assert_eq!(forward, backward);
    assert_eq!(forward, dupes);
}

#[test]
fn reconfirmation_after_reorg_wins_again() {
    let confirmed = claim(
        100,
        Claim::ConfirmedOutput {
            outpoint: op(),
            value_sats: 50_000,
            anchor: anchor(100, 1),
            spv: any_spv(),
        },
    );
    let retracted = claim(101, Claim::Retracted { outpoint: op() });
    let reconfirmed = claim(
        102,
        Claim::ConfirmedOutput {
            outpoint: op(),
            value_sats: 50_000,
            anchor: anchor(101, 2),
            spv: any_spv(),
        },
    );
    assert_eq!(
        fold(&[&confirmed, &retracted, &reconfirmed]),
        Some(OutpointStatus::Confirmed {
            value_sats: 50_000,
            anchor: anchor(101, 2),
            attested_depth: 2,
        })
    );
}

#[test]
fn equal_as_of_height_breaks_ties_deterministically() {
    let low = ClaimBody {
        as_of: anchor(100, 1),
        ..claim(100, Claim::Retracted { outpoint: op() })
    };
    let high = ClaimBody {
        as_of: anchor(100, 9),
        ..claim(
            100,
            Claim::ConfirmedOutput {
                outpoint: op(),
                value_sats: 7,
                anchor: anchor(100, 9),
                spv: any_spv(),
            },
        )
    };
    assert_eq!(fold(&[&low, &high]), fold(&[&high, &low]));
    assert_eq!(fold(&[&low, &high]), Some(OutpointStatus::Retracted));
}

#[test]
fn omitting_a_newer_retraction_cannot_buy_confirmations() {
    let confirmed = claim(
        100,
        Claim::ConfirmedOutput {
            outpoint: op(),
            value_sats: 50_000,
            anchor: anchor(100, 1),
            spv: any_spv(),
        },
    );
    let retracted = claim(105, Claim::Retracted { outpoint: op() });
    assert_eq!(fold(&[&confirmed, &retracted]), Some(OutpointStatus::Retracted));

    let curated = fold(&[&confirmed]).expect("still folds");
    assert_eq!(confirmations(&anchor(100, 1), 109), 10);
    assert_eq!(curated.confirmations_at(109), 1);
    assert_eq!(curated.confirmations_at(1_000_000), 1);
    assert_eq!(curated.confirmed_value_at(109, 2), None);
    assert_eq!(curated.confirmed_value_at(109, 1), Some(50_000));
}

#[test]
fn a_bridge_attested_deep_claim_still_confirms() {
    let deep = claim(
        105,
        Claim::ConfirmedOutput {
            outpoint: op(),
            value_sats: 50_000,
            anchor: anchor(100, 1),
            spv: any_spv(),
        },
    );
    let st = fold(&[&deep]).unwrap();
    assert_eq!(st.confirmations_at(105), 6);
    assert_eq!(st.confirmed_value_at(105, 6), Some(50_000));
    assert_eq!(st.confirmations_at(102), 3);
    assert_eq!(st.confirmed_value_at(102, 6), None);
}

#[test]
fn an_anchor_above_its_own_as_of_attests_no_depth() {
    let impossible = claim(
        90,
        Claim::ConfirmedOutput {
            outpoint: op(),
            value_sats: 1,
            anchor: anchor(100, 1),
            spv: any_spv(),
        },
    );
    let st = fold(&[&impossible]).unwrap();
    assert_eq!(st.confirmations_at(1_000), 0);
    assert_eq!(st.confirmed_value_at(1_000, 1), None);
}

#[test]
fn grouping_by_outpoint_applies_the_same_bound() {
    let a = claim(
        100,
        Claim::ConfirmedOutput {
            outpoint: op(),
            value_sats: 50_000,
            anchor: anchor(100, 1),
            spv: any_spv(),
        },
    );
    let statuses = fold_claims_by_outpoint(&[a]);
    assert_eq!(statuses.len(), 1);
    assert_eq!(statuses.get(&op()).unwrap().confirmations_at(999), 1);
}

#[test]
fn claim_precedence_is_a_total_order_including_scanned_to() {
    let mut set = vec![
        claim(100, Claim::ScannedTo),
        claim(100, Claim::Retracted { outpoint: op() }),
        claim(100, Claim::MempoolOutput { outpoint: op(), value_sats: 7 }),
        claim(100, Claim::MempoolOutput { outpoint: op(), value_sats: 50_000 }),
        claim(101, Claim::ScannedTo),
        claim(99, Claim::Retracted { outpoint: op() }),
    ];
    for value in [1u64, 7, 50_000, u64::MAX] {
        set.push(claim(
            100,
            Claim::ConfirmedOutput {
                outpoint: op(),
                value_sats: value,
                anchor: anchor(100, 1),
                spv: any_spv(),
            },
        ));
    }
    for height in [98u32, 99, 100] {
        set.push(claim(
            100,
            Claim::ConfirmedOutput {
                outpoint: op(),
                value_sats: 7,
                anchor: anchor(height, 2),
                spv: any_spv(),
            },
        ));
    }
    // A watermark whose bytes stand between those of two confirmations that the amount
    // orders the other way round.
    let cycle_c1 = ClaimBody {
        as_of: anchor(100, 1),
        ..claim(
            100,
            Claim::ConfirmedOutput {
                outpoint: op(),
                value_sats: 1,
                anchor: anchor(100, 1),
                spv: any_spv(),
            },
        )
    };
    let cycle_s = ClaimBody {
        as_of: anchor(100, 5),
        ..claim(100, Claim::ScannedTo)
    };
    let cycle_c2 = ClaimBody {
        as_of: anchor(100, 9),
        ..claim(
            100,
            Claim::ConfirmedOutput {
                outpoint: op(),
                value_sats: 50_000,
                anchor: anchor(100, 9),
                spv: any_spv(),
            },
        )
    };
    set.push(cycle_c1);
    set.push(cycle_s);
    set.push(cycle_c2);
    set.push(set[0].clone());

    for a in &set {
        assert_eq!(claim_precedence(a, a), Ordering::Equal, "a comparator must be reflexive");
        for b in &set {
            assert_eq!(
                claim_precedence(a, b),
                claim_precedence(b, a).reverse(),
                "asymmetry broken"
            );
            if claim_precedence(a, b) == Ordering::Equal {
                assert_eq!(
                    to_cbor(a).unwrap(),
                    to_cbor(b).unwrap(),
                    "distinct claims must never compare Equal"
                );
            }
            for c in &set {
                if claim_precedence(a, b) == Ordering::Less && claim_precedence(b, c) == Ordering::Less
                {
                    assert_eq!(
                        claim_precedence(a, c),
                        Ordering::Less,
                        "intransitive: a < b < c but not a < c"
                    );
                }
            }
        }
    }

    let mut ascending = set.iter().collect::<Vec<_>>();
    ascending.sort_by(|x, y| claim_precedence(x, y));
    let winner = *ascending.last().unwrap();
    let mut reversed = set.clone();
    reversed.reverse();
    let real = |v: &Vec<ClaimBody>| -> Vec<ClaimBody> {
        v.iter().filter(|c| !matches!(c.claim, Claim::ScannedTo)).cloned().collect()
    };
    assert_eq!(fold_outpoint_status(&real(&set)), fold_outpoint_status(&real(&reversed)));
    let at_one_height: Vec<&ClaimBody> = set.iter().filter(|c| c.as_of.height == 100).collect();
    let top = at_one_height
        .iter()
        .copied()
        .max_by(|x, y| claim_precedence(x, y))
        .unwrap();
    assert!(
        !matches!(top.claim, Claim::ScannedTo),
        "at one anchor a watermark must never outrank a real assertion"
    );
    assert!(matches!(winner.claim, Claim::ScannedTo));
}

#[test]
fn a_scanned_to_only_claim_set_folds_to_nothing() {
    assert_eq!(fold(&[&claim(100, Claim::ScannedTo)]), None);
}

#[test]
fn contradictory_claims_at_one_anchor_do_not_depend_on_order() {
    let confirmed = claim(
        100,
        Claim::ConfirmedOutput {
            outpoint: op(),
            value_sats: 50_000,
            anchor: anchor(100, 1),
            spv: any_spv(),
        },
    );
    let retracted = claim(100, Claim::Retracted { outpoint: op() });
    assert_eq!(confirmed.as_of, retracted.as_of, "same anchor by construction");
    assert_eq!(
        fold(&[&confirmed, &retracted]),
        fold(&[&retracted, &confirmed]),
        "the winner must be a function of the claim SET, not of the order \
         the submitter chose to hand them over in"
    );
    assert_eq!(fold(&[&confirmed, &retracted]), Some(OutpointStatus::Retracted));
}

#[test]
fn a_fork_hash_never_decides_whether_a_payment_counts() {
    for (retraction_seed, confirmation_seed) in [(1u8, 9u8), (9u8, 1u8)] {
        let retracted = ClaimBody {
            as_of: anchor(100, retraction_seed),
            ..claim(100, Claim::Retracted { outpoint: op() })
        };
        let confirmed = ClaimBody {
            as_of: anchor(100, confirmation_seed),
            ..claim(
                100,
                Claim::ConfirmedOutput {
                    outpoint: op(),
                    value_sats: 50_000,
                    anchor: anchor(100, confirmation_seed),
                    spv: any_spv(),
                },
            )
        };
        assert_eq!(
            fold(&[&retracted, &confirmed]),
            Some(OutpointStatus::Retracted),
            "hash order must not decide a contradiction (seeds {retraction_seed}, \
             {confirmation_seed})"
        );
        assert_eq!(fold(&[&confirmed, &retracted]), fold(&[&retracted, &confirmed]));
    }
}

#[test]
fn a_mempool_sighting_outranks_a_confirmation_at_the_same_anchor() {
    let mempool = claim(100, Claim::MempoolOutput { outpoint: op(), value_sats: 50_000 });
    let confirmed = claim(
        100,
        Claim::ConfirmedOutput {
            outpoint: op(),
            value_sats: 50_000,
            anchor: anchor(100, 1),
            spv: any_spv(),
        },
    );
    assert_eq!(
        fold(&[&confirmed, &mempool]),
        Some(OutpointStatus::Unconfirmed { value_sats: 50_000 })
    );
    assert_eq!(fold(&[&confirmed, &mempool]), fold(&[&mempool, &confirmed]));
}

#[test]
fn contradictory_amounts_at_one_anchor_settle_on_the_smaller() {
    let big = claim(
        100,
        Claim::ConfirmedOutput {
            outpoint: op(),
            value_sats: 50_000,
            anchor: anchor(100, 1),
            spv: any_spv(),
        },
    );
    let small = claim(
        100,
        Claim::ConfirmedOutput {
            outpoint: op(),
            value_sats: 7,
            anchor: anchor(100, 1),
            spv: any_spv(),
        },
    );
    for order in [[&big, &small], [&small, &big]] {
        assert_eq!(
            fold(&order),
            Some(OutpointStatus::Confirmed {
                value_sats: 7,
                anchor: anchor(100, 1),
                attested_depth: 1,
            })
        );
    }
}

#[test]
fn a_later_confirmation_still_beats_an_earlier_retraction() {
    let retracted = claim(100, Claim::Retracted { outpoint: op() });
    let reconfirmed = claim(
        101,
        Claim::ConfirmedOutput {
            outpoint: op(),
            value_sats: 50_000,
            anchor: anchor(101, 2),
            spv: any_spv(),
        },
    );
    assert!(matches!(
        fold(&[&retracted, &reconfirmed]),
        Some(OutpointStatus::Confirmed { .. })
    ));
}

#[test]
fn every_permutation_of_a_claim_set_folds_to_one_answer() {
    let claims = [
        claim(100, Claim::MempoolOutput { outpoint: op(), value_sats: 50_000 }),
        claim(101, Claim::Retracted { outpoint: op() }),
        claim(
            101,
            Claim::ConfirmedOutput {
                outpoint: op(),
                value_sats: 50_000,
                anchor: anchor(101, 3),
                spv: any_spv(),
            },
        ),
        ClaimBody {
            as_of: anchor(101, 50),
            ..claim(
                101,
                Claim::ConfirmedOutput {
                    outpoint: op(),
                    value_sats: 49_999,
                    anchor: anchor(100, 50),
                    spv: any_spv(),
                },
            )
        },
        claim(99, Claim::Retracted { outpoint: op() }),
        claim(1_000, Claim::ScannedTo),
    ];

    let expected = fold_outpoint_status(&claims);
    assert!(expected.is_some());
    let mut seen = 0usize;
    permutations(claims.len(), &mut |order| {
        let permuted: Vec<&ClaimBody> = order.iter().map(|&i| &claims[i]).collect();
        assert_eq!(fold(&permuted), expected, "order {order:?} disagreed");
        let mut doubled = permuted.clone();
        doubled.extend(permuted.iter().copied());
        assert_eq!(fold(&doubled), expected);
        seen += 1;
    });
    assert_eq!(seen, 720, "6! orderings");
}

fn permutations(n: usize, f: &mut impl FnMut(&[usize])) {
    let mut a: Vec<usize> = (0..n).collect();
    let mut c = vec![0usize; n];
    f(&a);
    let mut i = 0;
    while i < n {
        if c[i] < i {
            a.swap(if i % 2 == 0 { 0 } else { c[i] }, i);
            f(&a);
            c[i] += 1;
            i = 0;
        } else {
            c[i] = 0;
            i += 1;
        }
    }
}

#[test]
fn txid_display_is_reversed_and_roundtrips() {
    let mut raw = [0u8; 32];
    raw[0] = 0xde;
    raw[31] = 0xad;
    let t = Txid(raw);
    let s = t.to_display_string();
    assert!(s.starts_with("ad"), "display order must be reversed: {s}");
    assert_eq!(Txid::from_display_string(&s).unwrap(), t);
}

#[test]
fn confirmations_saturate_on_stale_tip() {
    assert_eq!(confirmations(&anchor(100, 1), 99), 0);
    assert_eq!(confirmations(&anchor(100, 1), 100), 1);
    assert_eq!(confirmations(&anchor(100, 1), 105), 6);
}

#[test]
fn display_texts_are_trimmed_and_checked() {
    let t = Txid([0xab; 32]);
    let text = format!("\u{2003}\n {}\t\u{a0}", t.to_display_string());
    assert_eq!(Txid::from_display_string(&text).unwrap(), t);
    assert_eq!(Txid::from_display_string("abcd").unwrap_err(), "txid must be 32 bytes");
    assert!(Txid::from_display_string("zz").unwrap_err().starts_with("txid not hex: "));
    assert!(BlockHash::from_display_string("z").unwrap_err().starts_with("block hash not hex: "));
}

#[test]
fn bridge_ids_are_base58_and_roundtrip() {
    let id = BridgeId([7; 32]);
    assert_eq!(id.to_bs58(), bs58::encode([7u8; 32]).into_string());
    assert_eq!(BridgeId::from_bs58(&format!(" {} ", id.to_bs58())).unwrap(), id);
    assert_eq!(BridgeId::from_bs58("2g").unwrap_err(), "bridge id must be 32 bytes");
    assert!(BridgeId::from_bs58("0OIl").unwrap_err().starts_with("bridge id not base58: "));
}

#[test]
fn a_networks_other_names_are_understood() {
    for (text, net) in [
        ("bitcoin", BitcoinNetwork::Bitcoin),
        ("main", BitcoinNetwork::Bitcoin),
        ("mainnet", BitcoinNetwork::Bitcoin),
        ("testnet4", BitcoinNetwork::Testnet4),
        ("testnet", BitcoinNetwork::Testnet4),
        ("signet", BitcoinNetwork::Signet),
        ("regtest", BitcoinNetwork::Regtest),
    ] {
        assert_eq!(text.parse::<BitcoinNetwork>().unwrap(), net);
    }
    assert_eq!(
        "Signet".parse::<BitcoinNetwork>().unwrap_err(),
        "unknown bitcoin network: Signet"
    );
}
