//! Following the chain, publishing what is seen, and answering requests.

use ciborium::value::Value;
use ed25519_dalek::{Signer as Signs, SigningKey, Verifier};
use freenet_bitcoin::auth::{
    authorize, fingerprint, new_challenge, Authorized, Challenges, CHALLENGE_LEN,
    CHALLENGE_TTL_MS,
};
use freenet_bitcoin::chain::{
    header_range, merkle_branch, merkle_root, relay_outcome, scan_block, take_apart,
    transaction_id, witness_stripped, ForkWalk,
};
use freenet_bitcoin::config::{
    default_deep_confirmations, default_demo_backfill, default_reorg_depth, AuthPolicy,
    BridgeConfig, NetworkConfig, RpcAuth,
};
use freenet_bitcoin::freenet::{
    after_update, classify_get_reply, classify_probe_reply, classify_update_reply, get_outcome, is_not_found,
    link_unusable, publish_claims, publish_tip, put_answered, put_outcome,
    reply_is_about_the_node, AfterUpdate, ContractWasm, Dial, ErrorKind, GetReply, Link, LinkUnusable,
    NodeError, NodeReply, ProbeReply, UpdateReply, RECONNECT_BACKOFF_MAX, RECONNECT_BACKOFF_MIN,
};
use freenet_bitcoin::generation::{pointer_place, pointer_update, read_published, Artifact};
use freenet_bitcoin::migrate::{
    describe, probe_ids, AddressOps, MigrationPacer, TipOps, Walk, WalkOutcome, SEAL_AFTER_WALKS,
    SEAL_SPACING, WALK_INTERVAL, WARMUP,
};
use freenet_bitcoin::observer::{
    ClaimsByScript, DeepSource, Observer, OrphanedOutpoint, ReorgStep,
};
use freenet_bitcoin::report::{parse_address, report, shown_tip, verify_address, ReportFault, Settlement};
use freenet_bitcoin::round::{
    backfill_from, forward, fresh_claims, mark_claims_if_published, pointer_wait, scan_ceiling,
    scan_set, seed_demo, state_digest, walk_is_due, walked, Carried, Forward, Outbox, Round, Sent,
};
use freenet_bitcoin::service::{challenge, relay_reply, status_code, Next, ServiceState};
use freenet_bitcoin::signer::Signer;
use freenet_bitcoin::spv::{
    meets_target, merkle_root_from_branch, parse_tx_outputs, sha256d, target_from_bits, TxOutput,
    HEADER_LEN,
};
use freenet_bitcoin::store::{Store, WatchedScript};
use freenet_bitcoin::table::Table;
use freenet_bitcoin::transaction::{strip, TxFields, TxInput};
use freenet_bitcoin::{
    auth_signing_input, fold_outpoint_status, from_cbor, to_cbor, BitcoinAddressParameters,
    BitcoinAddressStateV1, BitcoinNetwork, BitcoinTipStateV1, BlockAnchor, BlockHash, BlockHeader,
    BridgeError, BridgeId, BroadcastRequest, Claim, ClaimBody, GhostKeyAuth, OutPoint,
    OutpointStatus, PowFloor, RequestBody, ScriptId, ServiceAuth, ServiceRequest, ServiceResponse,
    SignedClaim, SpvProof, Txid, WatchRequest,
};
use ghostkey_lib::armorable::Armorable;

const EASY: u32 = 0x207f_ffff;

fn build_tx(outputs: &[(u64, Vec<u8>)]) -> Vec<u8> {
    let mut t = Vec::new();
    t.extend_from_slice(&2u32.to_le_bytes());
    t.push(1);
    t.extend_from_slice(&[0u8; 32]);
    t.extend_from_slice(&0u32.to_le_bytes());
    t.push(0);
    t.extend_from_slice(&0xffff_ffffu32.to_le_bytes());
    t.push(outputs.len() as u8);
    for (v, spk) in outputs {
        t.extend_from_slice(&v.to_le_bytes());
        t.push(spk.len() as u8);
        t.extend_from_slice(spk);
    }
    t.extend_from_slice(&0u32.to_le_bytes());
    t
}

fn mine(prev: [u8; 32], root: [u8; 32], time: u32, bits: u32) -> BlockHeader {
    let target = target_from_bits(bits);
    let mut h = [0u8; HEADER_LEN];
    h[..4].copy_from_slice(&1u32.to_le_bytes());
    h[4..36].copy_from_slice(&prev);
    h[36..68].copy_from_slice(&root);
    h[68..72].copy_from_slice(&time.to_le_bytes());
    h[72..76].copy_from_slice(&bits.to_le_bytes());
    for nonce in 0u32..u32::MAX {
        h[76..80].copy_from_slice(&nonce.to_le_bytes());
        if meets_target(&sha256d(&h), &target) {
            return BlockHeader(h);
        }
    }
    panic!("no nonce found");
}

fn payment_proof(script: &[u8], value: u64, depth: u32, prev: [u8; 32]) -> (SpvProof, Txid, BlockHash) {
    let raw = build_tx(&[(value, script.to_vec())]);
    let txid = Txid(sha256d(&raw));
    let header = mine(prev, txid.0, 1_700_000_000, EASY);
    let block = BlockHash(sha256d(&header.0));
    let mut following = Vec::new();
    let mut last = header;
    for i in 1..depth {
        let h = mine(sha256d(&last.0), [i as u8; 32], 1_700_000_000 + i * 600, EASY);
        following.push(h);
        last = h;
    }
    (
        SpvProof {
            raw_tx: raw,
            merkle_branch: vec![],
            tx_index: 0,
            header,
            following_headers: following,
        },
        txid,
        block,
    )
}

/// A block of these transactions: its bytes, its header and its hash.
fn block_of(prev: [u8; 32], time: u32, txs: &[Vec<u8>]) -> (Vec<u8>, BlockHeader, BlockHash) {
    let ids: Vec<[u8; 32]> = txs.iter().map(|t| sha256d(t)).collect();
    let header = mine(prev, merkle_root(&ids), time, EASY);
    let mut raw = header.0.to_vec();
    raw.push(txs.len() as u8);
    for t in txs {
        raw.extend_from_slice(t);
    }
    (raw, header, BlockHash(sha256d(&header.0)))
}

fn network_config() -> NetworkConfig {
    NetworkConfig {
        network: BitcoinNetwork::Signet,
        rpc_url: "http://127.0.0.1:1".into(),
        rpc_cookie_path: None,
        rpc_user: Some("u".into()),
        rpc_password: Some("p".into()),
        deep_confirmations: 6,
        max_reorg_depth: 100,
        always_watch: Vec::new(),
        demo_backfill_blocks: 144,
    }
}

fn observer() -> Observer {
    Observer::new(network_config())
}

// ---------------------------------------------------------------------------
// The chain
// ---------------------------------------------------------------------------

fn txid(n: u8) -> [u8; 32] {
    let mut t = [0u8; 32];
    t[0] = n;
    t[31] = n.wrapping_mul(3);
    t
}

#[test]
fn every_branch_folds_back_to_the_root_for_all_tree_sizes() {
    for n in 1..=17usize {
        let txids: Vec<[u8; 32]> = (0..n).map(|i| txid(i as u8)).collect();
        let root = merkle_root(&txids);
        for i in 0..n {
            let branch = merkle_branch(&txids, i);
            let folded =
                merkle_root_from_branch(&Txid(txids[i]), &branch, i as u32).unwrap();
            assert_eq!(
                folded, root,
                "tree of {n} txids, position {i}: branch did not fold to the root"
            );
        }
    }
}

#[test]
fn a_single_transaction_block_needs_no_branch() {
    let txids = vec![txid(1)];
    assert!(merkle_branch(&txids, 0).is_empty());
    assert_eq!(merkle_root(&txids), txid(1));
}

#[test]
fn the_doubled_last_transaction_has_a_branch_of_its_own() {
    let txids = vec![txid(1), txid(2), txid(3)];
    let branch = merkle_branch(&txids, 3);
    let mut pair = [0u8; 64];
    pair[..32].copy_from_slice(&txids[0]);
    pair[32..].copy_from_slice(&txids[1]);
    assert_eq!(branch, vec![txids[2], sha256d(&pair)]);
    let folded = merkle_root_from_branch(&Txid(txids[2]), &branch, 3).unwrap();
    assert_eq!(folded, merkle_root(&txids));
    assert!(merkle_branch(&vec![], 7).is_empty());
}

#[test]
fn a_branch_from_the_wrong_position_does_not_fold_to_the_root() {
    let txids: Vec<[u8; 32]> = (0..8).map(|i| txid(i as u8)).collect();
    let root = merkle_root(&txids);
    let branch = merkle_branch(&txids, 3);
    let folded = merkle_root_from_branch(&Txid(txids[3]), &branch, 4).unwrap();
    assert_ne!(folded, root);
}

#[test]
fn stripping_witness_data_preserves_the_txid() {
    let tx = bitcoin::Transaction {
        version: bitcoin::transaction::Version::TWO,
        lock_time: bitcoin::absolute::LockTime::ZERO,
        input: vec![bitcoin::TxIn {
            witness: bitcoin::Witness::from_slice(&[vec![0xab; 72], vec![0xcd; 33]]),
            ..Default::default()
        }],
        output: vec![bitcoin::TxOut {
            value: bitcoin::Amount::from_sat(50_000),
            script_pubkey: bitcoin::ScriptBuf::from_bytes(vec![0x00, 0x14, 0xaa, 0xbb]),
        }],
    };
    let raw = bitcoin::consensus::serialize(&tx);
    let stripped = witness_stripped(&raw).unwrap();
    assert_ne!(stripped, raw);
    let id = *AsRef::<[u8; 32]>::as_ref(&tx.compute_txid());
    assert_eq!(
        sha256d(&stripped),
        id,
        "the stripped serialization must hash to the txid"
    );
    let outs = parse_tx_outputs(&stripped).unwrap();
    assert_eq!(outs.len(), 1);
    assert_eq!(outs[0].value_sats, 50_000);
    assert_eq!(transaction_id(&raw).unwrap(), Txid(id));
    assert_eq!(
        transaction_id(b"nonsense").unwrap_err(),
        "transaction bytes are not a valid Bitcoin transaction"
    );
}

fn fields(inputs: Vec<TxInput>, scripts: &[Vec<u8>]) -> TxFields {
    TxFields {
        version: -2,
        inputs,
        outputs: scripts
            .iter()
            .enumerate()
            .map(|(i, s)| TxOutput { value_sats: 1 << (5 * i), script_pubkey: s.clone() })
            .collect(),
        lock_time: 0x0102_0304,
    }
}

fn spent(n: u8, witness: Vec<Vec<u8>>) -> TxInput {
    TxInput {
        prev_txid: [n; 32],
        prev_index: n as u32 + 0x0102_0300,
        script_sig: vec![n; n as usize],
        sequence: 0xffff_fffe,
        witness,
    }
}

#[test]
fn a_transaction_is_written_without_its_witness_and_named_by_it() {
    let scripts = vec![vec![0x51], vec![0x52; 300], Vec::new()];
    let mut tx = fields(vec![spent(3, vec![vec![7; 70], Vec::new()]), spent(200, Vec::new())], &scripts);
    let mut raw = (-2i32).to_le_bytes().to_vec();
    raw.push(2);
    for (n, len) in [(3u8, vec![3u8]), (200, vec![200])] {
        raw.extend_from_slice(&[n; 32]);
        raw.extend_from_slice(&(n as u32 + 0x0102_0300).to_le_bytes());
        raw.extend_from_slice(&len);
        raw.extend_from_slice(&vec![n; n as usize]);
        raw.extend_from_slice(&0xffff_fffeu32.to_le_bytes());
    }
    raw.push(3);
    for (i, s) in scripts.iter().enumerate() {
        raw.extend_from_slice(&(1u64 << (5 * i)).to_le_bytes());
        if s.len() < 0xfd {
            raw.push(s.len() as u8);
        } else {
            raw.push(0xfd);
            raw.extend_from_slice(&(s.len() as u16).to_le_bytes());
        }
        raw.extend_from_slice(s);
    }
    raw.extend_from_slice(&0x0102_0304u32.to_le_bytes());
    strip(&mut tx);
    assert!(tx.inputs.iter().all(|i| i.witness.is_empty()));
    let parts = take_apart(fields(
        vec![spent(3, vec![vec![7; 70], Vec::new()]), spent(200, Vec::new())],
        &scripts,
    ));
    assert_eq!(parts.raw_tx, raw);
    assert_eq!(parts.txid, sha256d(&raw));
    assert_eq!(parts.inputs, 2);
    assert_eq!(parse_tx_outputs(&raw).unwrap(), parts.outputs);
    assert_eq!(transaction_id(&raw).unwrap(), Txid(parts.txid));
    assert_eq!(witness_stripped(&raw).unwrap(), raw);
}

#[test]
fn a_transaction_without_inputs_is_written_with_the_marker() {
    let parts = take_apart(fields(Vec::new(), &[vec![0x51]]));
    let mut body = vec![0, 1];
    body.extend_from_slice(&1u64.to_le_bytes());
    body.extend_from_slice(&[1, 0x51, 4, 3, 2, 1]);
    let mut raw = (-2i32).to_le_bytes().to_vec();
    raw.extend_from_slice(&[0, 1]);
    raw.extend_from_slice(&body);
    assert_eq!(parts.raw_tx, raw);
    let mut legacy = (-2i32).to_le_bytes().to_vec();
    legacy.extend_from_slice(&body);
    assert_eq!(parts.txid, sha256d(&legacy));
    assert!(parse_tx_outputs(&raw).is_err());
}

#[test]
fn many_outputs_and_long_scripts_are_parsed_back() {
    let scripts: Vec<Vec<u8>> = (0..300usize).map(|i| vec![i as u8; i]).collect();
    let mut tx = fields(vec![spent(1, Vec::new())], &[]);
    for (i, s) in scripts.iter().enumerate() {
        tx.outputs.push(TxOutput { value_sats: i as u64 * 1_000_000_007, script_pubkey: s.clone() });
    }
    let expected = tx.outputs.clone();
    let parts = take_apart(tx);
    assert!(parts.raw_tx.len() > 40_000);
    assert_eq!(parse_tx_outputs(&parts.raw_tx).unwrap(), expected);
}

#[test]
fn a_payment_beside_a_transaction_too_large_for_evidence_is_accepted() {
    let large = take_apart(fields(vec![spent(9, Vec::new())], &[vec![0x6a; 70_000]])).raw_tx;
    assert!(parse_tx_outputs(&large).is_err());
    let (raw, _, hash) = block_of([1; 32], 1_700_000_000, &[large, build_tx(&[(7, vec![0x51])])]);
    let (obs, mut store) = (observer(), Store::open_in_memory());
    let signer = Signer::from_seed([1; 32]);
    let block = scan_block(&raw, &hash, 100, None, &vec![vec![0x51]]).unwrap();
    assert_eq!(block.found.len(), 1);
    let (mut claims, mut confirmed) = (ClaimsByScript::new(), Vec::new());
    obs.claims_from_block(
        &mut store,
        signer.key(),
        &block,
        &block.anchor,
        &mut claims,
        &mut confirmed,
    );
    let params = obs.address_params(&[0x51], signer.bridge_id());
    claims.about(&[0x51])[0].verify(&params).unwrap();
}

#[test]
fn fork_point_is_the_highest_agreeing_height() {
    let recorded = |h: u32| Some(BlockHash([h as u8; 32]));
    let node = |h: u32| {
        if h <= 97 {
            BlockHash([h as u8; 32])
        } else {
            BlockHash([0xff; 32])
        }
    };
    let mut walk = ForkWalk::new(100, 100);
    let fork = loop {
        let h = walk.height;
        if let Some(at) = walk.step(recorded(h), node(h)) {
            break at;
        }
    };
    assert_eq!(fork, 97);
}

#[test]
fn a_fork_deeper_than_the_walk_ends_at_its_floor() {
    let mut walk = ForkWalk::new(100, 3);
    let ours = Some(BlockHash([1; 32]));
    let theirs = BlockHash([2; 32]);
    assert_eq!(walk.step(ours, theirs), None);
    assert_eq!(walk.step(ours, theirs), None);
    assert_eq!(walk.step(ours, theirs), None);
    assert_eq!(walk.step(ours, theirs), Some(97));
    let mut walk = ForkWalk::new(100, 3);
    assert_eq!(walk.step(None, theirs), Some(100));
}

#[test]
fn a_block_is_scanned_for_every_output_that_pays_a_watched_script() {
    let a = build_tx(&[(1, vec![0x51]), (2, vec![0x52])]);
    let b = build_tx(&[(3, vec![0x53]), (4, vec![0x51])]);
    let c = build_tx(&[(5, vec![0x54])]);
    let (raw, header, hash) = block_of([9; 32], 1_700_000_123, &[a, b.clone(), c]);
    let block = scan_block(&raw, &hash, 77, None, &vec![vec![0x51]]).unwrap();
    assert_eq!(block.anchor, BlockAnchor { height: 77, hash });
    assert_eq!(block.prev_hash, BlockHash([9; 32]));
    assert_eq!(block.header, header);
    assert_eq!((block.time, block.median_time, block.tx_count), (1_700_000_123, 1_700_000_123, 3));
    let found: Vec<(u32, u32, u64)> =
        block.found.iter().map(|f| (f.tx_index, f.vout, f.value_sats)).collect();
    assert_eq!(found, vec![(0, 0, 1), (1, 1, 4)]);
    assert_eq!(block.found[1].txid, Txid(sha256d(&b)));
    for f in &block.found {
        assert!(freenet_bitcoin::spv::verify_spv_proof(
            &SpvProof {
                raw_tx: f.raw_tx.clone(),
                merkle_branch: f.merkle_branch.clone(),
                tx_index: f.tx_index,
                header: block.header,
                following_headers: vec![],
            },
            &f.txid,
            f.vout,
            &[0x51],
            f.value_sats,
            &hash,
            PowFloor::none(),
        )
        .is_ok());
    }
    assert!(scan_block(&raw[..100], &hash, 77, None, &vec![]).is_err());
}

#[test]
fn the_headers_of_a_depth_end_below_the_tip() {
    assert_eq!(header_range(100, 3, 102), Some((100, 102)));
    assert_eq!(header_range(100, 3, 101), None);
    assert_eq!(header_range(100, 1, 100), Some((100, 100)));
}

#[test]
fn relaying_a_transaction_twice_is_no_error() {
    let id = Txid([3; 32]);
    assert_eq!(relay_outcome(id, Ok(())), Ok((id, false)));
    for known in ["txn-already-known", "x txn-already-in-mempool y", "Transaction already in block chain"] {
        assert_eq!(relay_outcome(id, Err(known.into())), Ok((id, true)));
    }
    assert_eq!(relay_outcome(id, Err("dust".into())), Err("dust".to_string()));
}

// ---------------------------------------------------------------------------
// Authorization
// ---------------------------------------------------------------------------

fn body() -> Vec<u8> {
    to_cbor(&RequestBody::Watch(WatchRequest {
        network: BitcoinNetwork::Signet,
        script_pubkey: vec![1, 2, 3],
        scan_from_height: None,
    }))
    .unwrap()
}

#[test]
fn an_open_bridge_serves_a_caller_with_no_credential() {
    let mut challenges = Challenges::new();
    assert_eq!(
        authorize(&AuthPolicy::Open, &ServiceAuth::Open, &body(), &mut challenges, 0).unwrap(),
        Authorized::Open
    );
}

#[test]
fn a_ghost_key_bridge_refuses_a_caller_with_no_credential() {
    let mut challenges = Challenges::new();
    let policy = AuthPolicy::GhostKey {
        master_verifying_key_b64: None,
    };
    assert!(matches!(
        authorize(&policy, &ServiceAuth::Open, &body(), &mut challenges, 0),
        Err(BridgeError::NotAuthorized { .. })
    ));
}

#[test]
fn a_challenge_that_was_never_issued_is_refused() {
    let mut challenges = Challenges::new();
    let policy = AuthPolicy::GhostKey {
        master_verifying_key_b64: None,
    };
    let gk = GhostKeyAuth {
        certificate_pem: "not a certificate".into(),
        challenge: b"never issued".to_vec(),
        signature: vec![0u8; 64],
    };
    assert_eq!(
        authorize(&policy, &ServiceAuth::GhostKey(gk), &body(), &mut challenges, 0),
        Err(BridgeError::StaleChallenge)
    );
}

#[test]
fn a_challenge_is_consumed_even_when_the_certificate_is_bad() {
    let mut challenges = Challenges::new();
    challenges.issue_challenge(b"c1", 0);
    let policy = AuthPolicy::GhostKey {
        master_verifying_key_b64: None,
    };
    let gk = GhostKeyAuth {
        certificate_pem: "garbage".into(),
        challenge: b"c1".to_vec(),
        signature: vec![0u8; 64],
    };
    let first = authorize(
        &policy,
        &ServiceAuth::GhostKey(gk.clone()),
        &body(),
        &mut challenges,
        0,
    );
    assert!(matches!(first, Err(BridgeError::NotAuthorized { .. })));
    let second = authorize(&policy, &ServiceAuth::GhostKey(gk), &body(), &mut challenges, 0);
    assert_eq!(
        second,
        Err(BridgeError::StaleChallenge),
        "the challenge must be spent by the first attempt"
    );
}

#[test]
fn the_denial_message_does_not_reveal_why() {
    let mut challenges = Challenges::new();
    challenges.issue_challenge(b"c1", 0);
    let policy = AuthPolicy::GhostKey {
        master_verifying_key_b64: None,
    };
    let gk = GhostKeyAuth {
        certificate_pem: "garbage".into(),
        challenge: b"c1".to_vec(),
        signature: vec![0u8; 64],
    };
    let Err(BridgeError::NotAuthorized { detail }) =
        authorize(&policy, &ServiceAuth::GhostKey(gk), &body(), &mut challenges, 0)
    else {
        panic!("expected NotAuthorized");
    };
    assert!(!detail.to_lowercase().contains("parse"));
    assert!(!detail.to_lowercase().contains("expired"));
    assert!(!detail.to_lowercase().contains("notary"));
}

#[test]
fn challenges_are_unpredictable_and_long_enough() {
    let a = new_challenge();
    assert_eq!(a.len(), CHALLENGE_LEN);
    assert_ne!(a, new_challenge());
}

#[test]
fn a_signature_for_one_request_does_not_authorize_another() {
    let sk = SigningKey::from_bytes(&[9; 32]);
    let challenge = new_challenge();
    let body_a = body();
    let body_b = to_cbor(&RequestBody::Watch(WatchRequest {
        network: BitcoinNetwork::Signet,
        script_pubkey: vec![9, 9, 9],
        scan_from_height: None,
    }))
    .unwrap();

    let sig = sk.sign(&auth_signing_input(&challenge, &body_a));
    assert!(sk
        .verifying_key()
        .verify(&auth_signing_input(&challenge, &body_a), &sig)
        .is_ok());
    assert!(
        sk.verifying_key()
            .verify(&auth_signing_input(&challenge, &body_b), &sig)
            .is_err(),
        "a captured authorization must not transfer to another request"
    );
}

#[test]
fn fingerprints_are_stable_and_distinguish_keys() {
    let a = SigningKey::from_bytes(&[1; 32]).verifying_key().to_bytes();
    let b = SigningKey::from_bytes(&[2; 32]).verifying_key().to_bytes();
    assert_eq!(fingerprint(&a), fingerprint(&a));
    assert_ne!(fingerprint(&a), fingerprint(&b));
}

/// A Ghost Key under a master key of our own: the policy, the certificate and the key.
fn ghost_key() -> (AuthPolicy, String, SigningKey) {
    let master = SigningKey::from_bytes(&[5; 32]);
    let (notary, rsa) =
        ghostkey_lib::notary_certificate::NotaryCertificateV1::new(&master, &"test".to_string())
            .unwrap_or_else(|_| panic!("no notary"));
    let (cert, key) = ghostkey_lib::ghost_key_certificate::GhostkeyCertificateV1::new(&notary, &rsa);
    let pem = cert.to_armored_string().unwrap_or_else(|_| panic!("no text"));
    let b64 = master.verifying_key().to_base64().unwrap_or_else(|_| panic!("no text"));
    (
        AuthPolicy::GhostKey { master_verifying_key_b64: Some(b64) },
        pem,
        key,
    )
}

fn shown(pem: &str, key: &SigningKey, challenge: &[u8], body: &[u8]) -> ServiceAuth {
    ServiceAuth::GhostKey(GhostKeyAuth {
        certificate_pem: pem.to_string(),
        challenge: challenge.to_vec(),
        signature: key.sign(&auth_signing_input(challenge, body)).to_bytes().to_vec(),
    })
}

#[test]
fn a_ghost_key_holder_is_served_once_for_each_challenge() {
    let (policy, pem, key) = ghost_key();
    let mut challenges = Challenges::new();
    challenges.issue_challenge(b"c1", 1_000);
    challenges.issue_challenge(b"c2", 1_000);
    challenges.issue_challenge(b"c3", 1_000);
    let auth = shown(&pem, &key, b"c1", &body());
    assert_eq!(
        authorize(&policy, &auth, &body(), &mut challenges, 2_000).unwrap(),
        Authorized::GhostKey { fingerprint: fingerprint(&key.verifying_key().to_bytes()) }
    );
    assert_eq!(
        authorize(&policy, &auth, &body(), &mut challenges, 2_000),
        Err(BridgeError::StaleChallenge)
    );
    // The right holder, but for another request.
    let auth = shown(&pem, &key, b"c2", b"something else");
    assert!(matches!(
        authorize(&policy, &auth, &body(), &mut challenges, 2_000),
        Err(BridgeError::NotAuthorized { .. })
    ));
    // Somebody else with the same certificate.
    let auth = shown(&pem, &SigningKey::from_bytes(&[8; 32]), b"c3", &body());
    assert!(matches!(
        authorize(&policy, &auth, &body(), &mut challenges, 2_000),
        Err(BridgeError::NotAuthorized { .. })
    ));
}

#[test]
fn a_certificate_without_a_signature_shows_no_key() {
    let (policy, pem, key) = ghost_key();
    let whole = ghostkey_lib::ghost_key_certificate::GhostkeyCertificateV1::from_armored_string(&pem)
        .unwrap_or_else(|_| panic!("no certificate"));
    let mut challenges = Challenges::new();
    challenges.issue_challenge(b"c1", 1_000);
    challenges.issue_challenge(b"c2", 1_000);
    let mut bare = whole.clone();
    bare.signature.0.clear();
    let text = bare.to_armored_string().unwrap_or_else(|_| panic!("no text"));
    assert!(matches!(
        authorize(&policy, &shown(&text, &key, b"c1", &body()), &body(), &mut challenges, 2_000),
        Err(BridgeError::NotAuthorized { .. })
    ));
    // Under a notary's key of modulus zero an empty signature has the right length.
    let text_of = |t: &str| Value::Text(t.to_string());
    let zero = Value::Map(vec![
        (
            text_of("delegate_verifying_key"),
            Value::Map(vec![
                (text_of("n"), Value::Array(Vec::new())),
                (text_of("e"), Value::Array(vec![Value::Integer(3.into())])),
            ]),
        ),
        (text_of("info"), text_of("test")),
    ]);
    let mut raw = Vec::new();
    ciborium::into_writer(&zero, &mut raw).unwrap();
    let payload =
        <ghostkey_lib::notary_certificate::NotaryPayload as Armorable>::from_bytes(&raw)
            .unwrap_or_else(|_| panic!("no payload"));
    bare.notary.signature =
        ghostkey_lib::util::sign_with_hash(&SigningKey::from_bytes(&[5; 32]), &payload)
            .unwrap_or_else(|_| panic!("no signature"));
    bare.notary.payload = payload;
    let text = bare.to_armored_string().unwrap_or_else(|_| panic!("no text"));
    assert!(matches!(
        authorize(&policy, &shown(&text, &key, b"c2", &body()), &body(), &mut challenges, 2_000),
        Err(BridgeError::NotAuthorized { .. })
    ));
}

#[test]
fn a_certificate_counts_only_under_the_right_master_key() {
    let (_, pem, key) = ghost_key();
    for master in [
        None,
        Some("not base64".to_string()),
        Some(SigningKey::from_bytes(&[6; 32]).verifying_key().to_base64().unwrap_or_else(|_| panic!("no text"))),
    ] {
        let mut challenges = Challenges::new();
        challenges.issue_challenge(b"c1", 0);
        let policy = AuthPolicy::GhostKey { master_verifying_key_b64: master };
        let auth = shown(&pem, &key, b"c1", &body());
        assert!(matches!(
            authorize(&policy, &auth, &body(), &mut challenges, 0),
            Err(BridgeError::NotAuthorized { .. })
        ));
    }
}

#[test]
fn a_challenge_runs_out() {
    let mut challenges = Challenges::new();
    challenges.issue_challenge(b"c1", 1_000);
    challenges.issue_challenge(b"c2", 2_000);
    assert!(!challenges.consume_challenge(b"c1", 1_000 + CHALLENGE_TTL_MS, CHALLENGE_TTL_MS));
    assert!(challenges.consume_challenge(b"c2", 1_999 + CHALLENGE_TTL_MS, CHALLENGE_TTL_MS));
    challenges.purge_expired_challenges(1_000 + CHALLENGE_TTL_MS, CHALLENGE_TTL_MS);
    assert_eq!(challenges.rows.len(), 0);
}

// ---------------------------------------------------------------------------
// The node
// ---------------------------------------------------------------------------

#[test]
fn only_an_explicit_not_found_counts_as_absence() {
    assert!(is_not_found("ContractResponse: contract NotFound"));
    assert!(is_not_found("contract not found"));
}

#[test]
fn nothing_ambiguous_is_treated_as_absence() {
    for msg in [
        "timed out waiting for response",
        "connection reset",
        "websocket closed",
        "operation aborted",
        "no route to peer",
        "",
    ] {
        assert!(
            !is_not_found(msg),
            "{msg:?} must classify as Unknown, never Absent"
        );
    }
}

fn not_found(id: [u8; 32]) -> NodeReply {
    NodeReply::NotFound { id }
}

fn update_response(id: [u8; 32]) -> NodeReply {
    NodeReply::Updated { id }
}

fn put_response(id: [u8; 32]) -> NodeReply {
    NodeReply::Stored { id }
}

fn get_response(id: [u8; 32], state: Vec<u8>) -> NodeReply {
    NodeReply::Got { id, state }
}

fn error(text: &str) -> NodeReply {
    NodeReply::Error { kind: ErrorKind::Other, text: text.to_string() }
}

#[test]
fn a_probe_reply_is_about_the_contract_asked_about_or_it_is_nothing() {
    let asked = [1u8; 32];
    assert_eq!(classify_probe_reply(&asked, &not_found(asked)), ProbeReply::Absent);
    assert_eq!(
        classify_probe_reply(&asked, &get_response(asked, vec![7])),
        ProbeReply::State(vec![7])
    );
    assert_eq!(classify_probe_reply(&asked, &not_found([9; 32])), ProbeReply::Unmatched);
    assert_eq!(
        classify_probe_reply(&asked, &get_response([2; 32], vec![7])),
        ProbeReply::Unmatched
    );
    assert_eq!(classify_probe_reply(&asked, &put_response(asked)), ProbeReply::Unmatched);
    assert_eq!(
        classify_probe_reply(&asked, &error("contract not found")),
        ProbeReply::Absent,
        "an older node reported a miss as an error"
    );
    assert_eq!(
        classify_probe_reply(&asked, &error("operation aborted")),
        ProbeReply::Unmatched
    );
}

#[test]
fn only_an_update_or_not_found_for_the_same_contract_answers_an_update() {
    let asked = [1u8; 32];
    assert_eq!(classify_update_reply(&asked, &update_response(asked)), UpdateReply::Updated);
    assert_eq!(classify_update_reply(&asked, &not_found(asked)), UpdateReply::Missing);
    for reply in [
        update_response([2; 32]),
        not_found([9; 32]),
        put_response(asked),
        get_response(asked, vec![]),
        error("contract not found"),
    ] {
        assert_eq!(classify_update_reply(&asked, &reply), UpdateReply::Unmatched);
    }
}

#[test]
fn only_a_put_response_for_the_same_contract_answers_a_put() {
    let asked = [1u8; 32];
    assert!(put_answered(&asked, &put_response(asked)));
    assert!(!put_answered(&asked, &put_response([2; 32])));
    assert!(!put_answered(&asked, &update_response(asked)));
    assert!(!put_answered(&asked, &not_found(asked)));
}

#[test]
fn a_read_that_is_answered_for_another_contract_fails() {
    let asked = [1u8; 32];
    assert_eq!(
        classify_get_reply(&asked, &get_response([2; 32], vec![1])),
        GetReply::Unmatched
    );
    let (r, drop_it) = get_outcome(&asked, &get_response(asked, vec![5]));
    assert_eq!((r, drop_it), (Ok(vec![5]), false));
    let (r, drop_it) = get_outcome(&asked, &get_response([2; 32], vec![5]));
    assert!(r.is_err());
    assert!(drop_it);
    assert!(put_outcome(&asked, &put_response(asked)).is_ok());
    assert!(put_outcome(&asked, &put_response([2; 32])).unwrap_err().contains("PutResponse for"));
}

#[test]
fn the_node_level_error_kinds_are_the_list_that_decides() {
    for kind in [
        ErrorKind::EmptyRing,
        ErrorKind::PeerNotJoined,
        ErrorKind::NodeUnavailable,
        ErrorKind::Disconnect,
        ErrorKind::ChannelClosed,
        ErrorKind::TransportProtocolDisconnect,
        ErrorKind::Shutdown,
    ] {
        assert!(
            reply_is_about_the_node(kind),
            "{kind:?} says the next request fails the same way"
        );
    }
    assert!(!reply_is_about_the_node(ErrorKind::Other), "about this request");
}

#[test]
fn what_is_not_configured_has_a_default() {
    assert_eq!(default_deep_confirmations(), 6);
    assert_eq!(default_reorg_depth(), 100);
    assert_eq!(default_demo_backfill(), 144);
}

#[test]
fn the_wait_grows_while_the_node_keeps_refusing_to_serve() {
    let mut link = Link::new();
    assert_eq!(link.connection(0), Dial::Connect);
    let refused = NodeReply::Error { kind: ErrorKind::EmptyRing, text: "ring".into() };
    let mut now: u64 = 0;
    let mut waits = Vec::new();
    for _ in 0..3 {
        link.opened();
        assert_eq!(link.connection(now), Dial::Open);
        assert_eq!(
            link.replied(&refused, now, 20).unwrap_err().0,
            "the node answered: ring"
        );
        match link.connection(now) {
            Dial::Wait(ms) => {
                waits.push(ms);
                now += ms;
            }
            other => panic!("{other:?}"),
        }
        assert_eq!(link.connection(now), Dial::Connect);
    }
    assert!(
        waits.windows(2).all(|w| w[1] > w[0]),
        "each wait must be longer than the last: {waits:?}"
    );
    assert_eq!(waits, vec![RECONNECT_BACKOFF_MIN, 2 * RECONNECT_BACKOFF_MIN, 4 * RECONNECT_BACKOFF_MIN]);
    for _ in 0..20 {
        link.arm_backoff(now, 20);
    }
    assert_eq!(link.backoff, RECONNECT_BACKOFF_MAX);
    // A good answer ends it.
    link.opened();
    link.replied(&not_found([1; 32]), now, 20).unwrap();
    assert_eq!(link.backoff, RECONNECT_BACKOFF_MIN);
    // What is said of one request costs the connection, and no wait.
    link.replied(&error("refused"), now, 20).unwrap();
    assert_eq!(link.connection(now), Dial::Connect);
}

/// What is asked of a node.
#[derive(Clone, Copy, Debug, PartialEq)]
enum Ask {
    Update,
    Put,
    Get,
}

/// A node that answers by how many connections it had before the one it is asked on, and
/// takes no time over it.
struct Node {
    connections: usize,
    answer: fn(usize, Ask) -> NodeReply,
}

fn node(answer: fn(usize, Ask) -> NodeReply) -> (Link, Node) {
    (Link::new(), Node { connections: 0, answer })
}

/// One request at `now`: dial where needed, and hand the reply to the link.
fn ask(link: &mut Link, node: &mut Node, what: Ask, now: u64) -> Result<NodeReply, NodeError> {
    match link.connection(now) {
        Dial::Open => {}
        Dial::Connect => {
            node.connections += 1;
            link.opened();
        }
        Dial::Wait(ms) => {
            return Err(NodeError::Link(LinkUnusable(format!("next attempt in {ms}ms"))));
        }
    }
    let reply = (node.answer)(node.connections - 1, what);
    match link.replied(&reply, now, 20) {
        Ok(()) => Ok(reply),
        Err(e) => Err(NodeError::Link(e)),
    }
}

fn put_or_update(link: &mut Link, node: &mut Node, id: &[u8; 32]) -> Result<(), NodeError> {
    let reply = ask(link, node, Ask::Update, 0)?;
    match after_update(id, &reply) {
        AfterUpdate::Done => return Ok(()),
        AfterUpdate::Put { fresh: true } => link.discard(),
        AfterUpdate::Put { fresh: false } => {}
    }
    let reply = ask(link, node, Ask::Put, 0)?;
    put_outcome(id, &reply).map_err(|e| {
        link.discard();
        NodeError::Request(e)
    })
}

fn get_state(link: &mut Link, node: &mut Node, id: &[u8; 32]) -> Result<Vec<u8>, NodeError> {
    let reply = ask(link, node, Ask::Get, 0)?;
    let (state, drop) = get_outcome(id, &reply);
    if drop {
        link.discard();
    }
    state.map_err(NodeError::Request)
}

#[test]
fn an_update_answered_for_another_contract_is_put_on_a_fresh_connection() {
    let (mut link, mut node) = node(|connection, what| match (connection, what) {
        (0, Ask::Update) => update_response([2; 32]),
        (1, Ask::Put) => put_response([1; 32]),
        _ => error("unexpected"),
    });
    put_or_update(&mut link, &mut node, &[1; 32]).expect("stored by the PUT");
    assert_eq!(node.connections, 2);
}

#[test]
fn a_missing_contract_is_put_on_the_same_connection() {
    let (mut link, mut node) = node(|connection, what| match (connection, what) {
        (0, Ask::Update) => not_found([1; 32]),
        (0, Ask::Put) => put_response([1; 32]),
        _ => error("unexpected"),
    });
    put_or_update(&mut link, &mut node, &[1; 32]).expect("stored by the PUT");
    assert_eq!(node.connections, 1);
    assert_eq!(after_update(&[1; 32], &update_response([1; 32])), AfterUpdate::Done);
}

#[test]
fn a_put_answered_for_another_contract_fails_and_drops_the_connection() {
    let (mut link, mut node) = node(|connection, what| match (connection, what) {
        (0, Ask::Update) => not_found([1; 32]),
        (0, Ask::Put) => put_response([2; 32]),
        (_, Ask::Get) => get_response([1; 32], vec![5]),
        _ => error("unexpected"),
    });
    let err = put_or_update(&mut link, &mut node, &[1; 32]).unwrap_err();
    assert!(err.message().contains("PutResponse for"), "{}", err.message());
    assert!(!link_unusable(&err), "a reply about another contract is not the node refusing");
    assert_eq!(get_state(&mut link, &mut node, &[1; 32]).unwrap(), vec![5]);
    assert_eq!(node.connections, 2, "a fresh connection after the bad PUT");
}

#[test]
fn a_get_answered_for_another_contract_fails_and_drops_the_connection() {
    let (mut link, mut node) = node(|connection, _| {
        if connection == 0 {
            get_response([2; 32], vec![9])
        } else {
            get_response([1; 32], vec![5])
        }
    });
    assert!(get_state(&mut link, &mut node, &[1; 32]).is_err());
    assert_eq!(get_state(&mut link, &mut node, &[1; 32]).unwrap(), vec![5]);
    assert_eq!(node.connections, 2);
}

#[test]
fn a_failure_about_the_node_is_link_unusable_and_backs_off() {
    let (mut link, mut node) = node(|_, _| NodeReply::Error {
        kind: ErrorKind::PeerNotJoined,
        text: "not joined".into(),
    });
    let not_joined = get_state(&mut link, &mut node, &[1; 32]).unwrap_err();
    assert!(link_unusable(&not_joined), "{}", not_joined.message());
    let backed_off = get_state(&mut link, &mut node, &[1; 32]).unwrap_err();
    assert!(backed_off.message().contains("next attempt"), "{}", backed_off.message());
    assert_eq!(node.connections, 1, "the second request did not dial again");
}

#[test]
fn a_failure_about_the_request_is_not_link_unusable() {
    let (mut link, mut node) = node(|connection, _| {
        if connection == 0 {
            get_response([2; 32], vec![9])
        } else {
            get_response([1; 32], vec![5])
        }
    });
    let wrong_contract = get_state(&mut link, &mut node, &[1; 32]).unwrap_err();
    assert!(!link_unusable(&wrong_contract), "{}", wrong_contract.message());
    assert_eq!(
        get_state(&mut link, &mut node, &[1; 32]).unwrap(),
        vec![5],
        "so the next request is tried at once, on a fresh connection"
    );
}

#[test]
fn an_unreachable_node_is_not_dialled_on_every_request() {
    let mut link = Link::new();
    assert_eq!(link.connection(0), Dial::Connect);
    link.arm_backoff(0, 20);
    let (_, mut node) = node(|_, _| error("unexpected"));
    let refused = ask(&mut link, &mut node, Ask::Get, 0).unwrap_err();
    assert!(refused.message().contains("next attempt"), "{}", refused.message());
    assert_eq!(node.connections, 0, "the second request did not dial");
}

#[test]
fn an_error_about_the_link_is_one_however_deeply_it_is_wrapped() {
    let link = NodeError::While(
        "a".into(),
        Box::new(NodeError::While("b".into(), Box::new(NodeError::Link(LinkUnusable("c".into()))))),
    );
    assert!(link_unusable(&link));
    assert_eq!(Sent::failed(&link), Sent::Unreachable);
    let request = NodeError::While("a".into(), Box::new(NodeError::Request("c".into())));
    assert!(!link_unusable(&request));
    assert_eq!(Sent::failed(&request), Sent::Refused);
}

#[test]
fn what_is_published_is_checked_first_and_read_back() {
    let signer = Signer::from_seed([1; 32]);
    let params = observer().address_params(&[0x51], signer.bridge_id());
    let good = claim(&signer, &params, 1);
    let w = publish_claims(&params, vec![good.clone()]).unwrap();
    assert_eq!(w.params, to_cbor(&params).unwrap());
    let state: BitcoinAddressStateV1 = from_cbor(&w.state).unwrap();
    assert_eq!(state.claims.claims.len(), 1);
    let mut bad = good;
    bad.signature[0] ^= 1;
    assert!(publish_claims(&params, vec![bad])
        .unwrap_err()
        .starts_with("refusing to publish claims we cannot verify ourselves: "));
    let wasm = ContractWasm { address: vec![0, 1, 2, 3], tip: vec![4, 5, 6, 7], inbox: vec![8] };
    let mut input = blake3::hash(&[0, 1, 2, 3]).as_bytes().to_vec();
    input.extend_from_slice(&w.params);
    assert_eq!(wasm.address_key(&params), *blake3::hash(&input).as_bytes());
    assert_eq!(
        wasm.address_key(&params),
        freenet_bitcoin::freenet::address_instance_id(&wasm.address_code_hash(), &params)
    );
}

// ---------------------------------------------------------------------------
// Generations
// ---------------------------------------------------------------------------

fn next_version(
    stored: Option<(u32, [u8; 32])>,
    published: Option<(u32, [u8; 32])>,
    code_hash: [u8; 32],
) -> (u32, bool) {
    freenet_bitcoin::generation::next_version(stored, published, &code_hash)
}

#[test]
fn a_lost_database_forgets_the_version() {
    let mut s = Store::open_in_memory();
    assert_eq!(s.pointer_record("freenet-bitcoin.tip"), None);
    s.set_pointer_record("freenet-bitcoin.tip", 4, &[1u8; 32]);
    assert_eq!(
        s.pointer_record("freenet-bitcoin.tip"),
        Some((4, [1u8; 32]))
    );
    let fresh = Store::open_in_memory();
    assert_eq!(fresh.pointer_record("freenet-bitcoin.tip"), None);
}

#[test]
fn the_two_artifacts_do_not_share_a_version() {
    let mut s = Store::open_in_memory();
    s.set_pointer_record("freenet-bitcoin.address", 7, &[2u8; 32]);
    s.set_pointer_record("freenet-bitcoin.tip", 1, &[3u8; 32]);
    assert_eq!(
        s.pointer_record("freenet-bitcoin.address"),
        Some((7, [2u8; 32]))
    );
    assert_eq!(
        s.pointer_record("freenet-bitcoin.tip"),
        Some((1, [3u8; 32]))
    );
}

#[test]
fn version_arithmetic() {
    let a = [1u8; 32];
    let b = [2u8; 32];

    assert_eq!(next_version(None, None, a), (1, true), "first publish");
    assert_eq!(
        next_version(Some((3, a)), None, a),
        (3, false),
        "unchanged generation must not burn a version"
    );
    assert_eq!(
        next_version(Some((3, a)), None, b),
        (4, true),
        "a re-key advances"
    );
    assert_eq!(
        next_version(None, Some((9, a)), b),
        (10, true),
        "a lost database follows the published record rather than restarting at 1"
    );
    assert_eq!(
        next_version(Some((2, a)), Some((9, a)), b),
        (10, true),
        "the higher baseline wins, so a stale local counter cannot wedge the pointer"
    );
    assert_eq!(
        next_version(Some((9, a)), Some((2, a)), b),
        (10, true),
        "and a stale PUBLISHED record cannot walk the counter backwards either"
    );
}

#[test]
fn a_pointer_record_is_read_back_under_its_authors_key() {
    let signer = Signer::from_seed([1; 32]);
    let author = signer.bridge_id().0;
    let (id, params) = pointer_place(signer.key(), Artifact::Tip).unwrap();
    let (other, _) = pointer_place(signer.key(), Artifact::Address).unwrap();
    assert_ne!(id, other);
    let mut named =
        bs58::decode("8wnAPaSRY1oYZCz723fdwK6BgzL6q8ozP3buVovXnt6v").into_vec().unwrap();
    assert_eq!((named[0], named[1], named[31]), (0x76, 0x0a, 0x0b));
    named.extend_from_slice(&params);
    assert_eq!(id, *blake3::hash(&named).as_bytes());
    let up = pointer_update(signer.key(), Artifact::Tip, &[7; 32], &id, params.clone(), None, None);
    assert_eq!((up.state.version, up.state.advanced), (1, true));
    assert_eq!(up.state.pointer_id, bs58::encode(id).into_string());
    assert_eq!(read_published(&up.record, &params, &author), Some((1, [7; 32])));
    let stranger = Signer::from_seed([2; 32]).bridge_id().0;
    assert_eq!(read_published(&up.record, &params, &stranger), None);
    let mut forged = up.record.clone();
    let last = forged.len() - 1;
    forged[last] ^= 1;
    assert_eq!(read_published(&forged, &params, &author), None);
    assert_eq!(read_published(b"", &params, &author), None);
    // The next code is the next version.
    let up = pointer_update(signer.key(), Artifact::Tip, &[8; 32], &id, params.clone(), None, Some((1, [7; 32])));
    assert_eq!(read_published(&up.record, &params, &author), Some((2, [8; 32])));
}

// ---------------------------------------------------------------------------
// Migration
// ---------------------------------------------------------------------------

const START: u64 = 1_000_000;

#[test]
fn a_new_address_is_walked_at_once_and_then_not_again_until_the_interval() {
    let mut pacer = MigrationPacer::new(START);
    let t0 = START;
    assert!(pacer.due(b"a", t0));
    assert!(!pacer.record(b"a", Walk::NothingFound, t0));
    assert!(!pacer.due(b"a", t0 + WALK_INTERVAL - 1_000));
    assert!(pacer.due(b"a", t0 + WALK_INTERVAL));
    assert!(pacer.due(b"b", t0), "another address has its own pace");
}

#[test]
fn one_walk_that_found_nothing_does_not_seal() {
    let mut pacer = MigrationPacer::new(START);
    assert!(!pacer.record(b"a", Walk::NothingFound, START + WARMUP));
}

#[test]
fn walks_during_the_warmup_are_not_agreement() {
    let mut pacer = MigrationPacer::new(START);
    let t0 = START;
    let mut warming = t0;
    while warming < t0 + WARMUP {
        assert!(!pacer.record(b"a", Walk::NothingFound, warming));
        warming += WALK_INTERVAL / 4;
    }
    let mut t = t0 + WARMUP;
    for _ in 0..SEAL_AFTER_WALKS - 1 {
        assert!(!pacer.record(b"a", Walk::NothingFound, t));
        t += SEAL_SPACING;
    }
    assert!(pacer.record(b"a", Walk::NothingFound, t));
}

#[test]
fn walks_close_together_count_once() {
    let mut pacer = MigrationPacer::new(START);
    let t0 = START + WARMUP;
    let mut i = 0;
    while WALK_INTERVAL * i < SEAL_SPACING {
        assert!(
            !pacer.record(b"a", Walk::NothingFound, t0 + WALK_INTERVAL * i),
            "walk {i}, all within one spacing of the first, must not seal"
        );
        i += 1;
    }
}

#[test]
fn separate_agreeing_walks_seal_and_unresolved_ones_do_not_count() {
    let mut pacer = MigrationPacer::new(START);
    let t0 = START + WARMUP;
    let mut t = t0;
    for _ in 0..SEAL_AFTER_WALKS - 1 {
        assert!(!pacer.record(b"a", Walk::NothingFound, t));
        t += SEAL_SPACING;
        assert!(!pacer.record(b"a", Walk::Unresolved, t));
        t += SEAL_SPACING;
    }
    assert!(
        pacer.record(b"a", Walk::Recovered, t),
        "the third separate walk seals"
    );
    assert!(pacer.due(b"a", t), "a sealed address is forgotten");
}

#[test]
fn only_unresolved_walks_never_seal() {
    let mut pacer = MigrationPacer::new(START);
    let t0 = START + WARMUP;
    for i in 0..20 {
        assert!(!pacer.record(b"a", Walk::Unresolved, t0 + SEAL_SPACING * i));
    }
}

#[test]
fn a_recovery_that_left_a_generation_unresolved_is_not_agreement() {
    let recovered = |unresolved: usize, truncated_fold: bool| WalkOutcome::Recovered {
        source: "a".into(),
        truncated_fold,
        unresolved,
    };
    assert_eq!(Walk::from_outcome(&recovered(0, false)), Walk::Recovered);
    assert_eq!(
        Walk::from_outcome(&recovered(1, false)),
        Walk::Unresolved,
        "a generation that never answered may hold what the fold is missing"
    );
    assert_eq!(
        Walk::from_outcome(&recovered(0, true)),
        Walk::Unresolved,
        "a truncated fold never probed the oldest generations"
    );
}

fn params() -> BitcoinAddressParameters {
    BitcoinAddressParameters {
        network: BitcoinNetwork::Signet,
        script_pubkey: vec![0x00, 0x14, 0xaa, 0xbb],
        trusted_bridges: vec![Signer::from_seed([1; 32]).bridge_id()],
        pow_floor: PowFloor::none(),
    }
}

fn state(seed: u8, sats: u64, as_of: u32) -> BitcoinAddressStateV1 {
    let p = params();
    let (spv, txid, block) = payment_proof(&p.script_pubkey, sats, 1, [seed; 32]);
    let claim = SignedClaim::sign(
        &[1; 32],
        &ClaimBody {
            script_id: p.script_id(),
            network: p.network,
            as_of: BlockAnchor { height: as_of, hash: block },
            claim: Claim::ConfirmedOutput {
                outpoint: OutPoint { txid, vout: 0 },
                value_sats: sats,
                anchor: BlockAnchor { height: as_of - 1, hash: block },
                spv,
            },
        },
    )
    .unwrap();
    BitcoinAddressStateV1::from_claims(&p, vec![claim]).unwrap()
}

#[test]
fn fold_all_preconditions_hold_for_the_address_state() {
    let ops = AddressOps { params: params() };
    let samples = vec![state(1, 50_000, 100), state(2, 70_000, 101), state(3, 900, 102)];
    let merge = |a: BitcoinAddressStateV1, b: BitcoinAddressStateV1| ops.merge_generations(a, b);

    freenet_migrate::driver::policy_check::assert_merge_commutative(&samples, merge);
    freenet_migrate::driver::policy_check::assert_merge_idempotent(&samples, merge);
    freenet_migrate::driver::policy_check::assert_fold_order_invariant(&samples, merge);
}

#[test]
fn folding_an_old_generation_cannot_resurrect_a_reorged_payment() {
    let p = params();
    let ops = AddressOps { params: p.clone() };

    let old_confirmed = state(1, 50_000, 100);
    let (_, txid, block) = payment_proof(&p.script_pubkey, 50_000, 1, [1u8; 32]);
    let retraction = SignedClaim::sign(
        &[1; 32],
        &ClaimBody {
            script_id: p.script_id(),
            network: p.network,
            as_of: BlockAnchor { height: 120, hash: block },
            claim: Claim::Retracted { outpoint: OutPoint { txid, vout: 0 } },
        },
    )
    .unwrap();
    let mut newer = old_confirmed.clone();
    newer
        .merge(&p, &BitcoinAddressStateV1::from_claims(&p, vec![retraction]).unwrap())
        .unwrap();

    let folded = ops.merge_generations(newer, old_confirmed);
    assert_eq!(
        folded.claims.confirmed_value_sats(200, 1),
        0,
        "folding an older generation must not un-retract a reorged payment"
    );
}

#[test]
fn an_empty_predecessor_is_not_real_and_is_a_miss() {
    let ops = AddressOps { params: params() };
    assert!(!ops.is_real(&BitcoinAddressStateV1::default()));
    assert!(ops.is_real(&state(1, 1, 10)));
    let tips = TipOps { params: observer().tip_params(Signer::from_seed([1; 32]).bridge_id()) };
    assert!(!tips.is_real(&BitcoinTipStateV1::default()));
}

#[test]
fn decode_rejects_garbage_rather_than_panicking() {
    let ops = AddressOps { params: params() };
    assert!(ops.decode(b"not cbor at all").is_none());
    let mut text = Vec::new();
    ciborium::into_writer(&"a string", &mut text).unwrap();
    assert!(ops.decode(&text).is_none());
    assert!(ops.decode(&to_cbor(&state(1, 1, 10)).unwrap()).is_some());
}

#[test]
fn every_generation_is_looked_for_under_its_own_code() {
    let p = to_cbor(&params()).unwrap();
    let ids = probe_ids(&vec![[1; 32], [2; 32]], &p);
    let expected: Vec<[u8; 32]> = [[1u8; 32], [2; 32]]
        .iter()
        .map(|h| {
            let mut input = h.to_vec();
            input.extend_from_slice(&p);
            *blake3::hash(&input).as_bytes()
        })
        .collect();
    assert_eq!(ids, expected);
}

#[test]
fn a_walks_end_is_described() {
    assert_eq!(
        describe(&WalkOutcome::Recovered { source: "abc".into(), unresolved: 0, truncated_fold: false }),
        "recovered state from predecessor abc"
    );
    assert_eq!(
        describe(&WalkOutcome::Indeterminate { unresolved: 12 }),
        "12 predecessor(s) did not answer; adopting nothing and retrying later"
    );
}

// ---------------------------------------------------------------------------
// Observations
// ---------------------------------------------------------------------------

fn bodies(claims: &ClaimsByScript, script: &[u8]) -> Vec<ClaimBody> {
    claims.about(script).iter().map(|c| c.body().unwrap()).collect()
}

fn outpoint(seed: u8, vout: u32) -> OutPoint {
    OutPoint {
        txid: Txid([seed; 32]),
        vout,
    }
}

#[test]
fn the_ladder_doubles_and_then_lands_exactly_on_the_ceiling() {
    let rungs: Vec<u32> = (1..=10).map(|d| Observer::ladder_rung(d, 6)).collect();
    assert_eq!(rungs, vec![1, 2, 2, 4, 4, 6, 6, 6, 6, 6]);
}

#[test]
fn every_required_depth_up_to_the_ceiling_is_eventually_reachable() {
    for max in [2u32, 6, 12, 25, 100] {
        for required in 1..=max {
            let reached_needed = (1..=max * 2)
                .find(|d| Observer::ladder_rung(*d, max) >= required)
                .expect("some depth must assert at least `required`");
            assert!(
                reached_needed <= required * 2,
                "ceiling {max}: {required} confirmations waited until depth {reached_needed}"
            );
        }
    }
}

#[test]
fn the_ladder_is_monotonic_so_a_rung_is_never_revisited() {
    for max in [2u32, 6, 25] {
        let mut last = 0;
        for d in 1..=(max + 5) {
            let r = Observer::ladder_rung(d, max);
            assert!(r >= last, "ceiling {max} went backwards at depth {d}");
            last = r;
        }
    }
}

#[test]
fn a_degenerate_ceiling_asks_for_nothing_rather_than_panicking() {
    assert_eq!(Observer::ladder_rung(0, 0), 0);
    assert_eq!(Observer::ladder_rung(5, 0), 0);
    assert_eq!(Observer::ladder_rung(5, 1), 1);
}

#[test]
fn an_output_re_mined_in_the_same_round_is_not_also_retracted() {
    let obs = observer();
    let signer = Signer::generate();
    let tip = BlockAnchor { height: 105, hash: BlockHash([7; 32]) };
    let script = b"spk".to_vec();
    let re_mined = outpoint(1, 0);
    let really_gone = outpoint(2, 1);

    let mut claims = ClaimsByScript::new();
    let confirmation = ClaimBody {
        script_id: ScriptId::compute(BitcoinNetwork::Signet, &script),
        network: BitcoinNetwork::Signet,
        as_of: tip,
        claim: Claim::ConfirmedOutput {
            outpoint: re_mined,
            value_sats: 50_000,
            anchor: BlockAnchor { height: 104, hash: BlockHash([8; 32]) },
            spv: payment_proof(&[0x51], 1, 1, [0xaa; 32]).0,
        },
    };
    claims.push(&script, SignedClaim::sign(signer.key(), &confirmation).unwrap());
    let reconfirmed = vec![re_mined];

    obs.retraction_claims(
        signer.key(),
        &tip,
        &vec![(script.clone(), re_mined), (script.clone(), really_gone)],
        &reconfirmed,
        &mut claims,
    );

    let signed = bodies(&claims, &script);
    let retracted: Vec<OutPoint> = signed
        .iter()
        .filter_map(|b| match &b.claim {
            Claim::Retracted { outpoint } => Some(*outpoint),
            _ => None,
        })
        .collect();
    assert_eq!(
        retracted,
        vec![really_gone],
        "only the output the rescan did NOT find may be retracted"
    );
    for op in [re_mined, really_gone] {
        let at_tip = signed
            .iter()
            .filter(|b| b.claim.outpoint() == Some(op) && b.as_of == tip)
            .count();
        assert!(at_tip <= 1, "{op:?} has {at_tip} claims at one anchor");
    }
    let for_re_mined: Vec<ClaimBody> = signed
        .iter()
        .filter(|b| b.claim.outpoint() == Some(re_mined))
        .cloned()
        .collect();
    assert!(matches!(
        fold_outpoint_status(&for_re_mined),
        Some(OutpointStatus::Confirmed { .. })
    ));
}

#[test]
fn an_output_the_rescan_did_not_find_is_still_retracted() {
    let obs = observer();
    let signer = Signer::generate();
    let tip = BlockAnchor { height: 105, hash: BlockHash([7; 32]) };
    let script = b"spk".to_vec();
    let gone = outpoint(3, 0);
    let mut claims = ClaimsByScript::new();
    obs.retraction_claims(
        signer.key(),
        &tip,
        &vec![(script.clone(), gone)],
        &vec![outpoint(4, 0)],
        &mut claims,
    );
    let signed = bodies(&claims, &script);
    assert_eq!(signed.len(), 1);
    assert_eq!(signed[0].as_of, tip);
    assert!(matches!(signed[0].claim, Claim::Retracted { outpoint } if outpoint == gone));
}

#[test]
fn a_reorg_takes_the_orphaned_payments_out_and_resumes_above_the_fork() {
    let obs = observer();
    let net = BitcoinNetwork::Signet;
    let mut store = Store::open_in_memory();
    assert_eq!(obs.handle_reorg(&store).unwrap(), 0, "nothing was scanned yet");
    for h in 90..=100u32 {
        store.record_block(net, h, &BlockHash([h as u8; 32]));
    }
    store.set_checkpoint(net, &BlockAnchor { height: 100, hash: BlockHash([100; 32]) });
    store.record_output(net, b"spk", &[1; 32], 0, 5, Some((97, BlockHash([97; 32]))));
    store.record_output(net, b"spk", &[2; 32], 3, 6, Some((98, BlockHash([98; 32]))));
    let mut check = obs.handle_reorg(&store).unwrap_err();
    let mut asked = Vec::new();
    let (from, orphaned) = loop {
        assert!(check.wants_hash(&store));
        let h = check.walk.height;
        asked.push(h);
        let node = if h <= 97 { BlockHash([h as u8; 32]) } else { BlockHash([0xff; 32]) };
        match check.answer(&mut store, Some(node)) {
            Some(ReorgStep::Ask(_)) => {}
            Some(ReorgStep::Resume { from, orphaned }) => break (from, orphaned),
            None => panic!("the node answered"),
        }
    };
    assert_eq!(asked, vec![100, 100, 99, 98, 97]);
    assert_eq!(from, 98);
    assert_eq!(orphaned, vec![(b"spk".to_vec(), OutPoint { txid: Txid([2; 32]), vout: 3 })]);
    assert!(store.is_output_in_doubt(net, &[2; 32], 3));
    assert!(!store.is_output_in_doubt(net, &[1; 32], 0));
    assert!(store.block_at(net, 98).is_none());
}

// ---------------------------------------------------------------------------
// Rounds and reports
// ---------------------------------------------------------------------------

#[test]
fn addresses_parse_to_canonical_script_bytes() {
    let spk = parse_address(
        "1A1zP1eP5QGefi2DMPTfTL5SLmv7DivfNa",
        BitcoinNetwork::Bitcoin,
    )
    .unwrap();
    assert_eq!(spk.len(), 25);
    assert_eq!(spk[0], 0x76);
    assert_eq!(spk[1], 0xa9);
    assert_eq!(spk[24], 0xac);
}

#[test]
fn an_address_from_the_wrong_network_is_rejected() {
    assert!(
        parse_address("1A1zP1eP5QGefi2DMPTfTL5SLmv7DivfNa", BitcoinNetwork::Signet).is_err()
    );
}

#[test]
fn a_bech32_address_parses_to_a_witness_program() {
    let spk = parse_address(
        "bc1qw508d6qejxtdg4y5r3zarvary0c5xw7kv8f3t4",
        BitcoinNetwork::Bitcoin,
    )
    .unwrap();
    assert_eq!(spk[0], 0x00, "v0 witness program");
    assert_eq!(spk[1], 0x14, "20-byte push");
    assert_eq!(spk.len(), 22);
}

#[test]
fn garbage_is_rejected_rather_than_silently_watched() {
    assert!(parse_address("not-an-address", BitcoinNetwork::Bitcoin).is_err());
    assert!(parse_address("", BitcoinNetwork::Bitcoin).is_err());
}

#[test]
fn an_address_is_told_apart_from_nonsense_and_from_another_networks() {
    assert_eq!(
        parse_address(" 1A1zP1eP5QGefi2DMPTfTL5SLmv7DivfNa\n", BitcoinNetwork::Bitcoin).unwrap().len(),
        25
    );
    assert_eq!(
        parse_address("not-an-address", BitcoinNetwork::Bitcoin).unwrap_err(),
        "not-an-address is not a Bitcoin address"
    );
    assert_eq!(
        parse_address("1A1zP1eP5QGefi2DMPTfTL5SLmv7DivfNa", BitcoinNetwork::Signet).unwrap_err(),
        "1A1zP1eP5QGefi2DMPTfTL5SLmv7DivfNa is not valid on signet"
    );
}

#[test]
fn a_failed_pointer_is_retried_sooner_than_a_healthy_one_is_reasserted() {
    assert_eq!(pointer_wait(false), 5 * 60 * 1_000);
    assert_eq!(pointer_wait(true), 30 * 60 * 1_000);
}

fn claim(signer: &Signer, params: &BitcoinAddressParameters, seed: u8) -> SignedClaim {
    let (spv, txid, block) = payment_proof(&params.script_pubkey, 1_000, 1, [seed; 32]);
    SignedClaim::sign(
        signer.key(),
        &ClaimBody {
            script_id: params.script_id(),
            network: params.network,
            as_of: BlockAnchor { height: 100, hash: block },
            claim: Claim::ConfirmedOutput {
                outpoint: OutPoint { txid, vout: 0 },
                value_sats: 1_000,
                anchor: BlockAnchor { height: 99, hash: block },
                spv,
            },
        },
    )
    .unwrap()
}

#[test]
fn a_claim_is_recorded_as_published_only_when_the_publish_succeeded() {
    let signer = Signer::generate();
    let mut store = Store::open_in_memory();
    let net = BitcoinNetwork::Signet;
    let params = BitcoinAddressParameters {
        network: net,
        script_pubkey: vec![0x00, 0x14, 0xaa, 0xbb],
        trusted_bridges: vec![signer.bridge_id()],
        pow_floor: net.default_pow_floor(),
    };
    let script = params.script_pubkey.clone();
    let fresh = vec![claim(&signer, &params, 1), claim(&signer, &params, 2)];

    mark_claims_if_published(&mut store, net, &script, &fresh, false);
    for claim in &fresh {
        assert!(
            !store.is_published(net, &script, &claim.digest()),
            "a claim that was not published must be sent again"
        );
    }
    assert_eq!(fresh_claims(&store, net, &script, fresh.clone()).len(), 2);

    mark_claims_if_published(&mut store, net, &script, &fresh, true);
    for claim in &fresh {
        assert!(
            store.is_published(net, &script, &claim.digest()),
            "a published claim is not sent again"
        );
    }
    assert!(fresh_claims(&store, net, &script, fresh).is_empty());
}

/// A round that has begun at `from`, and the store behind it.
fn round_at(from: u32, tip: u32, doubted: &[&[u8]], orphaned: Vec<OrphanedOutpoint>) -> (Observer, Store, Round) {
    let obs = observer();
    let mut store = Store::open_in_memory();
    store.add_watch(
        &WatchedScript {
            network: BitcoinNetwork::Signet,
            script_pubkey: vec![0x51],
            scan_from_height: 0,
            is_public_demo: false,
        },
        0,
    );
    let doubted: Vec<Vec<u8>> = doubted.iter().map(|s| s.to_vec()).collect();
    let anchor = BlockAnchor { height: tip, hash: BlockHash([0xee; 32]) };
    let round = Round::begin(&obs, &store, anchor, &doubted, from, orphaned);
    (obs, store, round)
}

#[test]
fn observe_once_scans_the_scripts_in_doubt_and_claims_only_for_the_watched() {
    let net = BitcoinNetwork::Signet;
    let (obs, mut store, mut round) = round_at(
        100,
        101,
        &[&[0x52]],
        vec![(vec![0x53], OutPoint { txid: Txid([9; 32]), vout: 0 })],
    );
    assert_eq!(round.scan, vec![vec![0x51], vec![0x52], vec![0x53]]);
    let txs: Vec<Vec<u8>> =
        [0x51u8, 0x52, 0x53, 0x54].iter().map(|s| build_tx(&[(7, vec![*s])])).collect();
    let (raw, _, hash) = block_of([1; 32], 1_700_000_000, &txs);
    let block = scan_block(&raw, &hash, 100, Some(5), &round.scan).unwrap();
    assert_eq!(block.found.len(), 3);
    round.take_block(&obs, &mut store, &[1; 32], &block);
    assert_eq!(round.claims.entries.len(), 1);
    assert_eq!(round.claims.entries[0].0, vec![0x51]);
    assert_eq!(round.confirmed.len(), 3);
    assert_eq!(round.tip_entries.len(), 1);
    assert_eq!(round.deferred, Some(block.anchor));
    assert!(store.checkpoint(net).is_none(), "held back while there is something to publish");
    assert_eq!(store.block_at(net, 100), Some(hash));

    // The orphan was not found again, so it is retracted.
    let tasks = obs.deep_tasks(&store, 101);
    let sources: Vec<Option<DeepSource>> = tasks.iter().map(|_| None).collect();
    round.conclude(&obs, &mut store, &[1; 32], &tasks, &sources, 10);
    let said = |s: u8| -> Vec<Claim> {
        round.claims.about(&[s]).iter().map(|c| c.body().unwrap().claim).collect()
    };
    assert!(matches!(said(0x51)[0], Claim::ConfirmedOutput { value_sats: 7, .. }));
    assert!(matches!(said(0x51)[1], Claim::ScannedTo));
    assert_eq!(round.claims.about(&[0x51])[1].body().unwrap().as_of, block.anchor);
    assert!(said(0x52).is_empty());
    assert!(matches!(said(0x53)[0], Claim::Retracted { .. }));
}

#[test]
fn observe_once_takes_its_ceiling_from_the_reorg_outcome() {
    assert_eq!(scan_ceiling(100, false, 1_000, 100), 149);
    assert_eq!(scan_ceiling(100, true, 1_000, 100), 249);
    assert_eq!(scan_ceiling(100, true, 120, 100), 120);
    assert_eq!(scan_ceiling(100, false, 90, 100), 90);
    let orphan = vec![(vec![0x53], OutPoint { txid: Txid([9; 32]), vout: 0 })];
    assert_eq!(round_at(100, 1_000, &[], orphan).2.ceiling, 249);
    assert_eq!(round_at(100, 1_000, &[], vec![]).2.ceiling, 149);
    let (_, _, first) = round_at(0, 1_000, &[], vec![]);
    assert_eq!((first.next, first.ceiling), (1_000, 1_000), "a first round starts at the tip");
    assert_eq!(first.wants(), Some(1_000));
}

#[test]
fn the_seal_is_decided_by_spaced_agreement_and_the_publish_by_what_was_found() {
    let mut store = Store::open_in_memory();
    let mut pacer = MigrationPacer::new(START);
    let mut memo: Table<Carried> = Table::new();
    let instance = b"instance";
    let generation = [4u8; 32];
    let partial = WalkOutcome::Recovered { source: "a".into(), unresolved: 1, truncated_fold: false };
    let whole = WalkOutcome::Recovered { source: "a".into(), unresolved: 0, truncated_fold: false };
    let digest = state_digest(&state(1, 1, 10));
    assert_ne!(digest, state_digest(&state(2, 1, 10)));

    // A recovery is carried forward even if it is not the whole story, and nothing else is.
    assert_eq!(forward(&partial, &memo, instance, &digest), Forward::Send);
    assert_eq!(forward(&whole, &memo, instance, &digest), Forward::Send);
    assert_eq!(forward(&WalkOutcome::SeedLocal, &memo, instance, &digest), Forward::Nothing);

    let mut now = START + WARMUP;
    assert!(walk_is_due(&store, &pacer, instance, &generation, now));
    // A recovery that did not get out counts for nothing, however often it is made.
    for _ in 0..10 {
        assert!(!walked(&mut store, &mut pacer, &mut memo, instance, &generation, &whole, false, None, now));
        assert!(!walk_is_due(&store, &pacer, instance, &generation, now));
        now += SEAL_SPACING;
    }
    // Sent once, it is not sent again.
    assert!(!walked(&mut store, &mut pacer, &mut memo, instance, &generation, &whole, false, Some(digest), now));
    assert_eq!(forward(&whole, &memo, instance, &digest), Forward::Already);
    assert_eq!(forward(&whole, &memo, instance, &[0; 32]), Forward::Send);
    for i in 1..SEAL_AFTER_WALKS {
        now += SEAL_SPACING;
        let over = walked(&mut store, &mut pacer, &mut memo, instance, &generation, &whole, true, None, now);
        assert_eq!(over, i == SEAL_AFTER_WALKS - 1);
    }
    assert!(store.migration_done(instance, &generation));
    assert!(!walk_is_due(&store, &pacer, instance, &generation, now + SEAL_SPACING));
    assert!(walk_is_due(&store, &pacer, instance, &[5; 32], now + SEAL_SPACING));
}

#[test]
fn a_checkpoint_moves_along_while_blocks_are_empty_and_waits_when_they_are_not() {
    let net = BitcoinNetwork::Signet;
    let (obs, mut store, mut round) = round_at(100, 103, &[], vec![]);
    let mut prev = [1u8; 32];
    let mut anchors = Vec::new();
    for (i, script) in [0x60u8, 0x51, 0x60].iter().enumerate() {
        let (raw, _, hash) = block_of(prev, 1_700_000_000, &[build_tx(&[(7, vec![*script])])]);
        prev = hash.0;
        let block = scan_block(&raw, &hash, 100 + i as u32, None, &round.scan).unwrap();
        round.take_block(&obs, &mut store, &[1; 32], &block);
        anchors.push(block.anchor);
    }
    assert_eq!(store.checkpoint(net), Some(anchors[0]));
    assert_eq!(round.deferred, Some(anchors[2]));
    assert_eq!(round.next, 103);

    // The node is away: the blocks are kept, up to a point.
    assert_eq!(round.close(&mut store, net, 0, 2, true), 1);
    assert_eq!(round.close(&mut store, net, 1, 2, true), 2);
    assert_eq!(store.checkpoint(net), Some(anchors[0]));
    assert_eq!(round.close(&mut store, net, 2, 2, true), 0);
    assert_eq!(store.checkpoint(net), Some(anchors[2]));
    store.rewind_checkpoint_to(net, 100);
    assert_eq!(round.close(&mut store, net, 1, 2, false), 0);
    assert_eq!(store.checkpoint(net), Some(anchors[2]));
}

#[test]
fn a_node_that_is_away_ends_the_sending_and_a_refusal_does_not() {
    let signer = Signer::from_seed([1; 32]);
    let net = BitcoinNetwork::Signet;
    let obs = observer();
    let mut store = Store::open_in_memory();
    let mut claims = ClaimsByScript::new();
    let pa = obs.address_params(b"a", signer.bridge_id());
    let pb = obs.address_params(b"b", signer.bridge_id());
    claims.push(b"a", claim(&signer, &pa, 1));
    claims.push(b"b", claim(&signer, &pb, 1));
    claims.push(b"a", claim(&signer, &pa, 2));
    claims.push(b"c", claim(&signer, &pb, 3));
    let mut out = Outbox::new(net, &claims);
    assert_eq!(out.scripts, vec![b"a".to_vec(), b"b".to_vec(), b"c".to_vec()]);
    assert_eq!(out.current(), Some(0));
    out.sent(&mut store, &claims.about(b"a"), Sent::Refused);
    assert!(!store.is_published(net, b"a", &claims.about(b"a")[0].digest()));
    assert_eq!(out.current(), Some(1));
    out.sent(&mut store, &claims.about(b"b"), Sent::Published);
    assert!(store.is_published(net, b"b", &claims.about(b"b")[0].digest()));
    out.sent(&mut store, &claims.about(b"c"), Sent::Unreachable);
    assert_eq!(out.current(), None);
    assert!(out.unreachable);
    let mut quiet = Outbox::new(net, &claims);
    quiet.nothing_new();
    assert_eq!(quiet.current(), Some(1));
    quiet.tip_sent(Sent::Refused);
    assert!(!quiet.unreachable);
    quiet.tip_sent(Sent::Unreachable);
    assert_eq!(quiet.current(), None);
}

#[test]
fn a_demo_script_gets_some_history() {
    let net = BitcoinNetwork::Signet;
    let mut store = Store::open_in_memory();
    store.set_checkpoint(net, &BlockAnchor { height: 500, hash: BlockHash([1; 32]) });
    assert_eq!(backfill_from(500, 144), 356);
    assert_eq!(backfill_from(100, 144), 0);
    seed_demo(&mut store, net, b"demo", 356);
    let w = &store.watched(net)[0];
    assert!(w.is_public_demo);
    assert_eq!(w.scan_from_height, 356);
    assert_eq!(store.checkpoint(net).unwrap().height, 356);
    assert_eq!(
        scan_set(&vec![b"a".to_vec()], &vec![b"a".to_vec(), b"b".to_vec(), b"b".to_vec()]),
        vec![b"a".to_vec(), b"b".to_vec()]
    );
}

#[test]
fn a_payment_is_asserted_again_as_it_is_buried() {
    let net = BitcoinNetwork::Signet;
    let signer = Signer::from_seed([1; 32]);
    let (obs, mut store, mut round) = round_at(100, 100, &[], vec![]);
    let (raw, header, hash) = block_of([1; 32], 1_700_000_000, &[build_tx(&[(7, vec![0x51])])]);
    let block = scan_block(&raw, &hash, 100, Some(5), &round.scan).unwrap();
    round.take_block(&obs, &mut store, signer.key(), &block);
    round.close(&mut store, net, 0, 2, false);

    let mut last = header;
    let mut headers = Vec::new();
    for i in 0..3u8 {
        last = mine(sha256d(&last.0), [i; 32], 1_700_000_600, EASY);
        headers.push(last);
    }
    let tip = BlockAnchor { height: 103, hash: BlockHash(sha256d(&last.0)) };
    let mut round = Round::begin(&obs, &store, tip, &vec![], 101, vec![]);
    let tasks = obs.deep_tasks(&store, 103);
    assert_eq!(tasks.len(), 1);
    let (first, end) = freenet_bitcoin::observer::task_headers(&tasks[0], 103).unwrap();
    assert_eq!((first, end), (100, 103));
    let mut shown = vec![header];
    shown.extend_from_slice(&headers);
    let sources = vec![Some(DeepSource {
        raw: raw.clone(),
        hash,
        height: 100,
        median_time: Some(5),
        headers: shown,
    })];
    let mut short = ClaimsByScript::new();
    let too_few = vec![Some(DeepSource {
        raw: raw.clone(),
        hash,
        height: 100,
        median_time: Some(5),
        headers: vec![header],
    })];
    obs.deep_claims(&mut store, signer.key(), &tip, &tasks, &too_few, &mut short);
    assert!(short.entries.is_empty(), "a depth takes its headers");
    assert_eq!(obs.deep_tasks(&store, 103).len(), 1);
    round.conclude(&obs, &mut store, signer.key(), &tasks, &sources, 10);
    let params = obs.address_params(&[0x51], signer.bridge_id());
    let said = round.claims.about(&[0x51]);
    let body = said[0].verify(&params).unwrap();
    match body.claim {
        Claim::ConfirmedOutput { spv, anchor, .. } => {
            assert_eq!(spv.following_headers, headers);
            assert_eq!(anchor, block.anchor);
        }
        other => panic!("{other:?}"),
    }
    assert_eq!(body.as_of, tip);
    assert!(obs.deep_tasks(&store, 103).is_empty(), "that rung is done");
    assert!(!obs.deep_tasks(&store, 105).is_empty());
}

#[test]
fn a_report_says_what_a_contract_establishes() {
    let p = params();
    let s = state(1, 50_000, 101);
    let bytes = to_cbor(&s).unwrap();
    let r = verify_address(&p, &bytes, Some(101), Some(50_000), 2).unwrap();
    assert_eq!(r.scanned, None);
    assert_eq!(r.payments.len(), 1);
    assert_eq!(r.payments[0].confirmations, 2);
    assert_eq!(r.confirmed, Some(50_000));
    match r.settlement {
        Some(Settlement::Settled { claims, confirmed }) => {
            assert_eq!(claims.len(), 1);
            assert_eq!(confirmed, 50_000);
        }
        other => panic!("{other:?}"),
    }
    let r = report(&p, &s, Some(101), Some(50_001), 2).unwrap();
    assert!(matches!(r.settlement, Some(Settlement::Unsettled { confirmed: 50_000 })));
    let r = report(&p, &s, None, Some(1), 2).unwrap();
    assert!(matches!(r.settlement, Some(Settlement::NoTip)));
    assert_eq!((r.confirmed, r.payments[0].confirmations), (None, 0));
    let r = report(&p, &BitcoinAddressStateV1::default(), Some(5), None, 2).unwrap();
    assert!(r.settlement.is_none() && r.payments.is_empty() && r.confirmed.is_none());

    assert!(matches!(
        verify_address(&p, b"x", None, None, 1),
        Err(ReportFault::Unreadable(_))
    ));
    let mut stranger = params();
    stranger.trusted_bridges = vec![BridgeId([3; 32])];
    let fault = verify_address(&stranger, &bytes, None, None, 1).unwrap_err();
    assert!(matches!(fault, ReportFault::BadClaim(_)));
    assert!(fault.message().starts_with("a claim in the retrieved state does not verify: "));
}

#[test]
fn a_tip_contract_shows_its_highest_block() {
    let signer = Signer::from_seed([1; 32]);
    let obs = observer();
    let (raw, _, hash) = block_of([1; 32], 1_700_000_000, &[build_tx(&[(7, vec![0x60])])]);
    let mut entries = Vec::new();
    for h in [7u32, 9, 8] {
        let b = scan_block(&raw, &hash, h, None, &vec![]).unwrap();
        entries.push(obs.tip_entry(signer.key(), &b));
    }
    let w = publish_tip(&obs.tip_params(signer.bridge_id()), entries).unwrap();
    assert_eq!(shown_tip(&w.state), Some(9));
    assert_eq!(shown_tip(b"x"), None);
    assert_eq!(shown_tip(&to_cbor(&BitcoinTipStateV1::default()).unwrap()), None);
}

// ---------------------------------------------------------------------------
// The service
// ---------------------------------------------------------------------------

fn service(policy: AuthPolicy) -> ServiceState {
    ServiceState {
        bridge: Signer::from_seed([1; 32]).bridge_id(),
        auth: policy,
        observers: vec![observer()],
        address_code_hash: Some([6; 32]),
        tip_contract_ids: vec![(BitcoinNetwork::Signet, "tip".into())],
    }
}

fn watch_request(network: BitcoinNetwork, from: Option<u32>) -> WatchRequest {
    WatchRequest { network, script_pubkey: vec![1, 2, 3], scan_from_height: from }
}

#[test]
fn status_needs_no_credential() {
    let req = ServiceRequest { body: RequestBody::Status, auth: ServiceAuth::Open };
    let back: ServiceRequest = from_cbor(&to_cbor(&req).unwrap()).unwrap();
    assert!(matches!(back.body, RequestBody::Status));
    let st = service(AuthPolicy::GhostKey { master_verifying_key_b64: None });
    let mut store = Store::open_in_memory();
    let mut challenges = Challenges::new();
    assert!(matches!(st.begin(&mut store, &mut challenges, back, 0), Next::ReadStatus));
    match st.status_reply(Some(77), Some(false)) {
        ServiceResponse::Status(s) => {
            assert_eq!((s.tip_height, s.initial_block_download, s.tip_block_time), (77, false, 0));
            assert_eq!(s.accepted_auth, vec!["ghostkey".to_string()]);
            assert_eq!(s.tip_contract_id, Some("tip".to_string()));
        }
        other => panic!("{other:?}"),
    }
    match st.status_reply(None, None) {
        ServiceResponse::Status(s) => assert_eq!((s.tip_height, s.initial_block_download), (0, true)),
        other => panic!("{other:?}"),
    }
    assert_eq!(st.status(&vec![None]).len(), 0);
    assert_eq!(st.status(&vec![Some((5, true))])[0].tip_height, 5);
}

#[test]
fn a_watch_starts_at_the_tip_or_below_and_names_its_contract() {
    let st = service(AuthPolicy::Open);
    let mut store = Store::open_in_memory();
    let mut challenges = Challenges::new();
    let ask = |from| ServiceRequest {
        body: RequestBody::Watch(watch_request(BitcoinNetwork::Signet, from)),
        auth: ServiceAuth::Open,
    };
    for (from, start, already) in [(None, 100, false), (Some(900), 100, true), (Some(40), 40, true)] {
        let w = match st.begin(&mut store, &mut challenges, ask(from), 0) {
            Next::ReadTip(w) => w,
            other => panic!("{other:?}"),
        };
        match st.watch_reply(&mut store, &w, Ok(100), 5) {
            ServiceResponse::Watching { contract_id, scan_from_height, already_active } => {
                let params = observer().address_params(&[1, 2, 3], st.bridge);
                let id = freenet_bitcoin::freenet::address_instance_id(&[6; 32], &params);
                assert_eq!(contract_id, bs58::encode(id).into_string());
                assert_eq!((scan_from_height, already_active), (start, already));
            }
            other => panic!("{other:?}"),
        }
    }
    assert_eq!(store.watched(BitcoinNetwork::Signet)[0].scan_from_height, 40);
    let off = watch_request(BitcoinNetwork::Bitcoin, None);
    assert_eq!(
        st.watch_reply(&mut store, &off, Ok(100), 5),
        ServiceResponse::Error(BridgeError::UnsupportedNetwork)
    );
    let w = watch_request(BitcoinNetwork::Signet, None);
    assert_eq!(
        st.watch_reply(&mut store, &w, Err("down".into()), 5),
        ServiceResponse::Error(BridgeError::Internal { detail: "down".into() })
    );
    // And the end of it.
    let end = ServiceRequest { body: RequestBody::Unwatch(w), auth: ServiceAuth::Open };
    match st.begin(&mut store, &mut challenges, end, 0) {
        Next::Answer(a) => assert_eq!(a, ServiceResponse::Unwatched),
        other => panic!("{other:?}"),
    }
    assert!(store.watched(BitcoinNetwork::Signet).is_empty());
}

#[test]
fn a_refused_request_changes_nothing() {
    let (policy, pem, key) = ghost_key();
    let st = service(policy);
    let mut store = Store::open_in_memory();
    let mut challenges = Challenges::new();
    store.add_watch(
        &WatchedScript {
            network: BitcoinNetwork::Signet,
            script_pubkey: vec![1, 2, 3],
            scan_from_height: 0,
            is_public_demo: false,
        },
        0,
    );
    let end = RequestBody::Unwatch(watch_request(BitcoinNetwork::Signet, None));
    let req = ServiceRequest { body: end.clone(), auth: ServiceAuth::Open };
    match st.begin(&mut store, &mut challenges, req, 0) {
        Next::Answer(a) => assert_eq!(status_code(&a), 403),
        other => panic!("{other:?}"),
    }
    assert_eq!(store.watched(BitcoinNetwork::Signet).len(), 1);
    let c = challenge(&mut challenges, 0);
    let signed = ServiceRequest { body: end.clone(), auth: shown(&pem, &key, &c, &to_cbor(&end).unwrap()) };
    match st.begin(&mut store, &mut challenges, signed.clone(), 0) {
        Next::Answer(a) => assert_eq!(a, ServiceResponse::Unwatched),
        other => panic!("{other:?}"),
    }
    match st.begin(&mut store, &mut challenges, signed, 0) {
        Next::Answer(a) => assert_eq!(status_code(&a), 401),
        other => panic!("{other:?}"),
    }
    assert!(store.watched(BitcoinNetwork::Signet).is_empty());
}

#[test]
fn a_transaction_is_relayed_only_where_the_network_is_served() {
    let st = service(AuthPolicy::Open);
    let mut store = Store::open_in_memory();
    let mut challenges = Challenges::new();
    for (network, served) in [(BitcoinNetwork::Signet, true), (BitcoinNetwork::Bitcoin, false)] {
        let req = ServiceRequest {
            body: RequestBody::Broadcast(BroadcastRequest { network, raw_tx: vec![7] }),
            auth: ServiceAuth::Open,
        };
        match st.begin(&mut store, &mut challenges, req, 0) {
            Next::Relay(b) => assert!(served && b.raw_tx == vec![7]),
            Next::Answer(a) => assert!(!served && status_code(&a) == 400),
            other => panic!("{other:?}"),
        }
    }
    assert_eq!(status_code(&relay_reply(Ok((Txid([1; 32]), true)))), 200);
    assert_eq!(
        relay_reply(Err("dust".into())),
        ServiceResponse::Error(BridgeError::RejectedByNode { reason: "dust".into() })
    );
    for (e, code) in [
        (BridgeError::RateLimited { retry_after_s: 1 }, 429),
        (BridgeError::Internal { detail: "x".into() }, 500),
        (BridgeError::NotSynced { tip_height: 1 }, 400),
    ] {
        assert_eq!(status_code(&ServiceResponse::Error(e)), code);
    }
}

#[test]
fn a_key_file_that_is_too_short_is_refused() {
    assert!(Signer::from_file(b"too short").is_none());
    let mut raw = vec![3u8; 32];
    raw.push(b'\n');
    assert_eq!(
        Signer::from_file(&raw).unwrap().bridge_id(),
        Signer::from_seed([3; 32]).bridge_id()
    );
    assert_ne!(Signer::generate().bridge_id(), Signer::generate().bridge_id());
}

#[test]
fn a_config_with_no_networks_is_refused() {
    let mut cfg = BridgeConfig {
        signing_key_path: "k".into(),
        database_path: "d".into(),
        freenet_ws: freenet_bitcoin::config::default_freenet_ws(),
        contract_dir: "c".into(),
        networks: vec![],
    };
    assert!(cfg.check().is_err());
    cfg.networks.push(network_config());
    assert!(cfg.check().is_ok());
    assert!(cfg.network(BitcoinNetwork::Signet).is_some());
    assert!(cfg.network(BitcoinNetwork::Bitcoin).is_none());
}

#[test]
fn a_cookie_is_preferred_over_a_password_and_something_is_needed() {
    let mut cfg = network_config();
    assert!(matches!(cfg.rpc_auth(), Ok(RpcAuth::UserPass(u, p)) if u == "u" && p == "p"));
    cfg.rpc_cookie_path = Some("/cookie".into());
    assert!(matches!(cfg.rpc_auth(), Ok(RpcAuth::Cookie(c)) if c == "/cookie"));
    cfg.rpc_cookie_path = None;
    cfg.rpc_password = None;
    assert!(cfg.rpc_auth().is_err());
}
