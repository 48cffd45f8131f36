//! Turning what a bridge sees of Bitcoin into claims.
//!
//! Contract state is a set of claims stamped with chain heights, so there is nothing to
//! edit when the chain changes its mind: a reorg makes a new claim at a higher `as_of`,
//! and readers take the highest.

use vstd::prelude::*;

use crate::bytes::{arr32, arr32_of_view, copy_all, same32, same_bytes};
use crate::chain::{
    branches_are_short, build_spv_proof, every_branch_folds_to_the_root, found_at, found_in,
    found_models, found_up_to, header_range, ids, is_scan_of, nodes, parts_of, root_of, scan_block,
    scan_fault, what_is_found_is_in_the_block, ForkWalk, FoundModel, FoundOutput, ScannedBlock,
    TxModel,
};
use crate::config::NetworkConfig;
use crate::claims::{BodyModel, Claim, ClaimBody, ClaimModel, TipEntryBody};
use crate::outside::{blake3_of, block_of, ed25519_public_of, ed25519_signature_of};
use crate::records::{body_bytes, tip_bytes, tip_from};
use crate::signing::{
    a_signed_claim_verifies, attests, attests_tip, belongs, claim_message, claim_verdict,
    evidence_fault, tip_message,
    SignedClaim, SignedModel, SignedTipEntry,
};
use crate::sorted::Copied;
use crate::spv::{
    header_holds, proof_is_sound_and_complete, sha256d_of, tx_outputs, BlockHeader, PowFloor,
    ProofModel, SpvError, MAX_FOLLOWING_HEADERS, MAX_MERKLE_DEPTH, MAX_RAW_TX,
};
use crate::store::{
    deepened, moved_out, output_recorded, BlockRow, OutputModel, OutputRow, PendingDeepClaim,
    Store, StoreModel,
};
use crate::table::{
    distinct, first, first_is_first, nothing_is_first, put, those, those_are_of_them, Row,
};
use crate::types::{
    script_id_input, BitcoinAddressParameters, BitcoinNetwork, BitcoinTipParameters, BlockAnchor,
    BlockHash, BridgeId, OutPoint, ParamsModel, ScriptId, Txid,
};

verus! {

broadcast use vstd::array::group_array_axioms;

/// Follows one network, as an operator set it up.
#[derive(Debug)]
pub struct Observer {
    pub cfg: NetworkConfig,
}

/// An outpoint that a reorg took off the best chain, with the script it paid.
pub type OrphanedOutpoint = (Vec<u8>, OutPoint);

/// Claims in the order they were made, each with the script it concerns.
#[derive(Debug)]
pub struct ClaimsByScript {
    pub entries: Vec<(Vec<u8>, SignedClaim)>,
}

impl View for ClaimsByScript {
    type V = Seq<(Seq<u8>, SignedModel)>;

    open spec fn view(&self) -> Seq<(Seq<u8>, SignedModel)> {
        self.entries@.map_values(|e: (Vec<u8>, SignedClaim)| (e.0@, e.1@))
    }
}

/// The claims about one script, in order.
pub open spec fn claims_about(all: Seq<(Seq<u8>, SignedModel)>, script: Seq<u8>) -> Seq<SignedModel>
    decreases all.len(),
{
    if all.len() == 0 {
        Seq::empty()
    } else {
        let before = claims_about(all.drop_last(), script);
        if all.last().0 == script {
            before.push(all.last().1)
        } else {
            before
        }
    }
}

impl ClaimsByScript {
    pub fn new() -> (r: Self)
        ensures
            r@ == Seq::<(Seq<u8>, SignedModel)>::empty(),
    {
        let r = ClaimsByScript { entries: Vec::new() };
        assert(r@ =~= Seq::<(Seq<u8>, SignedModel)>::empty());
        r
    }

    pub fn push(&mut self, script: &[u8], claim: SignedClaim)
        ensures
            final(self)@ == old(self)@.push((script@, claim@)),
    {
        let ghost was = self@;
        self.entries.push((copy_all(script), claim));
        assert(self@ =~= was.push((script@, claim@)));
    }

    /// The claims about one script, in the order they were made.
    pub fn about(&self, script: &[u8]) -> (r: Vec<SignedClaim>)
        ensures
            crate::address_state::signed_models(r@) == claims_about(self@, script@),
    {
        let ghost all = self@;
        let n: usize = self.entries.len();
        let mut r: Vec<SignedClaim> = Vec::new();
        assert(crate::address_state::signed_models(r@) =~= Seq::<SignedModel>::empty());
        for i in 0..n
            invariant
                n == self.entries@.len(),
                all == self@,
                crate::address_state::signed_models(r@) == claims_about(
                    all.take(i as int),
                    script@,
                ),
        {
            proof {
                assert(all.take(i + 1).drop_last() =~= all.take(i as int));
                assert(all.take(i + 1).last() == (
                    self.entries@[i as int].0@,
                    self.entries@[i as int].1@,
                ));
            }
            if same_bytes(&self.entries[i].0, script) {
                let ghost was = crate::address_state::signed_models(r@);
                r.push(self.entries[i].1.copied());
                assert(crate::address_state::signed_models(r@) =~= was.push(
                    self.entries@[i as int].1@,
                ));
            }
        }
        assert(all.take(n as int) =~= all);
        r
    }
}

// ---------------------------------------------------------------------------
// Parameters
// ---------------------------------------------------------------------------

impl Observer {
    pub fn new(cfg: NetworkConfig) -> (r: Self)
        ensures
            r.cfg == cfg,
    {
        Observer { cfg }
    }

    pub fn network(&self) -> (r: BitcoinNetwork)
        ensures
            r == self.cfg.network,
    {
        self.cfg.network
    }

    /// The parameters of the contract in which a bridge publishes a script's activity: it
    /// alone is trusted there.
    pub fn address_params(&self, script: &[u8], bridge: BridgeId) -> (r:
        BitcoinAddressParameters)
        ensures
            r.network == self.cfg.network,
            r.script_pubkey@ == script@,
            r.trusted_bridges@ == seq![bridge],
            r.pow_floor.0 == (if self.cfg.network is Bitcoin {
                0x1900_ffffu32
            } else {
                0x207f_ffffu32
            }),
    {
        let mut trusted: Vec<BridgeId> = Vec::new();
        trusted.push(bridge);
        assert(trusted@ =~= seq![bridge]);
        BitcoinAddressParameters {
            network: self.cfg.network,
            script_pubkey: copy_all(script),
            trusted_bridges: trusted,
            pow_floor: self.cfg.network.default_pow_floor(),
        }
    }
}

impl Observer {
    pub fn tip_params(&self, bridge: BridgeId) -> (r: BitcoinTipParameters)
        ensures
            r.network == self.cfg.network,
            r.trusted_bridges@ == seq![bridge],
    {
        let mut trusted: Vec<BridgeId> = Vec::new();
        trusted.push(bridge);
        assert(trusted@ =~= seq![bridge]);
        BitcoinTipParameters { network: self.cfg.network, trusted_bridges: trusted }
    }
}

// ---------------------------------------------------------------------------
// Signing
// ---------------------------------------------------------------------------

/// What a bridge with this seed signs a claim as.
pub open spec fn signed_with(seed: Seq<u8>, body: BodyModel) -> SignedModel {
    SignedModel {
        body_cbor: body_bytes(body),
        bridge: BridgeId(arr32(ed25519_public_of(seed))),
        signature: ed25519_signature_of(seed, claim_message(body_bytes(body))),
    }
}

pub open spec fn script_id_of(network: BitcoinNetwork, script: Seq<u8>) -> ScriptId {
    ScriptId(arr32(blake3_of(script_id_input(network, script))))
}

/// What a bridge says about a script as of a tip.
pub open spec fn body_for(
    network: BitcoinNetwork,
    script: Seq<u8>,
    tip: BlockAnchor,
    claim: ClaimModel,
) -> BodyModel {
    BodyModel { script_id: script_id_of(network, script), network, as_of: tip, claim }
}

/// Whether what a bridge signs of a script is validly signed, and names that script.
pub open spec fn vouched(
    seed: Seq<u8>,
    body: BodyModel,
    network: BitcoinNetwork,
    script: Seq<u8>,
) -> bool {
    &&& attests(signed_with(seed, body), body)
    &&& body.script_id.0@ == blake3_of(script_id_input(network, script))
}

fn sign_claim(
    network: BitcoinNetwork,
    key: &[u8; 32],
    script: &[u8],
    tip: &BlockAnchor,
    claim: Claim,
) -> (r: SignedClaim)
    ensures
        r@ == signed_with(key@, body_for(network, script@, *tip, claim@)),
        vouched(key@, body_for(network, script@, *tip, claim@), network, script@),
{
    let script_id = ScriptId::compute(network, script);
    proof {
        arr32_of_view(script_id.0);
    }
    let body = ClaimBody { script_id, network, as_of: *tip, claim };
    let c = SignedClaim::sign(key, &body).unwrap();
    proof {
        arr32_of_view(c.bridge.0);
        assert(c@ == signed_with(key@, body@));
    }
    c
}

// ---------------------------------------------------------------------------
// Reorgs
// ---------------------------------------------------------------------------

/// What a reorg check needs next, or what it found.
#[derive(Debug)]
pub enum ReorgStep {
    /// The hash of the node's block at this height.
    Ask(u32),
    /// Scan from here; these outpoints are no longer on the best chain.
    Resume { from: u32, orphaned: Vec<OrphanedOutpoint> },
}

/// A check whether what was recorded is still the node's chain.
///
/// Retractions are not signed here. A reorg mostly puts the same transactions into other
/// blocks, which this round is about to scan, and a retraction and a confirmation of one
/// outpoint at one `as_of` would be a contradiction of the bridge's own making.
#[derive(Debug)]
pub struct ReorgCheck {
    pub network: BitcoinNetwork,
    pub walk: ForkWalk,
    /// Whether the last block recorded is being looked at for the first time.
    pub first_look: bool,
}

/// The outpoints above a fork, with the scripts they paid.
pub open spec fn orphans(s: StoreModel, network: BitcoinNetwork, fork: u32) -> Seq<
    (Seq<u8>, OutPoint),
> {
    those(
        s.outputs,
        |o: OutputModel| o.network == network && o.block is Some && o.block->Some_0.height > fork,
    ).map_values(|o: OutputModel| (o.script_pubkey, OutPoint { txid: Txid(o.txid), vout: o.vout }))
}

/// A store that has forgotten what stood above a fork.
pub open spec fn forked(s: StoreModel, network: BitcoinNetwork, fork: u32) -> StoreModel {
    StoreModel {
        outputs: s.outputs.map_values(|o: OutputModel| moved_out(o, network, fork)),
        blocks: those(s.blocks, |r: BlockRow| !(r.network == network && r.height > fork)),
        ..s
    }
}

pub open spec fn orphan_models(v: Seq<OrphanedOutpoint>) -> Seq<(Seq<u8>, OutPoint)> {
    v.map_values(|o: OrphanedOutpoint| (o.0@, o.1))
}

impl Observer {
    /// Begin to look whether a reorg has touched what was recorded. `Ok` is where to scan
    /// from, where nothing was recorded yet and so nothing can have been orphaned; `Err` is
    /// a check to go on with.
    pub fn handle_reorg(&self, store: &Store) -> (r: Result<u32, ReorgCheck>)
        ensures
            match (store@.checkpoint(self.cfg.network), r) {
                (None, Ok(from)) => from == 0,
                (Some(c), Err(check)) => check.network == self.cfg.network && check.walk.height
                    == c.height && check.walk.floor == (if c.height > self.cfg.max_reorg_depth {
                    c.height - self.cfg.max_reorg_depth
                } else {
                    0
                }) && check.first_look,
                _ => false,
            },
    {
        match store.checkpoint(self.cfg.network) {
            None => Ok(0),
            Some(c) => Err(
                ReorgCheck {
                    network: self.cfg.network,
                    walk: ForkWalk::new(c.height, self.cfg.max_reorg_depth),
                    first_look: true,
                },
            ),
        }
    }
}

impl ReorgCheck {
    /// Whether the node's hash at the height being looked at is needed: only where one
    /// was recorded.
    pub fn wants_hash(&self, store: &Store) -> (r: bool)
        ensures
            r == store@.block_at(self.network, self.walk.height) is Some,
    {
        store.block_at(self.network, self.walk.height).is_some()
    }

    /// Take the node's hash at the height being looked at. `None` means that the node did
    /// not say. The first look is only whether anything has changed, and there it counts as
    /// a change; after that it ends the round.
    pub fn answer(&mut self, store: &mut Store, node: Option<BlockHash>) -> (r: Option<ReorgStep>)
        requires
            old(self).walk.height < u32::MAX,
            old(self).walk.floor <= old(self).walk.height,
        ensures
            ({
                let h = old(self).walk.height;
                let floor = old(self).walk.floor;
                let recorded = old(store)@.block_at(old(self).network, h);
                let same = recorded is Some && node is Some && recorded->Some_0 == node->Some_0;
                if recorded is Some && old(self).first_look {
                    &&& final(store)@ == old(store)@
                    &&& if same {
                        &&& r matches Some(ReorgStep::Resume { from, orphaned })
                        &&& from == h + 1
                        &&& orphaned@.len() == 0
                    } else {
                        &&& r == Some(ReorgStep::Ask(h))
                        &&& *final(self) == (ReorgCheck { first_look: false, ..*old(self) })
                    }
                } else if recorded is Some && node is None {
                    &&& r is None
                    &&& final(store)@ == old(store)@
                } else if recorded is None || same || h <= floor {
                    let fork = if recorded is None || same {
                        h
                    } else {
                        floor
                    };
                    &&& r matches Some(ReorgStep::Resume { from, orphaned })
                    &&& from == fork + 1
                    &&& orphan_models(orphaned@) == orphans(old(store)@, old(self).network, fork)
                    &&& final(store)@ == forked(old(store)@, old(self).network, fork)
                } else {
                    &&& r == Some(ReorgStep::Ask((h - 1) as u32))
                    &&& final(store)@ == old(store)@
                    &&& final(self).walk.height == h - 1
                    &&& final(self).walk.floor == floor
                    &&& final(self).network == old(self).network
                    &&& !final(self).first_look
                }
            }),
    {
        let network = self.network;
        let height: u32 = self.walk.height;
        let recorded = store.block_at(network, height);
        let first = self.first_look;
        self.first_look = false;
        let current = match (recorded, node) {
            (Some(ours), Some(theirs)) => {
                if first {
                    let same = same32(&ours.0, &theirs.0);
                    proof {
                        arr32_of_view(ours.0);
                        arr32_of_view(theirs.0);
                    }
                    if same {
                        return Some(ReorgStep::Resume { from: height + 1, orphaned: Vec::new() });
                    }
                    return Some(ReorgStep::Ask(height));
                }
                theirs
            },
            (Some(_), None) => {
                if first {
                    return Some(ReorgStep::Ask(height));
                }
                return None;
            },
            (None, _) => BlockHash([0u8; 32]),
        };
        match self.walk.step(recorded, current) {
            Some(fork) => Some(Self::fork_at(store, network, fork)),
            None => Some(ReorgStep::Ask(self.walk.height)),
        }
    }

    /// Forget what stood above a fork.
    fn fork_at(store: &mut Store, network: BitcoinNetwork, fork: u32) -> (r: ReorgStep)
        requires
            fork < u32::MAX,
        ensures
            r is Resume,
            r->from == fork + 1,
            orphan_models(r->orphaned@) == orphans(old(store)@, network, fork),
            final(store)@ == forked(old(store)@, network, fork),
    {
        let outputs = store.outputs_above(network, fork);
        let ghost sel = those(
            store@.outputs,
            |o: OutputModel|
                o.network == network && o.block is Some && o.block->Some_0.height > fork,
        );
        let mut orphaned: Vec<OrphanedOutpoint> = Vec::new();
        let n: usize = outputs.len();
        let ghost seen = outputs@.map_values(|o: (Vec<u8>, [u8; 32], u32)| (o.0@, o.1, o.2));
        for i in 0..n
            invariant
                n == outputs@.len(),
                seen == outputs@.map_values(|o: (Vec<u8>, [u8; 32], u32)| (o.0@, o.1, o.2)),
                orphaned@.len() == i,
                forall|j: int|
                    0 <= j < i ==> ((#[trigger] orphaned@[j]).0@, orphaned@[j].1) == (
                        seen[j].0,
                        OutPoint { txid: Txid(seen[j].1), vout: seen[j].2 },
                    ),
        {
            let o = &outputs[i];
            assert(seen[i as int] == (o.0@, o.1, o.2));
            orphaned.push((copy_all(&o.0), OutPoint { txid: Txid(o.1), vout: o.2 }));
        }
        proof {
            assert(seen.len() == sel.len());
            assert forall|j: int| 0 <= j < sel.len() implies orphan_models(orphaned@)[j] == orphans(
                store@,
                network,
                fork,
            )[j] by {
                assert(seen[j] == (sel[j].script_pubkey, sel[j].txid, sel[j].vout));
                assert(orphan_models(orphaned@)[j] == (orphaned@[j].0@, orphaned@[j].1));
            }
            assert(orphan_models(orphaned@) =~= orphans(store@, network, fork));
        }
        store.unconfirm_above(network, fork);
        store.forget_blocks_above(network, fork);
        ReorgStep::Resume { from: fork + 1, orphaned }
    }
}

/// The retractions that a reorg calls for: one for each orphaned outpoint that has not
/// been seen again.
pub open spec fn retractions(
    seed: Seq<u8>,
    network: BitcoinNetwork,
    tip: BlockAnchor,
    orphaned: Seq<(Seq<u8>, OutPoint)>,
    reconfirmed: Seq<OutPoint>,
) -> Seq<(Seq<u8>, SignedModel)>
    decreases orphaned.len(),
{
    if orphaned.len() == 0 {
        Seq::empty()
    } else {
        let before = retractions(seed, network, tip, orphaned.drop_last(), reconfirmed);
        let (script, outpoint) = orphaned.last();
        if reconfirmed.contains(outpoint) {
            before
        } else {
            before.push(
                (
                    script,
                    signed_with(
                        seed,
                        body_for(network, script, tip, ClaimModel::Retracted { outpoint }),
                    ),
                ),
            )
        }
    }
}

/// Whether an outpoint is one of some.
fn has_outpoint(list: &Vec<OutPoint>, op: &OutPoint) -> (r: bool)
    ensures
        r == list@.contains(*op),
{
    for i in 0..list.len()
        invariant
            forall|j: int| 0 <= j < i ==> list@[j] != *op,
    {
        proof {
            arr32_of_view(list@[i as int].txid.0);
            arr32_of_view(op.txid.0);
        }
        if same32(&list[i].txid.0, &op.txid.0) && list[i].vout == op.vout {
            assert(list@[i as int] == *op);
            return true;
        }
    }
    false
}

impl Observer {
    /// Sign a retraction of every orphaned outpoint that the round's scan did not put back on
    /// the chain, stamped with the current tip so that it outranks the confirmation.
    pub fn retraction_claims(
        &self,
        key: &[u8; 32],
        tip: &BlockAnchor,
        orphaned: &Vec<OrphanedOutpoint>,
        reconfirmed: &Vec<OutPoint>,
        claims: &mut ClaimsByScript,
    )
        ensures
            final(claims)@ == old(claims)@ + retractions(
                key@,
                self.cfg.network,
                *tip,
                orphan_models(orphaned@),
                reconfirmed@,
            ),
            forall|j: int|
                0 <= j < orphaned@.len() && !reconfirmed@.contains((#[trigger] orphaned@[j]).1)
                    ==> final(claims)@.contains(
                    (
                        orphaned@[j].0@,
                        signed_with(
                            key@,
                            body_for(
                                self.cfg.network,
                                orphaned@[j].0@,
                                *tip,
                                ClaimModel::Retracted { outpoint: orphaned@[j].1 },
                            ),
                        ),
                    ),
                ),
    {
        let network = self.cfg.network;
        let ghost all = orphan_models(orphaned@);
        let ghost before = claims@;
        let n: usize = orphaned.len();
        assert(all.take(0) =~= Seq::<(Seq<u8>, OutPoint)>::empty());
        assert(before + retractions(key@, network, *tip, all.take(0), reconfirmed@) =~= before);
        for i in 0..n
            invariant
                n == orphaned@.len(),
                network == self.cfg.network,
                all == orphan_models(orphaned@),
                claims@ == before + retractions(
                    key@,
                    network,
                    *tip,
                    all.take(i as int),
                    reconfirmed@,
                ),
        {
            let script = &orphaned[i].0;
            let outpoint = orphaned[i].1;
            proof {
                assert(all.take(i + 1).drop_last() =~= all.take(i as int));
                assert(all.take(i + 1).last() == (script@, outpoint));
            }
            if !has_outpoint(reconfirmed, &outpoint) {
                let signed = sign_claim(network, key, script, tip, Claim::Retracted { outpoint });
                let ghost was = retractions(key@, network, *tip, all.take(i as int), reconfirmed@);
                claims.push(script, signed);
                assert((before + was).push((script@, signed@)) =~= before + was.push(
                    (script@, signed@),
                ));
            }
        }
        assert(all.take(n as int) =~= all);
        proof {
            assert forall|j: int|
                0 <= j < orphaned@.len() && !reconfirmed@.contains((#[trigger] orphaned@[j]).1)
                    implies claims@.contains(
                (
                    orphaned@[j].0@,
                    signed_with(
                        key@,
                        body_for(
                            network,
                            orphaned@[j].0@,
                            *tip,
                            ClaimModel::Retracted { outpoint: orphaned@[j].1 },
                        ),
                    ),
                ),
            ) by {
                let made = retractions(key@, network, *tip, all, reconfirmed@);
                assert(all[j] == (orphaned@[j].0@, orphaned@[j].1));
                crate::observer_laws::every_payment_off_the_chain_is_retracted(
                    key@,
                    network,
                    *tip,
                    all,
                    reconfirmed@,
                    j,
                );
                let c = (
                    orphaned@[j].0@,
                    signed_with(
                        key@,
                        body_for(
                            network,
                            orphaned@[j].0@,
                            *tip,
                            ClaimModel::Retracted { outpoint: orphaned@[j].1 },
                        ),
                    ),
                );
                let k = choose|k: int| 0 <= k < made.len() && made[k] == c;
                assert(claims@[before.len() + k] == c);
            }
        }
    }
}

/// An outpoint that the same round confirmed is not retracted: the bridge never signs
/// both at one `as_of`.
pub proof fn nothing_reconfirmed_is_retracted(
    seed: Seq<u8>,
    network: BitcoinNetwork,
    tip: BlockAnchor,
    orphaned: Seq<(Seq<u8>, OutPoint)>,
    reconfirmed: Seq<OutPoint>,
    i: int,
)
    requires
        0 <= i < retractions(seed, network, tip, orphaned, reconfirmed).len(),
    ensures
        exists|j: int|
            0 <= j < orphaned.len() && !reconfirmed.contains((#[trigger] orphaned[j]).1)
                && retractions(seed, network, tip, orphaned, reconfirmed)[i] == (
                orphaned[j].0,
                signed_with(
                    seed,
                    body_for(
                        network,
                        orphaned[j].0,
                        tip,
                        ClaimModel::Retracted { outpoint: orphaned[j].1 },
                    ),
                ),
            ),
    decreases orphaned.len(),
{
    let rest = orphaned.drop_last();
    let before = retractions(seed, network, tip, rest, reconfirmed);
    if i < before.len() {
        nothing_reconfirmed_is_retracted(seed, network, tip, rest, reconfirmed, i);
        let j = choose|j: int|
            0 <= j < rest.len() && !reconfirmed.contains((#[trigger] rest[j]).1) && before[i] == (
                rest[j].0,
                signed_with(
                    seed,
                    body_for(
                        network,
                        rest[j].0,
                        tip,
                        ClaimModel::Retracted { outpoint: rest[j].1 },
                    ),
                ),
            );
        assert(orphaned[j] == rest[j]);
    } else {
        assert(orphaned[orphaned.len() - 1] == orphaned.last());
    }
}

// ---------------------------------------------------------------------------
// Blocks
// ---------------------------------------------------------------------------

pub open spec fn outpoint_of(f: FoundModel) -> OutPoint {
    OutPoint { txid: f.txid, vout: f.vout }
}

/// Byte strings as the hashes they are.
pub open spec fn hashes(nodes: Seq<Seq<u8>>) -> Seq<[u8; 32]> {
    nodes.map_values(|b: Seq<u8>| arr32(b))
}

proof fn hashes_of_nodes(branch: Seq<[u8; 32]>)
    ensures
        hashes(nodes(branch)) == branch,
{
    assert forall|i: int| 0 <= i < branch.len() implies hashes(nodes(branch))[i] == branch[i] by {
        arr32_of_view(branch[i]);
    }
    assert(hashes(nodes(branch)) =~= branch);
}

/// What a payment found in a block is claimed as, with headers that bury it.
pub open spec fn confirmation(
    f: FoundModel,
    value_sats: u64,
    anchor: BlockAnchor,
    header: BlockHeader,
    following: Seq<BlockHeader>,
) -> ClaimModel {
    ClaimModel::ConfirmedOutput {
        outpoint: outpoint_of(f),
        value_sats,
        anchor,
        spv: ProofModel {
            raw_tx: f.raw_tx,
            merkle_branch: hashes(f.merkle_branch),
            tx_index: f.tx_index,
            header,
            following_headers: following,
        },
    }
}

/// The record of a payment found in a block.
pub open spec fn output_found(
    network: BitcoinNetwork,
    f: FoundModel,
    anchor: BlockAnchor,
) -> OutputModel {
    OutputModel {
        network,
        script_pubkey: f.script_pubkey,
        txid: f.txid.0,
        vout: f.vout,
        value_sats: f.value_sats,
        block: Some(anchor),
        deep_published: 0,
    }
}

/// The outputs on record once payments have been found in a block.
pub open spec fn outputs_found(
    rows: Seq<OutputModel>,
    network: BitcoinNetwork,
    found: Seq<FoundModel>,
    anchor: BlockAnchor,
) -> Seq<OutputModel>
    decreases found.len(),
{
    if found.len() == 0 {
        rows
    } else {
        output_recorded(
            outputs_found(rows, network, found.drop_last(), anchor),
            output_found(network, found.last(), anchor),
        )
    }
}

/// What a bridge says of a payment at first sight.
pub open spec fn first_body(
    network: BitcoinNetwork,
    tip: BlockAnchor,
    f: FoundModel,
    anchor: BlockAnchor,
    header: BlockHeader,
) -> BodyModel {
    body_for(
        network,
        f.script_pubkey,
        tip,
        confirmation(f, f.value_sats, anchor, header, Seq::empty()),
    )
}

/// The claims that payments found in a block make at first sight.
pub open spec fn first_claims(
    seed: Seq<u8>,
    network: BitcoinNetwork,
    tip: BlockAnchor,
    found: Seq<FoundModel>,
    anchor: BlockAnchor,
    header: BlockHeader,
) -> Seq<(Seq<u8>, SignedModel)> {
    found.map_values(
        |f: FoundModel|
            (f.script_pubkey, signed_with(seed, first_body(network, tip, f, anchor, header))),
    )
}

impl Observer {
    /// Record a scanned block and what was found in it, and claim each payment. Every
    /// outpoint confirmed here is added to `confirmed`.
    pub fn claims_from_block(
        &self,
        store: &mut Store,
        key: &[u8; 32],
        block: &ScannedBlock,
        tip: &BlockAnchor,
        claims: &mut ClaimsByScript,
        confirmed: &mut Vec<OutPoint>,
    )
        ensures
            final(store)@ == (StoreModel {
                blocks: put::<BlockRow>(
                    old(store)@.blocks,
                    BlockRow {
                        network: self.cfg.network,
                        height: block.anchor.height,
                        hash: block.anchor.hash,
                    },
                ),
                outputs: outputs_found(
                    old(store)@.outputs,
                    self.cfg.network,
                    found_models(block.found@),
                    block.anchor,
                ),
                ..old(store)@
            }),
            final(claims)@ == old(claims)@ + first_claims(
                key@,
                self.cfg.network,
                *tip,
                found_models(block.found@),
                block.anchor,
                block.header,
            ),
            final(confirmed)@ == old(confirmed)@ + found_models(block.found@).map_values(
                |f: FoundModel| outpoint_of(f),
            ),
            forall|i: int|
                0 <= i < block.found@.len() ==> vouched(
                    key@,
                    first_body(
                        self.cfg.network,
                        *tip,
                        (#[trigger] block.found@[i])@,
                        block.anchor,
                        block.header,
                    ),
                    self.cfg.network,
                    block.found@[i].script_pubkey@,
                ),
    {
        let network = self.cfg.network;
        store.record_block(network, block.anchor.height, &block.anchor.hash);
        let ghost start = store@;
        let ghost found = found_models(block.found@);
        let ghost claims0 = claims@;
        let ghost confirmed0 = confirmed@;
        let ghost made = first_claims(key@, network, *tip, found, block.anchor, block.header);
        let ghost points = found.map_values(|f: FoundModel| outpoint_of(f));
        let n: usize = block.found.len();
        assert(found.take(0) =~= Seq::<FoundModel>::empty());
        assert(claims0 + made.take(0) =~= claims0);
        assert(confirmed0 + points.take(0) =~= confirmed0);
        for i in 0..n
            invariant
                n == block.found@.len(),
                found == found_models(block.found@),
                made == first_claims(key@, network, *tip, found, block.anchor, block.header),
                points == found.map_values(|f: FoundModel| outpoint_of(f)),
                store@ == (StoreModel {
                    outputs: outputs_found(
                        start.outputs,
                        network,
                        found.take(i as int),
                        block.anchor,
                    ),
                    ..start
                }),
                claims@ == claims0 + made.take(i as int),
                confirmed@ == confirmed0 + points.take(i as int),
                forall|j: int|
                    0 <= j < i ==> vouched(
                        key@,
                        first_body(
                            network,
                            *tip,
                            (#[trigger] block.found@[j])@,
                            block.anchor,
                            block.header,
                        ),
                        network,
                        block.found@[j].script_pubkey@,
                    ),
        {
            let f = &block.found[i];
            proof {
                assert(found.take(i + 1).drop_last() =~= found.take(i as int));
                assert(found.take(i + 1).last() == f@);
            }
            store.record_output(
                network,
                &f.script_pubkey,
                &f.txid.0,
                f.vout,
                f.value_sats,
                Some((block.anchor.height, block.anchor.hash)),
            );
            let outpoint = OutPoint { txid: f.txid, vout: f.vout };
            confirmed.push(outpoint);
            let spv = build_spv_proof(f, block.header, Vec::new());
            let claim = Claim::ConfirmedOutput {
                outpoint,
                value_sats: f.value_sats,
                anchor: block.anchor,
                spv,
            };
            proof {
                hashes_of_nodes(f.merkle_branch@);
                assert(claim@ =~= confirmation(
                    f@,
                    f.value_sats,
                    block.anchor,
                    block.header,
                    Seq::<BlockHeader>::empty(),
                ));
            }
            let signed = sign_claim(network, key, &f.script_pubkey, tip, claim);
            claims.push(&f.script_pubkey, signed);
            proof {
                assert(found[i as int] == f@);
                assert(made[i as int] == (f.script_pubkey@, signed@));
                assert(claims0 + made.take(i + 1) =~= (claims0 + made.take(i as int)).push(
                    made[i as int],
                ));
                assert(confirmed0 + points.take(i + 1) =~= (confirmed0 + points.take(
                    i as int,
                )).push(points[i as int]));
            }
        }
        proof {
            assert(found.take(n as int) =~= found);
            assert(made.take(n as int) =~= made);
            assert(points.take(n as int) =~= points);
        }
    }
}

// ---------------------------------------------------------------------------
// Depth
// ---------------------------------------------------------------------------

/// Whether `r` is the largest power of two at or below `n`.
pub open spec fn is_top_power(r: int, n: int) -> bool {
    &&& r <= n < 2 * r
    &&& exists|k: nat| r == #[trigger] vstd::arithmetic::power2::pow2(k)
}

/// The rung of the ladder that a depth has reached: the depths worth asserting double,
/// and end at `max`.
pub open spec fn is_rung(r: u32, reached: u32, max: u32) -> bool {
    if reached >= max {
        r == max
    } else if reached < 2 {
        r == reached
    } else {
        is_top_power(r as int, reached as int)
    }
}

impl Observer {
    /// The next depth at which a confirmed payment is worth asserting again.
    ///
    /// A claim proves only the depth it was signed at, so an application can settle once the
    /// bridge has signed the depth it asks for. One claim at `max` would leave everyone who
    /// asks for less waiting for it, and one for each block would fill the contract; rungs
    /// that double take the logarithm of that, and nobody waits more than twice as long.
    pub fn ladder_rung(reached: u32, max: u32) -> (r: u32)
        ensures
            is_rung(r, reached, max),
    {
        if reached >= max {
            return max;
        }
        if reached < 2 {
            return reached;
        }
        let mut p: u32 = 1;
        let ghost mut k: nat = 0;
        proof {
            vstd::arithmetic::power2::lemma2_to64();
        }
        while p <= reached / 2
            invariant
                1 <= p <= reached,
                p == vstd::arithmetic::power2::pow2(k),
            decreases reached - p,
        {
            proof {
                vstd::arithmetic::power2::lemma_pow2_unfold(k + 1);
                k = k + 1;
            }
            p = p * 2;
        }
        assert(p == vstd::arithmetic::power2::pow2(k));
        p
    }
}

/// A rung never goes down as the chain grows.
pub proof fn the_ladder_never_goes_down(a: u32, b: u32, max: u32, ra: u32, rb: u32)
    requires
        a <= b,
        is_rung(ra, a, max),
        is_rung(rb, b, max),
    ensures
        ra <= rb,
{
    if b < max && a >= 2 {
        let i = choose|k: nat| ra == #[trigger] vstd::arithmetic::power2::pow2(k);
        let j = choose|k: nat| rb == #[trigger] vstd::arithmetic::power2::pow2(k);
        if i > j {
            vstd::arithmetic::power2::lemma_pow2_strictly_increases(j, i);
            power_gap(j, i);
        } else if i < j {
            vstd::arithmetic::power2::lemma_pow2_strictly_increases(i, j);
        }
    }
}

proof fn power_gap(j: nat, i: nat)
    requires
        j < i,
    ensures
        vstd::arithmetic::power2::pow2(i) >= 2 * vstd::arithmetic::power2::pow2(j),
    decreases i,
{
    vstd::arithmetic::power2::lemma_pow2_unfold(i);
    if j + 1 < i {
        power_gap(j, (i - 1) as nat);
        vstd::arithmetic::power2::lemma_pow2_pos((i - 1) as nat);
    }
}

/// A depth that is asked for is asserted by the time the chain is twice as deep.
pub proof fn every_depth_is_reached_in_time(required: u32, max: u32, reached: u32, rung: u32)
    requires
        1 <= required <= max,
        reached >= 2 * required || reached >= max,
        is_rung(rung, reached, max),
    ensures
        rung >= required,
{
}

/// No rung says more than the chain is deep, or than the ceiling.
pub proof fn no_rung_overstates(reached: u32, max: u32, rung: u32)
    requires
        is_rung(rung, reached, max),
    ensures
        rung <= reached,
        rung <= max,
{
}

/// A payment that is due a deeper claim.
#[derive(Debug)]
pub struct DeepTask {
    pub script_pubkey: Vec<u8>,
    pub txid: [u8; 32],
    pub vout: u32,
    pub value_sats: u64,
    pub block_height: u32,
    /// The depth to assert.
    pub rung: u32,
}

/// How deep a block is under a tip.
pub open spec fn depth_under(tip_height: u32, height: u32) -> u32 {
    if tip_height < height {
        1
    } else if tip_height - height < u32::MAX {
        (tip_height - height + 1) as u32
    } else {
        u32::MAX
    }
}

/// The depth that is due to be asserted for an output of which `published` is, if any.
pub fn due_rung(tip_height: u32, block_height: u32, published: u32, max_depth: u32) -> (r: Option<
    u32,
>)
    ensures
        match r {
            Some(rung) => is_rung(rung, depth_under(tip_height, block_height), max_depth) && rung
                > published && rung > 1,
            None => forall|rung: u32|
                is_rung(rung, depth_under(tip_height, block_height), max_depth) ==> rung
                    <= published || rung <= 1,
        },
{
    let reached: u32 = tip_height.saturating_sub(block_height).saturating_add(1);
    let rung: u32 = Observer::ladder_rung(reached, max_depth);
    let done: u32 = if published > 1 {
        published
    } else {
        1
    };
    if rung <= done {
        proof {
            assert forall|other: u32|
                is_rung(other, depth_under(tip_height, block_height), max_depth) implies other
                <= published || other <= 1 by {
                the_ladder_never_goes_down(reached, reached, max_depth, rung, other);
                the_ladder_never_goes_down(reached, reached, max_depth, other, rung);
            }
        }
        None
    } else {
        Some(rung)
    }
}

/// Whether the tasks are those that pending outputs call for, in order.
pub open spec fn are_tasks(
    tasks: Seq<DeepTask>,
    pending: Seq<PendingDeepClaim>,
    tip_height: u32,
    max_depth: u32,
) -> bool
    decreases pending.len(),
{
    if pending.len() == 0 {
        tasks.len() == 0
    } else {
        let p = pending.last();
        let depth = depth_under(tip_height, p.4);
        if exists|rung: u32| #[trigger] is_due(rung, depth, max_depth, p.5) {
            &&& tasks.len() > 0
            &&& are_tasks(tasks.drop_last(), pending.drop_last(), tip_height, max_depth)
            &&& tasks.last().script_pubkey@ == p.0@
            &&& tasks.last().txid == p.1
            &&& tasks.last().vout == p.2
            &&& tasks.last().value_sats == p.3
            &&& tasks.last().block_height == p.4
            &&& is_due(tasks.last().rung, depth, max_depth, p.5)
        } else {
            are_tasks(tasks, pending.drop_last(), tip_height, max_depth)
        }
    }
}

pub open spec fn is_due(rung: u32, depth: u32, max_depth: u32, published: u32) -> bool {
    is_rung(rung, depth, max_depth) && rung > published && rung > 1
}

fn deep_tasks_of(store: &Store, network: BitcoinNetwork, tip_height: u32, max_depth: u32) -> (r:
    Vec<DeepTask>)
    ensures
        exists|pending: Seq<PendingDeepClaim>|
            #[trigger] is_pending(pending, store@, network, tip_height, max_depth) && are_tasks(
                r@,
                pending,
                tip_height,
                max_depth,
            ),
{
    let pending = store.outputs_needing_deep_claim(network, tip_height, max_depth);
    let n: usize = pending.len();
    let mut tasks: Vec<DeepTask> = Vec::new();
    assert(is_pending(pending@, store@, network, tip_height, max_depth));
    for i in 0..n
        invariant
            n == pending@.len(),
            are_tasks(tasks@, pending@.take(i as int), tip_height, max_depth),
    {
        let p = &pending[i];
        let ghost was = tasks@;
        let ghost depth = depth_under(tip_height, p.4);
        proof {
            assert(pending@.take(i + 1).drop_last() =~= pending@.take(i as int));
            assert(pending@.take(i + 1).last() == *p);
        }
        match due_rung(tip_height, p.4, p.5, max_depth) {
            Some(rung) => {
                assert(is_due(rung, depth, max_depth, p.5));
                tasks.push(
                    DeepTask {
                        script_pubkey: copy_all(&p.0),
                        txid: p.1,
                        vout: p.2,
                        value_sats: p.3,
                        block_height: p.4,
                        rung,
                    },
                );
                assert(tasks@.drop_last() =~= was);
            },
            None => {
                assert(!exists|rung: u32| #[trigger] is_due(rung, depth, max_depth, p.5));
            },
        }
    }
    assert(pending@.take(n as int) =~= pending@);
    tasks
}

/// Whether a list is that of the outputs which may be due a deeper claim.
pub open spec fn is_pending(
    pending: Seq<PendingDeepClaim>,
    s: StoreModel,
    network: BitcoinNetwork,
    tip_height: u32,
    max_depth: u32,
) -> bool {
    pending.map_values(|o: PendingDeepClaim| (o.0@, o.1, o.2, o.3, o.4, o.5)) == those(
        s.outputs,
        |o: OutputModel| crate::store::may_go_deeper(o, network, tip_height, max_depth),
    ).map_values(
        |o: OutputModel|
            (
                o.script_pubkey,
                o.txid,
                o.vout,
                o.value_sats,
                o.block->Some_0.height,
                o.deep_published,
            ),
    )
}

/// How many headers a claim of a depth carries, its block's own among them: as many as the
/// depth, but no more than a proof takes. A deeper one states the rest by its `as_of`.
pub open spec fn headers_for(rung: u32) -> int {
    if rung <= MAX_FOLLOWING_HEADERS + 1 {
        rung as int
    } else {
        MAX_FOLLOWING_HEADERS + 1
    }
}

/// How many headers a claim of a depth carries.
pub fn header_depth(rung: u32) -> (r: u32)
    ensures
        r == headers_for(rung),
{
    if rung <= 25 {
        rung
    } else {
        25
    }
}

/// Whether this is the output of a task.
pub open spec fn is_output(f: FoundOutput, txid: Seq<u8>, vout: u32) -> bool {
    f.txid.0@ == txid && f.vout == vout
}

/// Where the output of a task stands among those found in its block.
fn position_of(found: &Vec<FoundOutput>, txid: &[u8; 32], vout: u32) -> (r: Option<usize>)
    ensures
        match r {
            Some(i) => i < found@.len() && is_output(found@[i as int], txid@, vout) && forall|
                j: int,
            |
                0 <= j < i ==> !is_output(#[trigger] found@[j], txid@, vout),
            None => forall|j: int|
                0 <= j < found@.len() ==> !is_output(#[trigger] found@[j], txid@, vout),
        },
{
    for i in 0..found.len()
        invariant
            forall|j: int| 0 <= j < i ==> !is_output(#[trigger] found@[j], txid@, vout),
    {
        if same32(&found[i].txid.0, txid) && found[i].vout == vout {
            return Some(i);
        }
    }
    None
}

/// The headers that a task's claim needs, first and last, if the chain has them.
pub fn task_headers(task: &DeepTask, tip_height: u32) -> (r: Option<(u32, u32)>)
    ensures
        ({
            let depth = headers_for(task.rung);
            let last = task.block_height + (if depth > 0 {
                depth - 1
            } else {
                0
            });
            r == if tip_height < last {
                None
            } else {
                Some((task.block_height, last as u32))
            }
        }),
{
    header_range(task.block_height, header_depth(task.rung), tip_height)
}

/// Scan a task's block again, for its script alone, and pick its output: the evidence
/// that a deeper claim needs and the record does not keep.
fn rescan(task: &DeepTask, from: &DeepSource) -> (r: Option<(BlockAnchor, FoundOutput)>)
    ensures
        match r {
            Some((anchor, f)) => deep_found(*task, *from) == Some(f@) && anchor == (BlockAnchor {
                height: from.height,
                hash: from.hash,
            }) && is_output(f, task.txid@, task.vout),
            None => deep_found(*task, *from) is None,
        },
{
    let mut watched: Vec<Vec<u8>> = Vec::new();
    watched.push(copy_all(&task.script_pubkey));
    let ghost only = watched@;
    match scan_block(&from.raw, &from.hash, from.height, from.median_time, &watched) {
        Err(_) => None,
        Ok(block) => {
            let anchor = block.anchor;
            let mut found = block.found;
            let ghost all = found_models(found@);
            let ghost wanted = |m: FoundModel| m.txid.0@ == task.txid@ && m.vout == task.vout;
            proof {
                let txs = parts_of(block_of(from.raw@)->Ok_0.1)->Ok_0;
                one_watched(txs, txs.len() as int, only, task.script_pubkey@);
            }
            match position_of(&found, &task.txid, task.vout) {
                Some(i) => {
                    proof {
                        assert(all[i as int] == found@[i as int]@);
                        assert forall|j: int| 0 <= j < i implies !wanted(all[j]) by {
                            assert(all[j] == found@[j]@);
                        }
                        first_is_first(all, wanted, i as int);
                    }
                    Some((anchor, found.swap_remove(i)))
                },
                None => {
                    proof {
                        assert forall|j: int| 0 <= j < all.len() implies !wanted(all[j]) by {
                            assert(all[j] == found@[j]@);
                        }
                        nothing_is_first(all, wanted);
                    }
                    None
                },
            }
        },
    }
}

/// A task's block as the node has it now, with the block's own header and those that
/// follow it as far as [`task_headers`] says, in order.
#[derive(Debug)]
pub struct DeepSource {
    pub raw: Vec<u8>,
    pub hash: BlockHash,
    pub height: u32,
    pub median_time: Option<u32>,
    pub headers: Vec<BlockHeader>,
}

/// The output of a task, found in its block again.
pub open spec fn deep_found(task: DeepTask, from: DeepSource) -> Option<FoundModel> {
    if scan_fault(from.raw@) is Some {
        None
    } else {
        first(
            found_paying(parts_of(block_of(from.raw@)->Ok_0.1)->Ok_0, task.script_pubkey@),
            |m: FoundModel| m.txid.0@ == task.txid@ && m.vout == task.vout,
        )
    }
}

/// What a task claims, if it can: not where a pruned node has discarded the block, the
/// output is no longer in it, or the chain is not deep enough for the headers that the depth
/// takes. Then the first claim stands.
pub open spec fn deep_body(
    network: BitcoinNetwork,
    tip: BlockAnchor,
    task: DeepTask,
    source: Option<DeepSource>,
) -> Option<BodyModel> {
    match source {
        None => None,
        Some(from) => match deep_found(task, from) {
            Some(f) if 0 < from.headers@.len() == headers_for(task.rung) => Some(
                body_for(
                    network,
                    task.script_pubkey@,
                    tip,
                    confirmation(
                        f,
                        task.value_sats,
                        BlockAnchor { height: from.height, hash: from.hash },
                        from.headers@[0],
                        from.headers@.skip(1),
                    ),
                ),
            ),
            _ => None,
        },
    }
}

/// The claims that the first `n` tasks make.
pub open spec fn deep_claims_of(
    seed: Seq<u8>,
    network: BitcoinNetwork,
    tip: BlockAnchor,
    tasks: Seq<DeepTask>,
    sources: Seq<Option<DeepSource>>,
    n: int,
) -> Seq<(Seq<u8>, SignedModel)>
    decreases n,
{
    if n <= 0 {
        Seq::empty()
    } else {
        let before = deep_claims_of(seed, network, tip, tasks, sources, n - 1);
        match deep_body(network, tip, tasks[n - 1], sources[n - 1]) {
            Some(body) => before.push((tasks[n - 1].script_pubkey@, signed_with(seed, body))),
            None => before,
        }
    }
}

/// The outputs on record once the first `n` tasks have been seen to.
pub open spec fn deepened_by(
    rows: Seq<OutputModel>,
    network: BitcoinNetwork,
    tip: BlockAnchor,
    tasks: Seq<DeepTask>,
    sources: Seq<Option<DeepSource>>,
    n: int,
) -> Seq<OutputModel>
    decreases n,
{
    if n <= 0 {
        rows
    } else {
        let before = deepened_by(rows, network, tip, tasks, sources, n - 1);
        let t = tasks[n - 1];
        if deep_body(network, tip, t, sources[n - 1]) is Some {
            before.map_values(
                |o: OutputModel| deepened(o, network, t.txid@, t.vout, t.rung),
            )
        } else {
            before
        }
    }
}

/// What a block pays one script.
pub open spec fn found_paying(txs: Seq<TxModel>, script: Seq<u8>) -> Seq<FoundModel> {
    paying_up_to(txs, txs.len() as int, script)
}

pub open spec fn paying_in(txs: Seq<TxModel>, t: int, n: int, script: Seq<u8>) -> Seq<FoundModel>
    decreases n,
{
    if n <= 0 {
        Seq::empty()
    } else if txs[t].outputs[n - 1].1 == script {
        paying_in(txs, t, n - 1, script).push(found_at(txs, t, n - 1))
    } else {
        paying_in(txs, t, n - 1, script)
    }
}

pub open spec fn paying_up_to(txs: Seq<TxModel>, n: int, script: Seq<u8>) -> Seq<FoundModel>
    decreases n,
{
    if n <= 0 {
        Seq::empty()
    } else {
        paying_up_to(txs, n - 1, script) + paying_in(
            txs,
            n - 1,
            txs[n - 1].outputs.len() as int,
            script,
        )
    }
}

proof fn one_watched(txs: Seq<TxModel>, n: int, watched: Seq<Vec<u8>>, script: Seq<u8>)
    requires
        watched.len() == 1,
        watched[0]@ == script,
    ensures
        found_up_to(txs, n, watched) == paying_up_to(txs, n, script),
    decreases n,
{
    if n > 0 {
        one_watched(txs, n - 1, watched, script);
        one_watched_in(txs, n - 1, txs[n - 1].outputs.len() as int, watched, script);
    }
}

proof fn one_watched_in(
    txs: Seq<TxModel>,
    t: int,
    n: int,
    watched: Seq<Vec<u8>>,
    script: Seq<u8>,
)
    requires
        watched.len() == 1,
        watched[0]@ == script,
    ensures
        found_in(txs, t, n, watched) == paying_in(txs, t, n, script),
    decreases n,
{
    if n > 0 {
        one_watched_in(txs, t, n - 1, watched, script);
    }
}

impl Observer {
    /// The payments on record that the chain has buried deeper than the bridge has said.
    pub fn deep_tasks(&self, store: &Store, tip_height: u32) -> (r: Vec<DeepTask>)
        ensures
            exists|pending: Seq<PendingDeepClaim>|
                #[trigger] is_pending(
                    pending,
                    store@,
                    self.cfg.network,
                    tip_height,
                    self.cfg.deep_confirmations,
                ) && are_tasks(r@, pending, tip_height, self.cfg.deep_confirmations),
    {
        deep_tasks_of(store, self.cfg.network, tip_height, self.cfg.deep_confirmations)
    }

    /// Claim payments again at the depth that the chain has given them, carrying the
    /// headers that show it, and remember that it was done.
    ///
    /// A verifier counts no more confirmations than the bridge has signed, so that nobody
    /// can pair a stale claim with a fresh tip. An application's required depth is thus
    /// within reach only once the bridge has asserted it.
    pub fn deep_claims(
        &self,
        store: &mut Store,
        key: &[u8; 32],
        tip: &BlockAnchor,
        tasks: &Vec<DeepTask>,
        sources: &Vec<Option<DeepSource>>,
        claims: &mut ClaimsByScript,
    )
        requires
            tasks@.len() == sources@.len(),
        ensures
            final(store)@ == (StoreModel {
                outputs: deepened_by(
                    old(store)@.outputs,
                    self.cfg.network,
                    *tip,
                    tasks@,
                    sources@,
                    tasks@.len() as int,
                ),
                ..old(store)@
            }),
            final(claims)@ == old(claims)@ + deep_claims_of(
                key@,
                self.cfg.network,
                *tip,
                tasks@,
                sources@,
                tasks@.len() as int,
            ),
            forall|i: int|
                0 <= i < tasks@.len() ==> match deep_body(
                    self.cfg.network,
                    *tip,
                    #[trigger] tasks@[i],
                    sources@[i],
                ) {
                    Some(body) => vouched(
                        key@,
                        body,
                        self.cfg.network,
                        tasks@[i].script_pubkey@,
                    ),
                    None => true,
                },
    {
        let network = self.cfg.network;
        let ghost start = store@;
        let ghost before = claims@;
        let n: usize = tasks.len();
        assert(before + deep_claims_of(key@, network, *tip, tasks@, sources@, 0) =~= before);
        for i in 0..n
            invariant
                n == tasks@.len(),
                n == sources@.len(),
                store@ == (StoreModel {
                    outputs: deepened_by(
                        start.outputs,
                        network,
                        *tip,
                        tasks@,
                        sources@,
                        i as int,
                    ),
                    ..start
                }),
                claims@ == before + deep_claims_of(
                    key@,
                    network,
                    *tip,
                    tasks@,
                    sources@,
                    i as int,
                ),
                forall|j: int|
                    0 <= j < i ==> match deep_body(
                        network,
                        *tip,
                        #[trigger] tasks@[j],
                        sources@[j],
                    ) {
                        Some(body) => vouched(key@, body, network, tasks@[j].script_pubkey@),
                        None => true,
                    },
        {
            let task = &tasks[i];
            let made = match &sources[i] {
                None => None,
                Some(from) => deep_claim(network, key, tip, task, from),
            };
            match made {
                Some(signed) => {
                    let ghost was = deep_claims_of(
                        key@,
                        network,
                        *tip,
                        tasks@,
                        sources@,
                        i as int,
                    );
                    claims.push(&task.script_pubkey, signed);
                    store.mark_deep_published(network, &task.txid, task.vout, task.rung);
                    assert((before + was).push((task.script_pubkey@, signed@)) =~= before
                        + was.push((task.script_pubkey@, signed@)));
                },
                None => {},
            }
        }
    }
}

fn deep_claim(
    network: BitcoinNetwork,
    key: &[u8; 32],
    tip: &BlockAnchor,
    task: &DeepTask,
    from: &DeepSource,
) -> (r: Option<SignedClaim>)
    ensures
        match (deep_body(network, *tip, *task, Some(*from)), r) {
            (Some(body), Some(c)) => c@ == signed_with(key@, body) && vouched(
                key@,
                body,
                network,
                task.script_pubkey@,
            ),
            (None, None) => true,
            _ => false,
        },
{
    match rescan(task, from) {
        None => None,
        Some((anchor, found)) => {
            if from.headers.len() == 0 || from.headers.len() != header_depth(task.rung) as usize {
                return None;
            }
            let header = from.headers[0];
            let following = headers_after(&from.headers);
            let spv = build_spv_proof(&found, header, following);
            let claim = Claim::ConfirmedOutput {
                outpoint: OutPoint { txid: Txid(task.txid), vout: task.vout },
                value_sats: task.value_sats,
                anchor,
                spv,
            };
            proof {
                arr32_of_view(task.txid);
                arr32_of_view(found.txid.0);
                hashes_of_nodes(found.merkle_branch@);
                assert(claim@ =~= confirmation(
                    found@,
                    task.value_sats,
                    anchor,
                    header,
                    from.headers@.skip(1),
                ));
            }
            Some(sign_claim(network, key, &task.script_pubkey, tip, claim))
        },
    }
}

/// A deeper claim is made at the tip, and carries as many headers behind its block's own as
/// the depth takes, short of what a proof holds at most.
pub proof fn a_deeper_claim_carries_its_headers(
    network: BitcoinNetwork,
    tip: BlockAnchor,
    task: DeepTask,
    source: Option<DeepSource>,
)
    ensures
        deep_body(network, tip, task, source) matches Some(body) ==> {
            &&& body.as_of == tip
            &&& body.claim is ConfirmedOutput
            &&& body.claim->ConfirmedOutput_spv.following_headers.len() == headers_for(task.rung)
                - 1
            &&& body.claim->ConfirmedOutput_spv.following_headers.len() <= MAX_FOLLOWING_HEADERS
        },
{
}

/// Whether a task is what a pending output calls for.
pub open spec fn is_task_of(
    t: DeepTask,
    p: PendingDeepClaim,
    tip_height: u32,
    max_depth: u32,
) -> bool {
    &&& t.script_pubkey@ == p.0@
    &&& t.txid == p.1
    &&& t.vout == p.2
    &&& t.value_sats == p.3
    &&& t.block_height == p.4
    &&& is_due(t.rung, depth_under(tip_height, p.4), max_depth, p.5)
}

/// Every task is that of a pending output.
pub proof fn every_task_is_called_for(
    tasks: Seq<DeepTask>,
    pending: Seq<PendingDeepClaim>,
    tip_height: u32,
    max_depth: u32,
    i: int,
) -> (k: int)
    requires
        are_tasks(tasks, pending, tip_height, max_depth),
        0 <= i < tasks.len(),
    ensures
        0 <= k < pending.len(),
        is_task_of(tasks[i], pending[k], tip_height, max_depth),
    decreases pending.len(),
{
    let p = pending.last();
    let depth = depth_under(tip_height, p.4);
    let n = pending.len() - 1;
    if exists|rung: u32| #[trigger] is_due(rung, depth, max_depth, p.5) {
        if i == tasks.len() - 1 {
            n
        } else {
            every_task_is_called_for(
                tasks.drop_last(),
                pending.drop_last(),
                tip_height,
                max_depth,
                i,
            )
        }
    } else {
        every_task_is_called_for(tasks, pending.drop_last(), tip_height, max_depth, i)
    }
}

/// Every pending output that is due has its task.
pub proof fn what_is_due_has_its_task(
    tasks: Seq<DeepTask>,
    pending: Seq<PendingDeepClaim>,
    tip_height: u32,
    max_depth: u32,
    k: int,
    rung: u32,
) -> (i: int)
    requires
        are_tasks(tasks, pending, tip_height, max_depth),
        0 <= k < pending.len(),
        is_due(rung, depth_under(tip_height, pending[k].4), max_depth, pending[k].5),
    ensures
        0 <= i < tasks.len(),
        is_task_of(tasks[i], pending[k], tip_height, max_depth),
    decreases pending.len(),
{
    let p = pending.last();
    let depth = depth_under(tip_height, p.4);
    if k == pending.len() - 1 {
        tasks.len() - 1
    } else if exists|rung: u32| #[trigger] is_due(rung, depth, max_depth, p.5) {
        what_is_due_has_its_task(
            tasks.drop_last(),
            pending.drop_last(),
            tip_height,
            max_depth,
            k,
            rung,
        )
    } else {
        what_is_due_has_its_task(tasks, pending.drop_last(), tip_height, max_depth, k, rung)
    }
}

/// Whether a pending output is an output on record.
pub open spec fn is_entry_of(p: PendingDeepClaim, o: OutputModel) -> bool {
    (p.0@, p.1, p.2, p.3, p.4, p.5) == (
        o.script_pubkey,
        o.txid,
        o.vout,
        o.value_sats,
        o.block->Some_0.height,
        o.deep_published,
    )
}

/// Every pending output is on record, and may go deeper.
pub proof fn what_is_pending_is_on_record(
    pending: Seq<PendingDeepClaim>,
    s: StoreModel,
    network: BitcoinNetwork,
    tip_height: u32,
    max_depth: u32,
    k: int,
) -> (x: int)
    requires
        is_pending(pending, s, network, tip_height, max_depth),
        0 <= k < pending.len(),
    ensures
        0 <= x < s.outputs.len(),
        is_entry_of(pending[k], s.outputs[x]),
        crate::store::may_go_deeper(s.outputs[x], network, tip_height, max_depth),
{
    let q = |o: OutputModel| crate::store::may_go_deeper(o, network, tip_height, max_depth);
    let f = |o: PendingDeepClaim| (o.0@, o.1, o.2, o.3, o.4, o.5);
    let g = |o: OutputModel|
        (
            o.script_pubkey,
            o.txid,
            o.vout,
            o.value_sats,
            o.block->Some_0.height,
            o.deep_published,
        );
    let due = those(s.outputs, q);
    those_are_of_them(s.outputs, q);
    assert(pending.map_values(f) == due.map_values(g));
    assert(pending.map_values(f).len() == due.map_values(g).len());
    assert(pending.map_values(f)[k] == due.map_values(g)[k]);
    assert(due.contains(due[k]));
    choose|x: int| 0 <= x < s.outputs.len() && s.outputs[x] == due[k]
}

/// Every output on record that may go deeper is pending.
pub proof fn what_may_go_deeper_is_pending(
    pending: Seq<PendingDeepClaim>,
    s: StoreModel,
    network: BitcoinNetwork,
    tip_height: u32,
    max_depth: u32,
    x: int,
) -> (k: int)
    requires
        is_pending(pending, s, network, tip_height, max_depth),
        0 <= x < s.outputs.len(),
        crate::store::may_go_deeper(s.outputs[x], network, tip_height, max_depth),
    ensures
        0 <= k < pending.len(),
        is_entry_of(pending[k], s.outputs[x]),
{
    let q = |o: OutputModel| crate::store::may_go_deeper(o, network, tip_height, max_depth);
    let f = |o: PendingDeepClaim| (o.0@, o.1, o.2, o.3, o.4, o.5);
    let g = |o: OutputModel|
        (
            o.script_pubkey,
            o.txid,
            o.vout,
            o.value_sats,
            o.block->Some_0.height,
            o.deep_published,
        );
    let due = those(s.outputs, q);
    those_are_of_them(s.outputs, q);
    assert(s.outputs.contains(s.outputs[x]));
    assert(due.contains(s.outputs[x]));
    let k = choose|k: int| 0 <= k < due.len() && due[k] == s.outputs[x];
    assert(pending.map_values(f) == due.map_values(g));
    assert(pending.map_values(f).len() == due.map_values(g).len());
    assert(pending.map_values(f)[k] == due.map_values(g)[k]);
    k
}

/// Whether a task is about an output on record.
pub open spec fn is_about(t: DeepTask, o: OutputModel, network: BitcoinNetwork) -> bool {
    o.network == network && o.txid == t.txid && o.vout == t.vout
}

/// What tasks do to a record: an output stays as it is, but for the depth asserted of it,
/// which is that of every claim made about it at least, and its own where none was made.
pub proof fn tasks_deepen_what_they_claim(
    rows: Seq<OutputModel>,
    network: BitcoinNetwork,
    tip: BlockAnchor,
    tasks: Seq<DeepTask>,
    sources: Seq<Option<DeepSource>>,
    n: int,
    x: int,
)
    requires
        0 <= n <= tasks.len(),
        0 <= x < rows.len(),
    ensures
        ({
            let after = deepened_by(rows, network, tip, tasks, sources, n);
            &&& after.len() == rows.len()
            &&& after[x] == (OutputModel { deep_published: after[x].deep_published, ..rows[x] })
            &&& after[x].deep_published >= rows[x].deep_published
            &&& forall|i: int|
                0 <= i < n && is_about(#[trigger] tasks[i], rows[x], network) && deep_body(
                    network,
                    tip,
                    tasks[i],
                    sources[i],
                ) is Some ==> after[x].deep_published >= tasks[i].rung
            &&& (forall|i: int|
                0 <= i < n && is_about(#[trigger] tasks[i], rows[x], network) ==> deep_body(
                    network,
                    tip,
                    tasks[i],
                    sources[i],
                ) is None) ==> after[x] == rows[x]
        }),
    decreases n,
{
    if n > 0 {
        tasks_deepen_what_they_claim(rows, network, tip, tasks, sources, n - 1, x);
        let t = tasks[n - 1];
        let before = deepened_by(rows, network, tip, tasks, sources, n - 1);
        arr32_of_view(t.txid);
        arr32_of_view(rows[x].txid);
        let f = |o: OutputModel| deepened(o, network, t.txid@, t.vout, t.rung);
        if deep_body(network, tip, t, sources[n - 1]) is Some {
            assert(before.map_values(f)[x] == f(before[x]));
        }
    }
}

/// A second round at one tip claims nothing again: no task is about a payment that the
/// first round claimed, and there is none at all where it claimed them all. Nor does any
/// task ask for more than the depth that the operator set as the highest.
pub proof fn a_second_round_at_one_tip_claims_nothing_again(
    s: StoreModel,
    network: BitcoinNetwork,
    tip: BlockAnchor,
    max_depth: u32,
    pending: Seq<PendingDeepClaim>,
    tasks: Seq<DeepTask>,
    sources: Seq<Option<DeepSource>>,
    pending_then: Seq<PendingDeepClaim>,
    then: Seq<DeepTask>,
)
    requires
        distinct::<OutputRow>(s.outputs),
        is_pending(pending, s, network, tip.height, max_depth),
        are_tasks(tasks, pending, tip.height, max_depth),
        is_pending(
            pending_then,
            (StoreModel {
                outputs: deepened_by(
                    s.outputs,
                    network,
                    tip,
                    tasks,
                    sources,
                    tasks.len() as int,
                ),
                ..s
            }),
            network,
            tip.height,
            max_depth,
        ),
        are_tasks(then, pending_then, tip.height, max_depth),
    ensures
        forall|i: int, j: int|
            0 <= i < tasks.len() && 0 <= j < then.len() && deep_body(
                network,
                tip,
                tasks[i],
                sources[i],
            ) is Some ==> (#[trigger] tasks[i]).txid != (#[trigger] then[j]).txid || tasks[i].vout
                != then[j].vout,
        (forall|i: int|
            0 <= i < tasks.len() ==> deep_body(
                network,
                tip,
                #[trigger] tasks[i],
                sources[i],
            ) is Some) ==> then.len() == 0,
        forall|i: int| 0 <= i < tasks.len() ==> 1 < (#[trigger] tasks[i]).rung <= max_depth,
{
    let n = tasks.len() as int;
    let after = deepened_by(s.outputs, network, tip, tasks, sources, n);
    let t = StoreModel { outputs: after, ..s };
    if s.outputs.len() > 0 {
        tasks_deepen_what_they_claim(s.outputs, network, tip, tasks, sources, n, 0);
    } else {
        nothing_to_deepen(network, tip, tasks, sources, n);
        assert(s.outputs =~= Seq::empty());
    }
    assert forall|i: int, j: int|
        0 <= i < tasks.len() && 0 <= j < then.len() && deep_body(
            network,
            tip,
            tasks[i],
            sources[i],
        ) is Some implies (#[trigger] tasks[i]).txid != (#[trigger] then[j]).txid || tasks[i].vout
        != then[j].vout by {
        let k = every_task_is_called_for(tasks, pending, tip.height, max_depth, i);
        let x = what_is_pending_is_on_record(pending, s, network, tip.height, max_depth, k);
        let l = every_task_is_called_for(then, pending_then, tip.height, max_depth, j);
        let y = what_is_pending_is_on_record(pending_then, t, network, tip.height, max_depth, l);
        tasks_deepen_what_they_claim(s.outputs, network, tip, tasks, sources, n, y);
        if tasks[i].txid == then[j].txid && tasks[i].vout == then[j].vout {
            if x < y {
                assert(OutputRow::key(s.outputs[x]) != OutputRow::key(s.outputs[y]));
            } else if y < x {
                assert(OutputRow::key(s.outputs[y]) != OutputRow::key(s.outputs[x]));
            }
            let depth = depth_under(tip.height, pending[k].4);
            assert(is_about(tasks[i], s.outputs[y], network));
            the_ladder_never_goes_down(depth, depth, max_depth, then[j].rung, tasks[i].rung);
        }
    }
    if then.len() > 0 {
        let l = every_task_is_called_for(then, pending_then, tip.height, max_depth, 0);
        let y = what_is_pending_is_on_record(pending_then, t, network, tip.height, max_depth, l);
        tasks_deepen_what_they_claim(s.outputs, network, tip, tasks, sources, n, y);
        let k = what_may_go_deeper_is_pending(pending, s, network, tip.height, max_depth, y);
        let i = what_is_due_has_its_task(
            tasks,
            pending,
            tip.height,
            max_depth,
            k,
            then[0].rung,
        );
        assert(tasks[i].txid == then[0].txid && tasks[i].vout == then[0].vout);
        assert(deep_body(network, tip, tasks[i], sources[i]) is None);
    }
    assert forall|i: int| 0 <= i < tasks.len() implies 1 < (#[trigger] tasks[i]).rung
        <= max_depth by {
        let k = every_task_is_called_for(tasks, pending, tip.height, max_depth, i);
        no_rung_overstates(depth_under(tip.height, pending[k].4), max_depth, tasks[i].rung);
    }
}

proof fn nothing_to_deepen(
    network: BitcoinNetwork,
    tip: BlockAnchor,
    tasks: Seq<DeepTask>,
    sources: Seq<Option<DeepSource>>,
    n: int,
)
    ensures
        deepened_by(Seq::empty(), network, tip, tasks, sources, n).len() == 0,
    decreases n,
{
    if n > 0 {
        nothing_to_deepen(network, tip, tasks, sources, n - 1);
    }
}

fn headers_after(headers: &Vec<BlockHeader>) -> (r: Vec<BlockHeader>)
    requires
        headers@.len() > 0,
    ensures
        r@ == headers@.skip(1),
{
    let mut r: Vec<BlockHeader> = Vec::new();
    for i in 1..headers.len()
        invariant
            headers@.len() > 0,
            r@ == headers@.subrange(1, i as int),
    {
        r.push(headers[i]);
        assert(r@ =~= headers@.subrange(1, i + 1));
    }
    assert(r@ =~= headers@.skip(1));
    r
}

// ---------------------------------------------------------------------------
// Watermarks and tips
// ---------------------------------------------------------------------------

impl Observer {
    /// A watermark that says how far a script has been scanned. Without it a reader could not
    /// tell an address that received nothing from one that nobody looked at.
    pub fn scan_watermark(
        &self,
        key: &[u8; 32],
        script: &[u8],
        tip: &BlockAnchor,
    ) -> (r: SignedClaim)
        ensures
            r@ == signed_with(key@, body_for(self.cfg.network, script@, *tip, ClaimModel::ScannedTo)),
    {
        sign_claim(self.cfg.network, key, script, tip, Claim::ScannedTo)
    }
}

/// What a scanned block is summarized as in the tip contract. The times are the
/// header's, not the host's.
pub open spec fn tip_body(network: BitcoinNetwork, block: ScannedBlock) -> TipEntryBody {
    TipEntryBody {
        network,
        anchor: block.anchor,
        prev_hash: block.prev_hash,
        block_time: block.time,
        tx_count: block.tx_count,
        median_time: block.median_time,
    }
}

/// A summary, signed with a bridge's secret seed.
pub open spec fn tip_signed_with(seed: Seq<u8>, body: TipEntryBody) -> SignedModel {
    SignedModel {
        body_cbor: tip_bytes(body),
        bridge: BridgeId(arr32(ed25519_public_of(seed))),
        signature: ed25519_signature_of(seed, tip_message(tip_bytes(body))),
    }
}

impl Observer {
    /// A signed summary of one block.
    pub fn tip_entry(&self, key: &[u8; 32], block: &ScannedBlock) -> (r: SignedTipEntry)
        ensures
            r@ == tip_signed_with(key@, tip_body(self.cfg.network, *block)),
            attests_tip(r@, tip_body(self.cfg.network, *block)),
            tip_from(r.body_cbor@) matches Ok(e) && e.network == self.cfg.network && e.anchor
                == block.anchor && e.prev_hash == block.prev_hash && e.block_time == block.time
                && e.tx_count == block.tx_count && e.median_time == block.median_time,
    {
        let body = TipEntryBody {
            network: self.cfg.network,
            anchor: block.anchor,
            prev_hash: block.prev_hash,
            block_time: block.time,
            tx_count: block.tx_count,
            median_time: block.median_time,
        };
        let e = SignedTipEntry::sign(key, &body).unwrap();
        proof {
            arr32_of_view(e.bridge.0);
        }
        e
    }
}

// ---------------------------------------------------------------------------
// What is claimed is evidenced
// ---------------------------------------------------------------------------

/// Whether a payment can be proved from the transactions of its block: they are not too
/// many for a branch, and the one that pays is what its bytes say and small enough to be
/// evidence.
pub open spec fn is_provable(txs: Seq<TxModel>, f: FoundModel) -> bool {
    &&& txs.len() <= vstd::arithmetic::power2::pow2(MAX_MERKLE_DEPTH as nat)
    &&& forall|t: int|
        0 <= t < txs.len() && (#[trigger] txs[t]).txid == f.txid.0 && txs[t].raw_tx
            == f.raw_tx ==> {
            &&& sha256d_of(txs[t].raw_tx) == txs[t].txid@
            &&& tx_outputs(txs[t].raw_tx) == Ok::<Seq<(u64, Seq<u8>)>, SpvError>(txs[t].outputs)
            &&& txs[t].outputs.len() <= u32::MAX
            &&& txs[t].raw_tx.len() <= MAX_RAW_TX
        }
}

/// Whether headers are a chain that has done the work it claims.
pub open spec fn are_chained(headers: Seq<BlockHeader>, floor: PowFloor) -> bool {
    &&& forall|i: int| 0 <= i < headers.len() ==> header_holds((#[trigger] headers[i]).0@, floor)
    &&& forall|i: int|
        0 < i < headers.len() ==> (#[trigger] headers[i]).0@.subrange(4, 36) == sha256d_of(
            headers[i - 1].0@,
        )
}

/// What a bridge claims of a payment that it found in a block is accepted wherever the
/// bridge is trusted with that script, as far as the block is Bitcoin's: its header commits
/// to its transactions, has done its work, and hashes to the block's name. So it is at
/// first sight, and so it is with every header that buries the block.
pub proof fn what_is_found_is_accepted(
    seed: Seq<u8>,
    network: BitcoinNetwork,
    tip: BlockAnchor,
    txs: Seq<TxModel>,
    watched: Seq<Vec<u8>>,
    f: FoundOutput,
    anchor: BlockAnchor,
    header: BlockHeader,
    following: Seq<BlockHeader>,
    p: ParamsModel,
)
    requires
        found_up_to(txs, txs.len() as int, watched).contains(f@),
        is_provable(txs, f@),
        header.0@.subrange(36, 68) == root_of(ids(txs)),
        anchor.hash.0@ == sha256d_of(header.0@),
        are_chained(seq![header] + following, p.pow_floor),
        following.len() <= MAX_FOLLOWING_HEADERS,
        p.network == network,
        p.script_pubkey == f.script_pubkey@,
        p.trusted_bridges.contains(BridgeId(arr32(ed25519_public_of(seed)))),
        ({
            let body = body_for(
                network,
                f.script_pubkey@,
                tip,
                confirmation(f@, f.value_sats, anchor, header, following),
            );
            vouched(seed, body, network, f.script_pubkey@)
        }),
    ensures
        ({
            let body = body_for(
                network,
                f.script_pubkey@,
                tip,
                confirmation(f@, f.value_sats, anchor, header, following),
            );
            claim_verdict(signed_with(seed, body), p) == Ok::<BodyModel, Seq<char>>(body)
        }),
{
    vstd::arithmetic::power2::lemma2_to64();
    let body = body_for(
        network,
        f.script_pubkey@,
        tip,
        confirmation(f@, f.value_sats, anchor, header, following),
    );
    let spv = body.claim->ConfirmedOutput_spv;
    let all = found_up_to(txs, txs.len() as int, watched);
    let i = choose|i: int| 0 <= i < all.len() && all[i] == f@;
    what_is_found_is_in_the_block(txs, txs.len() as int, watched, i);
    let (t, v) = choose|t: int, v: int|
        0 <= t < txs.len() && 0 <= v < txs[t].outputs.len() && f@ == #[trigger] found_at(txs, t, v)
            && crate::store::is_listed(watched, txs[t].outputs[v].1);
    assert(sha256d_of(txs[t].raw_tx) == txs[t].txid@);
    assert(ids(txs)[t] == txs[t].txid@);
    hashes_of_nodes(f.merkle_branch@);
    every_branch_folds_to_the_root(ids(txs), t, f.merkle_branch@);
    branches_are_short(ids(txs), t, MAX_MERKLE_DEPTH as nat);
    assert(nodes(f.merkle_branch@).len() == f.merkle_branch@.len());
    proof_is_sound_and_complete(
        spv,
        f.txid,
        f.vout,
        p.script_pubkey,
        f.value_sats,
        anchor.hash,
        p.pow_floor,
    );
    assert(evidence_fault(body, p) is None);
    assert(belongs(body, p));
    a_signed_claim_verifies(signed_with(seed, body), body, p);
}

/// What a bridge claims of a payment that a scan found is accepted wherever the bridge is
/// trusted with that script, as far as the block is Bitcoin's: its header commits to its
/// transactions, has done its work, and hashes to the block's name. The transaction that
/// pays has inputs, as every one on Bitcoin has, and is small enough to be evidence; how
/// large the others are does not matter.
pub proof fn what_a_scan_finds_is_accepted(
    seed: Seq<u8>,
    network: BitcoinNetwork,
    tip: BlockAnchor,
    b: ScannedBlock,
    raw: Seq<u8>,
    hash: BlockHash,
    height: u32,
    median_time: Option<u32>,
    watched: Seq<Vec<u8>>,
    i: int,
    following: Seq<BlockHeader>,
    p: ParamsModel,
)
    requires
        scan_fault(raw) is None,
        is_scan_of(b, raw, hash, height, median_time, watched),
        0 <= i < b.found@.len(),
        b.found@[i].raw_tx@.len() <= MAX_RAW_TX,
        ({
            let txs = parts_of(block_of(raw)->Ok_0.1)->Ok_0;
            &&& txs.len() <= vstd::arithmetic::power2::pow2(MAX_MERKLE_DEPTH as nat)
            &&& forall|t: int|
                0 <= t < txs.len() && (#[trigger] txs[t]).txid == b.found@[i].txid.0
                    ==> txs[t].inputs > 0
            &&& b.header.0@.subrange(36, 68) == root_of(ids(txs))
        }),
        hash.0@ == sha256d_of(b.header.0@),
        are_chained(seq![b.header] + following, p.pow_floor),
        following.len() <= MAX_FOLLOWING_HEADERS,
        p.network == network,
        p.script_pubkey == b.found@[i].script_pubkey@,
        p.trusted_bridges.contains(BridgeId(arr32(ed25519_public_of(seed)))),
        ({
            let f = b.found@[i];
            let body = body_for(
                network,
                f.script_pubkey@,
                tip,
                confirmation(f@, f.value_sats, b.anchor, b.header, following),
            );
            vouched(seed, body, network, f.script_pubkey@)
        }),
    ensures
        ({
            let f = b.found@[i];
            let body = body_for(
                network,
                f.script_pubkey@,
                tip,
                confirmation(f@, f.value_sats, b.anchor, b.header, following),
            );
            claim_verdict(signed_with(seed, body), p) == Ok::<BodyModel, Seq<char>>(body)
        }),
{
    let txs = parts_of(block_of(raw)->Ok_0.1)->Ok_0;
    let f = b.found@[i];
    let all = found_up_to(txs, txs.len() as int, watched);
    assert(found_models(b.found@)[i] == f@);
    what_is_found_is_in_the_block(txs, txs.len() as int, watched, i);
    assert(all[i] == f@);
    assert(is_provable(txs, f@));
    what_is_found_is_accepted(
        seed,
        network,
        tip,
        txs,
        watched,
        f,
        b.anchor,
        b.header,
        following,
        p,
    );
}

} // verus!
