//! One round of following a network: which blocks to scan, what to publish of them, and
//! how far to say that the network was scanned.
//!
//! The checkpoint is held back while a round has something to publish. A block whose claims
//! did not get out is thus scanned again, and a payment in it is not lost because the node
//! could not be reached at the wrong moment.

use vstd::prelude::*;

use crate::address_state::{signed_models, BitcoinAddressStateV1};
use crate::bytes::{copy_all, same32, same_bytes};
use crate::chain::{found_models, FoundModel, ScannedBlock};
use crate::cbor::bytes_of;
use crate::claims::ClaimModel;
use crate::freenet::{link_unusable, NodeError};
use crate::migrate::{
    describe, fresh_pace, outcome_text, paced, MigrationPacer, Pace, PaceModel, Walk, WalkOutcome,
    SEAL_AFTER_WALKS, WALK_INTERVAL,
};
use crate::observer::{
    body_for, deep_claims_of, deepened_by, first_claims, orphan_models, outpoint_of, outputs_found,
    retractions, signed_with, tip_body, tip_signed_with, ClaimsByScript, DeepSource, DeepTask, Observer,
    OrphanedOutpoint,
};
use crate::outside::{blake3_hash, blake3_of};
use crate::signing::{claim_digest, SignedClaim, SignedModel, SignedTipEntry};
use crate::sorted::Copied;
use crate::store::{
    holds, is_listed, BlockRow, CheckpointRow, MigrationRow, PublishedModel, PublishedRow, Store,
    StoreModel, WatchedModel, WatchedScript,
};
use crate::table::{
    any, distinct, first, first_or_none, keys_stay_distinct, put, put_new, those, those_are_of_them,
    what_is_put_is_found, Row, Table,
};
use crate::tip_state::tip_models;
use crate::types::{BitcoinNetwork, BlockAnchor, OutPoint};
use crate::wire::{to_cbor, Record};

verus! {

/// How often generation pointers are published again once all were, in milliseconds.
pub const POINTER_REASSERT: u64 = 1_800_000;

/// How soon they are tried again after one was not, in milliseconds.
pub const POINTER_RETRY: u64 = 300_000;

/// How long until the pointers are published again.
pub fn pointer_wait(all_published: bool) -> (r: u64)
    ensures
        r == (if all_published {
            POINTER_REASSERT
        } else {
            POINTER_RETRY
        }),
{
    if all_published {
        POINTER_REASSERT
    } else {
        POINTER_RETRY
    }
}

/// How many blocks a round scans at most, so that no network holds up the others.
pub const BLOCKS_PER_ROUND: u32 = 50;

// ---------------------------------------------------------------------------
// Demo scripts
// ---------------------------------------------------------------------------

/// From where the recent history of a network is scanned again.
pub fn backfill_from(tip_height: u32, blocks: u32) -> (r: u32)
    ensures
        r == (if tip_height >= blocks {
            tip_height - blocks
        } else {
            0
        }),
{
    tip_height.saturating_sub(blocks)
}

/// Watch one of the operator's demo scripts, with some history. It is public, and no user
/// can end it.
pub fn seed_demo(store: &mut Store, network: BitcoinNetwork, script: &[u8], from: u32)
    ensures
        final(store)@.watched == crate::store::watch_added(
            old(store)@.watched,
            WatchedModel {
                network,
                script_pubkey: script@,
                scan_from_height: from,
                is_public_demo: true,
            },
            0,
        ),
        final(store)@ == (StoreModel {
            watched: final(store)@.watched,
            checkpoints: rewound(old(store)@.checkpoints, network, from),
            ..old(store)@
        }),
{
    store.add_watch(
        &WatchedScript {
            network,
            script_pubkey: copy_all(script),
            scan_from_height: from,
            is_public_demo: true,
        },
        0,
    );
    store.rewind_checkpoint_to(network, from);
}

/// Checkpoints once a network's has been moved back to a height, if it was above it.
pub open spec fn rewound(rows: Seq<CheckpointRow>, net: BitcoinNetwork, height: u32) -> Seq<
    CheckpointRow,
> {
    rows.map_values(
        |r: CheckpointRow|
            if r.network == net && r.anchor.height > height {
                CheckpointRow {
                    network: r.network,
                    anchor: BlockAnchor { height, hash: r.anchor.hash },
                }
            } else {
                r
            },
    )
}

// ---------------------------------------------------------------------------
// What to scan
// ---------------------------------------------------------------------------

/// What to look for in blocks: the watched scripts, and those of payments that a reorg
/// moved out of their block and no scan has found since.
pub fn scan_set(watched: &Vec<Vec<u8>>, in_doubt: &Vec<Vec<u8>>) -> (r: Vec<Vec<u8>>)
    ensures
        forall|s: Seq<u8>| #[trigger]
            is_listed(r@, s) <==> is_listed(watched@, s) || is_listed(in_doubt@, s),
        r@.len() >= watched@.len(),
        forall|i: int| 0 <= i < watched@.len() ==> (#[trigger] r@[i])@ == watched@[i]@,
{
    let mut r = copy_scripts(watched);
    assert forall|s: Seq<u8>| #[trigger] is_listed(r@, s) <==> is_listed(watched@, s) by {
        if is_listed(r@, s) {
            same_listing(r@, watched@, s);
        }
        if is_listed(watched@, s) {
            same_listing(watched@, r@, s);
        }
    }
    let n: usize = in_doubt.len();
    for i in 0..n
        invariant
            n == in_doubt@.len(),
            forall|s: Seq<u8>| #[trigger]
                is_listed(r@, s) <==> is_listed(watched@, s) || is_listed(
                    in_doubt@.take(i as int),
                    s,
                ),
            r@.len() >= watched@.len(),
            forall|j: int| 0 <= j < watched@.len() ==> (#[trigger] r@[j])@ == watched@[j]@,
    {
        let script = &in_doubt[i];
        let ghost was = r@;
        if !holds(&r, script) {
            r.push(copy_all(script));
        }
        proof {
            let more = in_doubt@.take(i + 1);
            let fewer = in_doubt@.take(i as int);
            assert(more =~= fewer.push(*script));
            assert forall|s: Seq<u8>| #[trigger]
                is_listed(r@, s) <==> is_listed(watched@, s) || is_listed(more, s) by {
                one_more_listed(fewer, more, *script, s);
                if r@.len() > was.len() {
                    one_more_listed(was, r@, r@.last(), s);
                }
            }
        }
    }
    assert(in_doubt@.take(n as int) =~= in_doubt@);
    r
}

proof fn same_listing(a: Seq<Vec<u8>>, b: Seq<Vec<u8>>, s: Seq<u8>)
    requires
        a.len() == b.len(),
        forall|i: int| 0 <= i < a.len() ==> (#[trigger] a[i])@ == b[i]@,
        is_listed(a, s),
    ensures
        is_listed(b, s),
{
    let j = choose|j: int| 0 <= j < a.len() && (#[trigger] a[j])@ == s;
    assert(b[j]@ == s);
}

proof fn one_more_listed(fewer: Seq<Vec<u8>>, more: Seq<Vec<u8>>, x: Vec<u8>, s: Seq<u8>)
    requires
        more == fewer.push(x),
    ensures
        is_listed(more, s) <==> is_listed(fewer, s) || x@ == s,
{
    if is_listed(fewer, s) {
        let j = choose|j: int| 0 <= j < fewer.len() && (#[trigger] fewer[j])@ == s;
        assert(more[j]@ == s);
    }
    if x@ == s {
        assert(more[fewer.len() as int]@ == s);
    }
    if is_listed(more, s) {
        let j = choose|j: int| 0 <= j < more.len() && (#[trigger] more[j])@ == s;
        if j < fewer.len() {
            assert(fewer[j]@ == s);
        }
    }
}

fn copy_scripts(list: &Vec<Vec<u8>>) -> (r: Vec<Vec<u8>>)
    ensures
        r@.len() == list@.len(),
        forall|i: int| 0 <= i < r@.len() ==> (#[trigger] r@[i])@ == list@[i]@,
{
    let mut r: Vec<Vec<u8>> = Vec::new();
    for i in 0..list.len()
        invariant
            r@.len() == i,
            forall|j: int| 0 <= j < i ==> (#[trigger] r@[j])@ == list@[j]@,
    {
        r.push(copy_all(&list[i]));
    }
    r
}

/// How far a round scans: a bounded number of blocks, and more of them if it is going to
/// retract something. Retractions are stamped with the tip, and blocks below it that are
/// left for the next round could contradict them.
pub open spec fn ceiling_of(next: u32, retracting: bool, tip: u32, max_reorg_depth: u32) -> u32 {
    let reach = next + BLOCKS_PER_ROUND - 1 + if retracting {
        max_reorg_depth as int
    } else {
        0
    };
    if reach < tip {
        reach as u32
    } else {
        tip
    }
}

pub fn scan_ceiling(next: u32, retracting: bool, tip: u32, max_reorg_depth: u32) -> (r: u32)
    ensures
        r == ceiling_of(next, retracting, tip, max_reorg_depth),
{
    let more: u64 = if retracting {
        max_reorg_depth as u64
    } else {
        0
    };
    let reach: u64 = next as u64 + BLOCKS_PER_ROUND as u64 - 1 + more;
    if reach < tip as u64 {
        reach as u32
    } else {
        tip
    }
}

/// A round that retracts reaches the tip, if the observer was no more than a round behind
/// when a reorg of the allowed depth struck.
pub proof fn a_retracting_round_reaches_the_tip(
    scanned: u32,
    fork: u32,
    tip: u32,
    max_reorg_depth: u32,
)
    requires
        fork < u32::MAX,
        scanned - fork <= max_reorg_depth,
        tip - scanned <= BLOCKS_PER_ROUND,
    ensures
        ceiling_of((fork + 1) as u32, true, tip, max_reorg_depth) == tip,
{
}

// ---------------------------------------------------------------------------
// A round
// ---------------------------------------------------------------------------

/// A round in progress.
#[derive(Debug)]
pub struct Round {
    pub tip: BlockAnchor,
    /// The scripts that are watched, which alone are claimed for at first sight.
    pub watched: Vec<Vec<u8>>,
    /// The scripts to look for.
    pub scan: Vec<Vec<u8>>,
    pub orphaned: Vec<OrphanedOutpoint>,
    /// The next block to scan, and the last.
    pub next: u32,
    pub ceiling: u32,
    pub claims: ClaimsByScript,
    pub confirmed: Vec<OutPoint>,
    /// A summary of every block that was scanned.
    pub tip_entries: Vec<SignedTipEntry>,
    /// How far the network was scanned beyond its checkpoint.
    pub deferred: Option<BlockAnchor>,
}

pub open spec fn watched_scripts(s: StoreModel, net: BitcoinNetwork) -> Seq<Seq<u8>> {
    those(s.watched, |r: (WatchedModel, i64)| r.0.network == net).map_values(
        |r: (WatchedModel, i64)| r.0.script_pubkey,
    )
}

/// The checkpoints once a block was scanned: the network's is the block if there is nothing
/// to publish, and stays where it was if there is.
pub open spec fn moved_along(
    rows: Seq<CheckpointRow>,
    net: BitcoinNetwork,
    anchor: BlockAnchor,
    quiet: bool,
) -> Seq<CheckpointRow> {
    if quiet {
        put::<CheckpointRow>(rows, CheckpointRow { network: net, anchor })
    } else {
        rows
    }
}

/// The checkpoints once several blocks were scanned, of which the first `quiet` came before
/// there was something to publish.
pub open spec fn moved_through(
    rows: Seq<CheckpointRow>,
    net: BitcoinNetwork,
    anchors: Seq<BlockAnchor>,
    quiet: int,
) -> Seq<CheckpointRow>
    decreases anchors.len(),
{
    if anchors.len() == 0 {
        rows
    } else {
        moved_along(
            moved_through(rows, net, anchors.drop_last(), quiet),
            net,
            anchors.last(),
            anchors.len() <= quiet,
        )
    }
}

/// Whatever else a round scans, the checkpoint waits before the first block of which there
/// is something to publish.
pub proof fn the_checkpoint_waits_for_what_is_to_be_published(
    rows: Seq<CheckpointRow>,
    net: BitcoinNetwork,
    anchors: Seq<BlockAnchor>,
    quiet: int,
)
    requires
        distinct::<CheckpointRow>(rows),
        0 <= quiet <= anchors.len(),
    ensures
        distinct::<CheckpointRow>(moved_through(rows, net, anchors, quiet)),
        ({
            let is_its = |r: CheckpointRow| r.network == net;
            first(moved_through(rows, net, anchors, quiet), is_its) == (if quiet == 0 {
                first(rows, is_its)
            } else {
                Some(CheckpointRow { network: net, anchor: anchors[quiet - 1] })
            })
        }),
    decreases anchors.len(),
{
    let is_its = |r: CheckpointRow| r.network == net;
    if anchors.len() > 0 {
        let before = moved_through(rows, net, anchors.drop_last(), quiet);
        if quiet == anchors.len() {
            let row = CheckpointRow { network: net, anchor: anchors.last() };
            all_moved(rows, net, anchors.drop_last(), quiet);
            the_checkpoint_waits_for_what_is_to_be_published(
                rows,
                net,
                anchors.drop_last(),
                quiet - 1,
            );
            keys_stay_distinct::<CheckpointRow>(before, row);
            what_is_put_is_found::<CheckpointRow>(before, row, is_its);
        } else {
            the_checkpoint_waits_for_what_is_to_be_published(rows, net, anchors.drop_last(), quiet);
            if quiet > 0 {
                assert(anchors.drop_last()[quiet - 1] == anchors[quiet - 1]);
            }
        }
    }
}

/// A round in which everything is quiet moves along however much more would be.
proof fn all_moved(
    rows: Seq<CheckpointRow>,
    net: BitcoinNetwork,
    anchors: Seq<BlockAnchor>,
    quiet: int,
)
    requires
        anchors.len() <= quiet - 1,
    ensures
        moved_through(rows, net, anchors, quiet) == moved_through(rows, net, anchors, quiet - 1),
    decreases anchors.len(),
{
    if anchors.len() > 0 {
        all_moved(rows, net, anchors.drop_last(), quiet);
    }
}

pub open spec fn script_models(v: Seq<Vec<u8>>) -> Seq<Seq<u8>> {
    v.map_values(|s: Vec<u8>| s@)
}

/// The claims about watched scripts.
pub open spec fn for_watched(claims: Seq<(Seq<u8>, SignedModel)>, watched: Seq<Vec<u8>>) -> Seq<
    (Seq<u8>, SignedModel),
> {
    those(claims, |c: (Seq<u8>, SignedModel)| is_listed(watched, c.0))
}

impl Round {
    /// Begin a round. `from` and `orphaned` are what the look for a reorg found; a network
    /// that was never scanned starts at its tip, for a pruned node has no other blocks.
    pub fn begin(
        observer: &Observer,
        store: &Store,
        tip: BlockAnchor,
        doubted: &Vec<Vec<u8>>,
        from: u32,
        orphaned: Vec<OrphanedOutpoint>,
    ) -> (r: Round)
        ensures
            r.tip == tip,
            script_models(r.watched@) == watched_scripts(store@, observer.cfg.network),
            forall|s: Seq<u8>| #[trigger]
                is_listed(r.scan@, s) <==> is_listed(r.watched@, s) || is_listed(doubted@, s)
                    || exists|i: int| 0 <= i < orphaned@.len() && (#[trigger] orphaned@[i]).0@ == s,
            r.orphaned == orphaned,
            r.next == (if from == 0 {
                tip.height
            } else {
                from
            }),
            r.ceiling == ceiling_of(
                r.next,
                orphaned@.len() > 0,
                tip.height,
                observer.cfg.max_reorg_depth,
            ),
            r.claims@.len() == 0,
            r.confirmed@.len() == 0,
            r.tip_entries@.len() == 0,
            r.deferred is None,
    {
        let network = observer.cfg.network;
        let rows = store.watched(network);
        let ghost all = rows@.map_values(|w: WatchedScript| w@);
        let ghost sel = those(store@.watched, |r: (WatchedModel, i64)| r.0.network == network);
        let mut watched: Vec<Vec<u8>> = Vec::new();
        let n: usize = rows.len();
        for i in 0..n
            invariant
                n == rows@.len(),
                watched@.len() == i,
                forall|j: int| 0 <= j < i ==> (#[trigger] watched@[j])@ == rows@[j].script_pubkey@,
        {
            watched.push(copy_all(&rows[i].script_pubkey));
        }
        proof {
            assert(all.len() == sel.len());
            assert forall|j: int| 0 <= j < sel.len() implies script_models(watched@)[j]
                == watched_scripts(store@, network)[j] by {
                assert(all[j] == rows@[j]@);
                assert(all[j] == sel[j].0);
            }
            assert(script_models(watched@) =~= watched_scripts(store@, network));
        }
        let mut extra = copy_scripts(doubted);
        let m: usize = orphaned.len();
        for i in 0..m
            invariant
                m == orphaned@.len(),
                extra@.len() == doubted@.len() + i,
                forall|j: int| 0 <= j < doubted@.len() ==> (#[trigger] extra@[j])@ == doubted@[j]@,
                forall|j: int|
                    doubted@.len() <= j < extra@.len() ==> (#[trigger] extra@[j])@ == orphaned@[j
                        - doubted@.len()].0@,
        {
            extra.push(copy_all(&orphaned[i].0));
        }
        let scan = scan_set(&watched, &extra);
        proof {
            assert forall|s: Seq<u8>| #[trigger]
                is_listed(scan@, s) <==> is_listed(watched@, s) || is_listed(doubted@, s) || exists|
                    i: int,
                |
                    0 <= i < orphaned@.len() && (#[trigger] orphaned@[i]).0@ == s by {
                if is_listed(extra@, s) {
                    let j = choose|j: int| 0 <= j < extra@.len() && (#[trigger] extra@[j])@ == s;
                    if j < doubted@.len() {
                        assert(doubted@[j]@ == s);
                    } else {
                        assert(orphaned@[j - doubted@.len()].0@ == s);
                    }
                }
                if is_listed(doubted@, s) {
                    let j = choose|j: int|
                        0 <= j < doubted@.len() && (#[trigger] doubted@[j])@ == s;
                    assert(extra@[j]@ == s);
                }
                if exists|i: int| 0 <= i < orphaned@.len() && (#[trigger] orphaned@[i]).0@ == s {
                    let i = choose|i: int|
                        0 <= i < orphaned@.len() && (#[trigger] orphaned@[i]).0@ == s;
                    assert(extra@[doubted@.len() + i]@ == s);
                }
            }
        }
        let next: u32 = if from == 0 {
            tip.height
        } else {
            from
        };
        let ceiling: u32 = scan_ceiling(
            next,
            orphaned.len() > 0,
            tip.height,
            observer.cfg.max_reorg_depth,
        );
        Round {
            tip,
            watched,
            scan,
            orphaned,
            next,
            ceiling,
            claims: ClaimsByScript::new(),
            confirmed: Vec::new(),
            tip_entries: Vec::new(),
            deferred: None,
        }
    }

    /// The block to scan next, if the round is not through.
    pub fn wants(&self) -> (r: Option<u32>)
        ensures
            r == (if self.next <= self.ceiling {
                Some(self.next)
            } else {
                None
            }),
    {
        if self.next <= self.ceiling {
            Some(self.next)
        } else {
            None
        }
    }

    /// Take a scanned block in. As long as there is nothing to publish, the checkpoint
    /// moves along, so that a long stretch of empty blocks is not scanned twice.
    pub fn take_block(
        &mut self,
        observer: &Observer,
        store: &mut Store,
        key: &[u8; 32],
        block: &ScannedBlock,
    )
        requires
            old(self).next < u32::MAX,
        ensures
            ({
                let net = observer.cfg.network;
                let found = found_models(block.found@);
                let made = for_watched(
                    first_claims(key@, net, old(self).tip, found, block.anchor, block.header),
                    old(self).watched@,
                );
                let seen = StoreModel {
                    blocks: put::<BlockRow>(
                        old(store)@.blocks,
                        BlockRow {
                            network: net,
                            height: block.anchor.height,
                            hash: block.anchor.hash,
                        },
                    ),
                    outputs: outputs_found(old(store)@.outputs, net, found, block.anchor),
                    ..old(store)@
                };
                let quiet = final(self).claims@.len() == 0;
                &&& final(self).claims@ == old(self).claims@ + made
                &&& final(self).confirmed@ == old(self).confirmed@ + found.map_values(
                    |f: FoundModel| outpoint_of(f),
                )
                &&& tip_models(final(self).tip_entries@) == tip_models(
                    old(self).tip_entries@,
                ).push(tip_signed_with(key@, tip_body(net, *block)))
                &&& final(self).next == old(self).next + 1
                &&& final(self).deferred == (if quiet {
                    None
                } else {
                    Some(block.anchor)
                })
                &&& final(store)@ == (StoreModel {
                    checkpoints: moved_along(seen.checkpoints, net, block.anchor, quiet),
                    ..seen
                })
                &&& final(self).tip == old(self).tip
                &&& final(self).watched == old(self).watched
                &&& final(self).scan == old(self).scan
                &&& final(self).orphaned == old(self).orphaned
                &&& final(self).ceiling == old(self).ceiling
            }),
            // What a watermark would say is that this block was looked at, and none above it.
            final(self).scanned_to(final(store)@, observer.cfg.network) == block.anchor,
            block.anchor.height == old(self).next ==> final(self).scanned_to(
                final(store)@,
                observer.cfg.network,
            ).height < final(self).next,
    {
        let mut made = ClaimsByScript::new();
        let tip = self.tip;
        observer.claims_from_block(
            store,
            key,
            block,
            &tip,
            &mut made,
            &mut self.confirmed,
        );
        let ghost all = made@;
        let ghost found = found_models(block.found@);
        let ghost net = observer.cfg.network;
        assert(all =~= first_claims(key@, net, tip, found, block.anchor, block.header));
        let ghost before = self.claims@;
        let ghost p = |c: (Seq<u8>, SignedModel)| is_listed(self.watched@, c.0);
        let n: usize = made.entries.len();
        assert(all.take(0) =~= Seq::<(Seq<u8>, SignedModel)>::empty());
        assert(before + those(all.take(0), p) =~= before);
        for i in 0..n
            invariant
                n == made.entries@.len(),
                all == made@,
                p == (|c: (Seq<u8>, SignedModel)| is_listed(self.watched@, c.0)),
                self.claims@ == before + those(all.take(i as int), p),
                self.confirmed@ == old(self).confirmed@ + found.map_values(
                    |f: FoundModel| outpoint_of(f),
                ),
                self.tip_entries == old(self).tip_entries,
                self.next == old(self).next,
                self.deferred == old(self).deferred,
                self.tip == old(self).tip,
                self.watched == old(self).watched,
                self.scan == old(self).scan,
                self.orphaned == old(self).orphaned,
                self.ceiling == old(self).ceiling,
        {
            let e = &made.entries[i];
            proof {
                assert(all[i as int] == (e.0@, e.1@));
                assert(all.take(i + 1).drop_last() =~= all.take(i as int));
                assert(all.take(i + 1).last() == all[i as int]);
            }
            if holds(&self.watched, &e.0) {
                let ghost was = those(all.take(i as int), p);
                self.claims.push(&e.0, e.1.copied());
                assert((before + was).push(all[i as int]) =~= before + was.push(all[i as int]));
            }
        }
        assert(all.take(n as int) =~= all);
        let entry = observer.tip_entry(key, block);
        let ghost entries = tip_models(self.tip_entries@);
        let ghost e = entry@;
        self.tip_entries.push(entry);
        assert(tip_models(self.tip_entries@) =~= entries.push(e));
        self.next = self.next + 1;
        assert(self.claims@.len() == self.claims.entries@.len());
        if self.claims.entries.len() == 0 {
            store.set_checkpoint(observer.cfg.network, &block.anchor);
            self.deferred = None;
        } else {
            self.deferred = Some(block.anchor);
        }
    }

    /// What a round says of every watched script once its blocks are scanned: how far it
    /// was looked at. That is not the tip while the bridge is catching up.
    pub open spec fn scanned_to(self, s: StoreModel, net: BitcoinNetwork) -> BlockAnchor {
        match self.deferred {
            Some(a) => a,
            None => match s.checkpoint(net) {
                Some(c) => c,
                None => self.tip,
            },
        }
    }

    /// Finish the claims of a round: retract what the scan did not put back on the chain,
    /// say again what is buried deeper, and say how far was scanned. Then forget blocks
    /// that no reorg reaches.
    pub fn conclude(
        &mut self,
        observer: &Observer,
        store: &mut Store,
        key: &[u8; 32],
        tasks: &Vec<DeepTask>,
        sources: &Vec<Option<DeepSource>>,
        keep: u32,
    )
        requires
            tasks@.len() == sources@.len(),
        ensures
            ({
                let net = observer.cfg.network;
                let n = tasks@.len() as int;
                let tip = old(self).tip;
                let at = old(self).scanned_to(old(store)@, net);
                &&& final(self).claims@ == old(self).claims@ + retractions(
                    key@,
                    net,
                    tip,
                    orphan_models(old(self).orphaned@),
                    old(self).confirmed@,
                ) + deep_claims_of(key@, net, tip, tasks@, sources@, n) + watermarks(
                    key@,
                    net,
                    at,
                    script_models(old(self).watched@),
                )
                &&& final(store)@ == (StoreModel {
                    outputs: deepened_by(
                        old(store)@.outputs,
                        net,
                        tip,
                        tasks@,
                        sources@,
                        n,
                    ),
                    blocks: those(
                        old(store)@.blocks,
                        |r: BlockRow| !(r.network == net && r.height < tip.height - keep),
                    ),
                    ..old(store)@
                })
                &&& *final(self) == (Round { claims: final(self).claims, ..*old(self) })
            }),
            // Every watched script is said to be scanned up to the last block that was taken:
            // the one that is held back, or else the one that the checkpoint is at.
            forall|i: int, at: BlockAnchor|
                0 <= i < old(self).watched@.len() && (old(self).deferred == Some(at) || (old(
                    self,
                ).deferred is None && old(store)@.checkpoint(observer.cfg.network) == Some(at)))
                    ==> final(self).claims@.contains(
                    #[trigger] watermark_of(
                        key@,
                        observer.cfg.network,
                        at,
                        old(self).watched@[i]@,
                    ),
                ),
    {
        let net = observer.cfg.network;
        let tip = self.tip;
        let ghost c0 = self.claims@;
        observer.retraction_claims(
            key,
            &tip,
            &self.orphaned,
            &self.confirmed,
            &mut self.claims,
        );
        let ghost c1 = self.claims@;
        observer.deep_claims(store, key, &tip, tasks, sources, &mut self.claims);
        let ghost c2 = self.claims@;
        let at = match self.deferred {
            Some(a) => a,
            None => match store.checkpoint(net) {
                Some(c) => c,
                None => tip,
            },
        };
        let ghost marks = watermarks(key@, net, at, script_models(self.watched@));
        let n: usize = self.watched.len();
        assert(c2 + marks.take(0) =~= c2);
        for i in 0..n
            invariant
                n == self.watched@.len(),
                net == observer.cfg.network,
                marks == watermarks(key@, net, at, script_models(self.watched@)),
                self.claims@ == c2 + marks.take(i as int),
                *self == (Round { claims: self.claims, ..*old(self) }),
        {
            let mark = observer.scan_watermark(key, &self.watched[i], &at);
            proof {
                assert(script_models(self.watched@)[i as int] == self.watched@[i as int]@);
                assert(marks[i as int] == (self.watched@[i as int]@, mark@));
                assert((c2 + marks.take(i as int)).push(marks[i as int]) =~= c2 + marks.take(
                    i + 1,
                ));
            }
            self.claims.push(&self.watched[i], mark);
        }
        assert(marks.take(n as int) =~= marks);
        store.prune_blocks(net, tip.height, keep);
        proof {
            assert forall|i: int, seen: BlockAnchor|
                0 <= i < old(self).watched@.len() && (old(self).deferred == Some(seen) || (old(
                    self,
                ).deferred is None && old(store)@.checkpoint(net) == Some(seen)))
                    implies self.claims@.contains(
                #[trigger] watermark_of(key@, net, seen, old(self).watched@[i]@),
            ) by {
                assert(seen == at);
                assert(script_models(self.watched@)[i] == self.watched@[i]@);
                assert(marks[i] == watermark_of(key@, net, at, self.watched@[i]@));
                assert(self.claims@[c2.len() + i] == marks[i]);
            }
        }
    }

    /// End a round. `held` is how many rounds in a row the checkpoint was held back because
    /// the node could not be reached; what comes back is how many it is now. After
    /// `max_held` the blocks are given up, so that one address which can never be published
    /// does not stop the observer for good.
    pub fn close(
        &self,
        store: &mut Store,
        net: BitcoinNetwork,
        held: u32,
        max_held: u32,
        node_unreachable: bool,
    ) -> (r: u32)
        ensures
            ({
                let kept = self.deferred is Some && node_unreachable && held < max_held;
                &&& r == (if kept {
                    held + 1
                } else {
                    0
                })
                &&& final(store)@ == (match self.deferred {
                    Some(a) if !kept => StoreModel {
                        checkpoints: put::<CheckpointRow>(
                            old(store)@.checkpoints,
                            CheckpointRow { network: net, anchor: a },
                        ),
                        ..old(store)@
                    },
                    _ => old(store)@,
                })
            }),
    {
        match self.deferred {
            Some(a) => {
                if node_unreachable && held < max_held {
                    held + 1
                } else {
                    store.set_checkpoint(net, &a);
                    0
                }
            },
            None => 0,
        }
    }
}

/// What a bridge says of a script that it has scanned up to a block.
pub open spec fn watermark_of(
    seed: Seq<u8>,
    net: BitcoinNetwork,
    at: BlockAnchor,
    script: Seq<u8>,
) -> (Seq<u8>, SignedModel) {
    (script, signed_with(seed, body_for(net, script, at, ClaimModel::ScannedTo)))
}

/// The watermarks for scripts that were scanned up to a block.
pub open spec fn watermarks(
    seed: Seq<u8>,
    net: BitcoinNetwork,
    at: BlockAnchor,
    scripts: Seq<Seq<u8>>,
) -> Seq<(Seq<u8>, SignedModel)> {
    scripts.map_values(
        |s: Seq<u8>| (s, signed_with(seed, body_for(net, s, at, ClaimModel::ScannedTo))),
    )
}

// ---------------------------------------------------------------------------
// What was published
// ---------------------------------------------------------------------------

/// The claims that were not published yet.
pub open spec fn unpublished(
    s: StoreModel,
    net: BitcoinNetwork,
    script: Seq<u8>,
    claims: Seq<SignedModel>,
) -> Seq<SignedModel> {
    those(
        claims,
        |c: SignedModel|
            !s.published.contains(
                PublishedModel { network: net, script_pubkey: script, digest: claim_digest(c) },
            ),
    )
}

/// The claims of a round about a script that have yet to be published.
pub fn fresh_claims(store: &Store, net: BitcoinNetwork, script: &[u8], claims: Vec<SignedClaim>) -> (r:
    Vec<SignedClaim>)
    ensures
        signed_models(r@) == unpublished(store@, net, script@, signed_models(claims@)),
{
    let ghost all = signed_models(claims@);
    let ghost p = |c: SignedModel|
        !store@.published.contains(
            PublishedModel { network: net, script_pubkey: script@, digest: claim_digest(c) },
        );
    let mut r: Vec<SignedClaim> = Vec::new();
    let n: usize = claims.len();
    assert(all.take(0) =~= Seq::<SignedModel>::empty());
    assert(signed_models(r@) =~= Seq::<SignedModel>::empty());
    for i in 0..n
        invariant
            n == claims@.len(),
            all == signed_models(claims@),
            p == (|c: SignedModel|
                !store@.published.contains(
                    PublishedModel {
                        network: net,
                        script_pubkey: script@,
                        digest: claim_digest(c),
                    },
                )),
            signed_models(r@) == those(all.take(i as int), p),
    {
        let c = &claims[i];
        proof {
            assert(all[i as int] == c@);
            assert(all.take(i + 1).drop_last() =~= all.take(i as int));
            assert(all.take(i + 1).last() == c@);
        }
        if !store.is_published(net, script, &c.digest()) {
            let ghost was = signed_models(r@);
            r.push(c.copied());
            assert(signed_models(r@) =~= was.push(c@));
        }
    }
    assert(all.take(n as int) =~= all);
    r
}

/// The claims on record once these have been published.
pub open spec fn all_published(
    rows: Seq<PublishedModel>,
    net: BitcoinNetwork,
    script: Seq<u8>,
    claims: Seq<SignedModel>,
) -> Seq<PublishedModel>
    decreases claims.len(),
{
    if claims.len() == 0 {
        rows
    } else {
        put_new::<PublishedRow>(
            all_published(rows, net, script, claims.drop_last()),
            PublishedModel {
                network: net,
                script_pubkey: script,
                digest: claim_digest(claims.last()),
            },
        )
    }
}

/// Record claims as published, but only if they were. A claim that is recorded and did not
/// get out would never be sent again.
pub fn mark_claims_if_published(
    store: &mut Store,
    net: BitcoinNetwork,
    script: &[u8],
    fresh: &Vec<SignedClaim>,
    published: bool,
)
    ensures
        final(store)@ == (if published {
            StoreModel {
                published: all_published(
                    old(store)@.published,
                    net,
                    script@,
                    signed_models(fresh@),
                ),
                ..old(store)@
            }
        } else {
            old(store)@
        }),
{
    if !published {
        return ;
    }
    let ghost start = store@;
    let ghost all = signed_models(fresh@);
    let n: usize = fresh.len();
    assert(all.take(0) =~= Seq::<SignedModel>::empty());
    for i in 0..n
        invariant
            n == fresh@.len(),
            all == signed_models(fresh@),
            store@ == (StoreModel {
                published: all_published(start.published, net, script@, all.take(i as int)),
                ..start
            }),
    {
        let c = &fresh[i];
        proof {
            assert(all[i as int] == c@);
            assert(all.take(i + 1).drop_last() =~= all.take(i as int));
            assert(all.take(i + 1).last() == c@);
        }
        store.mark_published(net, script, &c.digest());
    }
    assert(all.take(n as int) =~= all);
}

/// What is on record is what was, and what was published.
proof fn what_is_published_is_on_record(
    rows: Seq<PublishedModel>,
    net: BitcoinNetwork,
    script: Seq<u8>,
    claims: Seq<SignedModel>,
    digest: Seq<u8>,
)
    ensures
        all_published(rows, net, script, claims).contains(
            PublishedModel { network: net, script_pubkey: script, digest },
        ) <==> rows.contains(PublishedModel { network: net, script_pubkey: script, digest })
            || exists|i: int|
            0 <= i < claims.len() && claim_digest(#[trigger] claims[i]) == digest,
    decreases claims.len(),
{
    let m = PublishedModel { network: net, script_pubkey: script, digest };
    if claims.len() > 0 {
        let fewer = claims.drop_last();
        let before = all_published(rows, net, script, fewer);
        let after = all_published(rows, net, script, claims);
        let last = PublishedModel {
            network: net,
            script_pubkey: script,
            digest: claim_digest(claims.last()),
        };
        what_is_published_is_on_record(rows, net, script, fewer, digest);
        if before.contains(m) {
            let k = choose|k: int| 0 <= k < before.len() && before[k] == m;
            assert(after[k] == m);
            if !rows.contains(m) {
                let i = choose|i: int|
                    0 <= i < fewer.len() && claim_digest(#[trigger] fewer[i]) == digest;
                assert(claims[i] == fewer[i]);
            }
        }
        if after.contains(m) && !before.contains(m) {
            assert(after == before.push(last));
            assert(m == last);
            assert(claim_digest(claims[claims.len() - 1]) == digest);
        }
        if exists|i: int| 0 <= i < claims.len() && claim_digest(#[trigger] claims[i]) == digest {
            let i = choose|i: int|
                0 <= i < claims.len() && claim_digest(#[trigger] claims[i]) == digest;
            if i < fewer.len() {
                assert(claim_digest(fewer[i]) == digest);
            } else if exists|k: int| crate::table::stands_at::<PublishedRow>(before, last, k) {
                let k = choose|k: int| crate::table::stands_at::<PublishedRow>(before, last, k);
                assert(after[k] == m);
            } else {
                assert(after[before.len() as int] == m);
            }
        }
    }
}

/// A claim that did get out is not sent again, and one that did not is: once some claims
/// were published, of another round's claims just those are sent that are neither among
/// them nor were published before.
pub proof fn what_is_published_is_not_sent_again(
    s: StoreModel,
    net: BitcoinNetwork,
    script: Seq<u8>,
    claims: Seq<SignedModel>,
    later: Seq<SignedModel>,
    c: SignedModel,
)
    requires
        later.contains(c),
    ensures
        ({
            let t = StoreModel {
                published: all_published(s.published, net, script, claims),
                ..s
            };
            unpublished(t, net, script, later).contains(c) <==> !s.published.contains(
                PublishedModel { network: net, script_pubkey: script, digest: claim_digest(c) },
            ) && forall|i: int|
                0 <= i < claims.len() ==> claim_digest(#[trigger] claims[i]) != claim_digest(c)
        }),
{
    let t = StoreModel { published: all_published(s.published, net, script, claims), ..s };
    let p = |c: SignedModel|
        !t.published.contains(
            PublishedModel { network: net, script_pubkey: script, digest: claim_digest(c) },
        );
    those_are_of_them(later, p);
    what_is_published_is_on_record(s.published, net, script, claims, claim_digest(c));
    assert(unpublished(t, net, script, later) == those(later, p));
}

/// The scripts that claims are about, each once, in the order in which they first appear.
pub fn scripts_of(claims: &ClaimsByScript) -> (r: Vec<Vec<u8>>)
    ensures
        forall|s: Seq<u8>| #[trigger]
            is_listed(r@, s) <==> exists|i: int|
                0 <= i < claims@.len() && (#[trigger] claims@[i]).0 == s,
        forall|i: int, j: int|
            0 <= i < j < r@.len() ==> (#[trigger] r@[i])@ != (#[trigger] r@[j])@,
{
    let mut r: Vec<Vec<u8>> = Vec::new();
    let ghost all = claims@;
    let n: usize = claims.entries.len();
    for i in 0..n
        invariant
            n == claims.entries@.len(),
            all == claims@,
            forall|s: Seq<u8>| #[trigger]
                is_listed(r@, s) <==> exists|k: int| 0 <= k < i && (#[trigger] all[k]).0 == s,
            forall|a: int, b: int|
                0 <= a < b < r@.len() ==> (#[trigger] r@[a])@ != (#[trigger] r@[b])@,
    {
        let script = &claims.entries[i].0;
        let ghost was = r@;
        assert(all[i as int].0 == script@);
        if !holds(&r, script) {
            let c = copy_all(script);
            r.push(c);
            proof {
                assert forall|a: int, b: int| 0 <= a < b < r@.len() implies (
                #[trigger] r@[a])@ != (#[trigger] r@[b])@ by {
                    if b == was.len() {
                        assert(was[a]@ != script@);
                    }
                }
            }
        }
        proof {
            assert forall|s: Seq<u8>| #[trigger]
                is_listed(r@, s) <==> exists|k: int|
                    0 <= k < i + 1 && (#[trigger] all[k]).0 == s by {
                if r@.len() > was.len() {
                    one_more_listed(was, r@, r@.last(), s);
                }
                if is_listed(r@, s) && s != script@ {
                    assert(is_listed(was, s));
                }
                if exists|k: int| 0 <= k < i + 1 && (#[trigger] all[k]).0 == s {
                    let k = choose|k: int| 0 <= k < i + 1 && (#[trigger] all[k]).0 == s;
                    if k < i {
                        assert(is_listed(was, s));
                    }
                }
            }
        }
    }
    r
}

/// What became of something that was sent to the node.
#[derive(Debug, Clone, Copy, PartialEq, Eq, Structural)]
pub enum Sent {
    /// The network has it.
    Published,
    /// The node could not be reached, and the next try would fare no better.
    Unreachable,
    /// It was refused, which says nothing about anything else.
    Refused,
}

impl Sent {
    /// What became of a request that failed.
    pub fn failed(error: &NodeError) -> (r: Sent)
        ensures
            r == (if error.is_link() {
                Sent::Unreachable
            } else {
                Sent::Refused
            }),
    {
        if link_unusable(error) {
            Sent::Unreachable
        } else {
            Sent::Refused
        }
    }
}

/// The claims of a round on their way out, script by script.
#[derive(Debug)]
pub struct Outbox {
    pub network: BitcoinNetwork,
    pub scripts: Vec<Vec<u8>>,
    /// How many of the scripts are done with.
    pub done: usize,
    /// Set once the node could not be reached.
    pub unreachable: bool,
}

impl Outbox {
    pub fn new(network: BitcoinNetwork, claims: &ClaimsByScript) -> (r: Outbox)
        ensures
            r.network == network,
            forall|s: Seq<u8>| #[trigger]
                is_listed(r.scripts@, s) <==> exists|i: int|
                    0 <= i < claims@.len() && (#[trigger] claims@[i]).0 == s,
            forall|i: int, j: int|
                0 <= i < j < r.scripts@.len() ==> (#[trigger] r.scripts@[i])@ != (
                #[trigger] r.scripts@[j])@,
            r.done == 0,
            !r.unreachable,
    {
        Outbox { network, scripts: scripts_of(claims), done: 0, unreachable: false }
    }

    /// The script whose turn it is. There is none once the node could not be reached: each
    /// of the others would only run into the same timeouts.
    pub fn current(&self) -> (r: Option<usize>)
        ensures
            r == (if self.unreachable || self.done >= self.scripts@.len() {
                None
            } else {
                Some(self.done)
            }),
    {
        if self.unreachable || self.done >= self.scripts.len() {
            None
        } else {
            Some(self.done)
        }
    }

    /// Nothing new is known of the current script.
    pub fn nothing_new(&mut self)
        requires
            old(self).done < old(self).scripts@.len(),
        ensures
            *final(self) == (Outbox { done: (old(self).done + 1) as usize, ..*old(self) }),
    {
        let n: usize = self.scripts.len();
        assert(self.done < n);
        self.done = self.done + 1;
    }

    /// The new claims about the current script were sent. They count as published only if
    /// they were, and are sent again otherwise.
    pub fn sent(&mut self, store: &mut Store, fresh: &Vec<SignedClaim>, what: Sent)
        requires
            old(self).done < old(self).scripts@.len(),
        ensures
            *final(self) == (Outbox {
                done: (old(self).done + 1) as usize,
                unreachable: old(self).unreachable || what == Sent::Unreachable,
                ..*old(self)
            }),
            final(store)@ == (if what == Sent::Published {
                StoreModel {
                    published: all_published(
                        old(store)@.published,
                        old(self).network,
                        old(self).scripts@[old(self).done as int]@,
                        signed_models(fresh@),
                    ),
                    ..old(store)@
                }
            } else {
                old(store)@
            }),
    {
        let script = &self.scripts[self.done];
        mark_claims_if_published(store, self.network, script, fresh, what == Sent::Published);
        let n: usize = self.scripts.len();
        assert(self.done < n);
        self.done = self.done + 1;
        if what == Sent::Unreachable {
            self.unreachable = true;
        }
    }

    /// The summary of the blocks was sent. It is tried even if the claims did not get out:
    /// a signed tip lets a buyer prove how deep a payment is.
    pub fn tip_sent(&mut self, what: Sent)
        ensures
            *final(self) == (Outbox {
                unreachable: old(self).unreachable || what == Sent::Unreachable,
                ..*old(self)
            }),
    {
        if what == Sent::Unreachable {
            self.unreachable = true;
        }
    }
}

// ---------------------------------------------------------------------------
// Carrying forward
// ---------------------------------------------------------------------------

/// Whether an address is walked this round: it is not, once its migration is over.
pub fn walk_is_due(
    store: &Store,
    pacer: &MigrationPacer,
    instance: &[u8],
    generation: &[u8; 32],
    now: u64,
) -> (r: bool)
    ensures
        r == (!any(
            store@.migrations,
            |m: (Seq<u8>, Seq<u8>, Seq<char>)| m.0 == instance@ && m.1 == generation@,
        ) && match pacer.pace(instance@) {
            Some(p) => now >= p.next_walk,
            None => true,
        }),
{
    !store.migration_done(instance, generation) && pacer.due(instance, now)
}

/// A digest of a state, to tell whether it is what was last sent.
pub fn state_digest(state: &BitcoinAddressStateV1) -> (r: [u8; 32])
    ensures
        r@ == blake3_of(bytes_of(state.item())),
{
    let bytes = to_cbor(state).unwrap();
    blake3_hash(&bytes)
}

/// What was last carried forward to an address.
#[derive(Debug)]
pub struct Carried {
    pub address: Vec<u8>,
    pub digest: [u8; 32],
}

impl Row for Carried {
    type M = (Seq<u8>, Seq<u8>);

    type K = Seq<u8>;

    open spec fn model(&self) -> (Seq<u8>, Seq<u8>) {
        (self.address@, self.digest@)
    }

    open spec fn key(m: (Seq<u8>, Seq<u8>)) -> Seq<u8> {
        m.0
    }

    fn same_key(&self, other: &Self) -> (r: bool) {
        same_bytes(&self.address, &other.address)
    }
}

/// What to do with what a walk found.
#[derive(Debug, Clone, Copy, PartialEq, Eq, Structural)]
pub enum Forward {
    /// It found nothing.
    Nothing,
    /// It is what was last sent.
    Already,
    Send,
}

/// Whether a note is about an address.
pub open spec fn carried_to(address: Seq<u8>) -> spec_fn((Seq<u8>, Seq<u8>)) -> bool {
    |m: (Seq<u8>, Seq<u8>)| m.0 == address
}

/// Whether the last thing that was carried forward to an address has this digest.
pub open spec fn was_carried(memo: Seq<(Seq<u8>, Seq<u8>)>, address: Seq<u8>, digest: Seq<u8>) -> bool {
    first(memo, carried_to(address)) == Some((address, digest))
}

/// What a walk found is carried forward even if the walk was not the whole story, for it is
/// real evidence. It is not if it was last time: an earlier generation holds what it holds
/// for ever, and would be sent after every walk.
pub open spec fn forward_of(
    outcome: WalkOutcome,
    memo: Seq<(Seq<u8>, Seq<u8>)>,
    address: Seq<u8>,
    digest: Seq<u8>,
) -> Forward {
    if !(outcome is Recovered) {
        Forward::Nothing
    } else if was_carried(memo, address, digest) {
        Forward::Already
    } else {
        Forward::Send
    }
}

pub fn forward(
    outcome: &WalkOutcome,
    memo: &Table<Carried>,
    address: &[u8],
    digest: &[u8; 32],
) -> (r: Forward)
    ensures
        r == forward_of(*outcome, memo@, address@, digest@),
{
    match outcome {
        WalkOutcome::Recovered { .. } => {
            let ghost p = carried_to(address@);
            match memo.first(
                |c: &Carried| -> (b: bool)
                    ensures
                        b == p(c.model())
                { same_bytes(&c.address, address) },
                Ghost(p),
            ) {
                Some(c) => {
                    proof {
                        first_or_none(memo@, p);
                    }
                    if same32(&c.digest, digest) {
                        Forward::Already
                    } else {
                        Forward::Send
                    }
                },
                None => Forward::Send,
            }
        },
        _ => Forward::Nothing,
    }
}

/// What a walk counts as: one that found something counts only if that has been carried
/// forward.
pub open spec fn counted_as(outcome: WalkOutcome, published: bool) -> Walk {
    if Walk::of(outcome) == Walk::Recovered && !published {
        Walk::Unresolved
    } else {
        Walk::of(outcome)
    }
}

/// Record a walk. `carried` is the state it led to, by its digest, if that was sent just now
/// and accepted; `already` says that it had been before. Says whether the migration is over.
pub fn walked(
    store: &mut Store,
    pacer: &mut MigrationPacer,
    memo: &mut Table<Carried>,
    instance: &[u8],
    generation: &[u8; 32],
    outcome: &WalkOutcome,
    already: bool,
    carried: Option<[u8; 32]>,
    now: u64,
) -> (r: bool)
    requires
        now <= u64::MAX - WALK_INTERVAL,
    ensures
        ({
            let before = match old(pacer).pace(instance@) {
                Some(p) => p,
                None => fresh_pace(instance@, now),
            };
            let walk = counted_as(*outcome, already || carried is Some);
            let after = paced(old(pacer).since(), before, walk, now);
            &&& r == (after.agreeing >= SEAL_AFTER_WALKS)
            &&& final(pacer).since() == old(pacer).since()
            &&& final(pacer).paces() == (if r {
                those(old(pacer).paces(), |p: PaceModel| p.address != instance@)
            } else {
                put::<Pace>(old(pacer).paces(), after)
            })
        }),
        final(memo)@ == (match carried {
            Some(digest) => put::<Carried>(old(memo)@, (instance@, digest@)),
            None => old(memo)@,
        }),
        final(store)@ == (if r {
            StoreModel {
                migrations: put::<MigrationRow>(
                    old(store)@.migrations,
                    (instance@, generation@, outcome_text(*outcome)),
                ),
                ..old(store)@
            }
        } else {
            old(store)@
        }),
{
    let mut published = already;
    match carried {
        Some(digest) => {
            memo.put(Carried { address: copy_all(instance), digest });
            published = true;
        },
        None => {},
    }
    let walk = match Walk::from_outcome(outcome) {
        Walk::Recovered if !published => Walk::Unresolved,
        w => w,
    };
    let sealed = pacer.record(instance, walk, now);
    if sealed {
        let note = describe(outcome);
        store.set_migration_done(instance, generation, &note);
    }
    sealed
}

/// A walk that found something which did not get out, or which met with silence, brings a
/// migration no nearer to its end.
pub proof fn what_is_not_carried_does_not_count(
    outcome: WalkOutcome,
    started: u64,
    p: PaceModel,
    now: u64,
)
    requires
        outcome is Recovered || outcome is Indeterminate,
    ensures
        paced(started, p, counted_as(outcome, false), now).agreeing == p.agreeing,
{
}

} // verus!
