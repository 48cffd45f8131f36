//! What a bridge remembers between rounds.
//!
//! None of it is authoritative: the chain says what happened, and contract state says
//! what is published. A bridge that lost all of this would rescan, publish again, and
//! arrive at the same contract state. It is also the most private thing a bridge holds:
//! who asked for which script stands here and nowhere else.

use vstd::prelude::*;

use crate::bytes::{
    comes_before, copy_all, lex_before, lex_irreflexive, lex_total, lex_transitive, same32, same_bytes,
};
use crate::sums::{insert_counts, push_counts};
use crate::table::{any, first, put, put_new, stands_at, tally, those, Row, Table};
use crate::types::{same_text, BitcoinNetwork, BlockAnchor, BlockHash};

verus! {

broadcast use vstd::array::group_array_axioms;

/// The script, transaction and output index of an output that a reorg has orphaned.
pub type OrphanedOutput = (Vec<u8>, [u8; 32], u32);

/// The script, transaction, output index, value, block height and highest published
/// depth of a confirmed output that may be due a deeper claim.
pub type PendingDeepClaim = (Vec<u8>, [u8; 32], u32, u64, u32, u32);

// ---------------------------------------------------------------------------
// Rows
// ---------------------------------------------------------------------------

/// How far a network has been scanned.
#[derive(Clone, Copy, Debug)]
pub struct CheckpointRow {
    pub network: BitcoinNetwork,
    pub anchor: BlockAnchor,
}

impl Row for CheckpointRow {
    type M = CheckpointRow;

    type K = BitcoinNetwork;

    open spec fn model(&self) -> CheckpointRow {
        *self
    }

    open spec fn key(m: CheckpointRow) -> BitcoinNetwork {
        m.network
    }

    fn same_key(&self, other: &Self) -> (r: bool) {
        self.network == other.network
    }
}

/// A script the bridge is synchronizing.
#[derive(Clone, PartialEq, Eq, Debug)]
pub struct WatchedScript {
    pub network: BitcoinNetwork,
    pub script_pubkey: Vec<u8>,
    pub scan_from_height: u32,
    /// Whether it is one of the operator's public demo scripts.
    pub is_public_demo: bool,
}

/// A [`WatchedScript`] as a mathematical value.
pub struct WatchedModel {
    pub network: BitcoinNetwork,
    pub script_pubkey: Seq<u8>,
    pub scan_from_height: u32,
    pub is_public_demo: bool,
}

impl View for WatchedScript {
    type V = WatchedModel;

    open spec fn view(&self) -> WatchedModel {
        WatchedModel {
            network: self.network,
            script_pubkey: self.script_pubkey@,
            scan_from_height: self.scan_from_height,
            is_public_demo: self.is_public_demo,
        }
    }
}

/// A watched script, and when it was first asked for.
#[derive(Debug)]
pub struct WatchedRow {
    pub watch: WatchedScript,
    pub first_seen_ms: i64,
}

impl Row for WatchedRow {
    type M = (WatchedModel, i64);

    type K = (BitcoinNetwork, Seq<u8>);

    open spec fn model(&self) -> (WatchedModel, i64) {
        (self.watch@, self.first_seen_ms)
    }

    open spec fn key(m: (WatchedModel, i64)) -> (BitcoinNetwork, Seq<u8>) {
        (m.0.network, m.0.script_pubkey)
    }

    fn same_key(&self, other: &Self) -> (r: bool) {
        self.watch.network == other.watch.network && same_bytes(
            &self.watch.script_pubkey,
            &other.watch.script_pubkey,
        )
    }
}

/// The block seen at a height.
#[derive(Clone, Copy, Debug)]
pub struct BlockRow {
    pub network: BitcoinNetwork,
    pub height: u32,
    pub hash: BlockHash,
}

impl Row for BlockRow {
    type M = BlockRow;

    type K = (BitcoinNetwork, u32);

    open spec fn model(&self) -> BlockRow {
        *self
    }

    open spec fn key(m: BlockRow) -> (BitcoinNetwork, u32) {
        (m.network, m.height)
    }

    fn same_key(&self, other: &Self) -> (r: bool) {
        self.network == other.network && self.height == other.height
    }
}

/// A claim that has been published.
#[derive(Debug)]
pub struct PublishedRow {
    pub network: BitcoinNetwork,
    pub script_pubkey: Vec<u8>,
    pub digest: [u8; 32],
}

pub struct PublishedModel {
    pub network: BitcoinNetwork,
    pub script_pubkey: Seq<u8>,
    pub digest: Seq<u8>,
}

impl Row for PublishedRow {
    type M = PublishedModel;

    type K = PublishedModel;

    open spec fn model(&self) -> PublishedModel {
        PublishedModel {
            network: self.network,
            script_pubkey: self.script_pubkey@,
            digest: self.digest@,
        }
    }

    open spec fn key(m: PublishedModel) -> PublishedModel {
        m
    }

    fn same_key(&self, other: &Self) -> (r: bool) {
        self.network == other.network && same_bytes(&self.script_pubkey, &other.script_pubkey)
            && same32(&self.digest, &other.digest)
    }
}

/// An output that has been observed.
#[derive(Debug)]
pub struct OutputRow {
    pub network: BitcoinNetwork,
    pub script_pubkey: Vec<u8>,
    pub txid: [u8; 32],
    pub vout: u32,
    pub value_sats: u64,
    /// The block it is in; none once a reorg has moved it out.
    pub block: Option<BlockAnchor>,
    /// The highest depth asserted for it.
    pub deep_published: u32,
}

pub struct OutputModel {
    pub network: BitcoinNetwork,
    pub script_pubkey: Seq<u8>,
    pub txid: [u8; 32],
    pub vout: u32,
    pub value_sats: u64,
    pub block: Option<BlockAnchor>,
    pub deep_published: u32,
}

impl Row for OutputRow {
    type M = OutputModel;

    type K = (BitcoinNetwork, Seq<u8>, u32);

    open spec fn model(&self) -> OutputModel {
        OutputModel {
            network: self.network,
            script_pubkey: self.script_pubkey@,
            txid: self.txid,
            vout: self.vout,
            value_sats: self.value_sats,
            block: self.block,
            deep_published: self.deep_published,
        }
    }

    open spec fn key(m: OutputModel) -> (BitcoinNetwork, Seq<u8>, u32) {
        (m.network, m.txid@, m.vout)
    }

    fn same_key(&self, other: &Self) -> (r: bool) {
        self.network == other.network && same32(&self.txid, &other.txid) && self.vout == other.vout
    }
}

/// That an instance has been migrated under a contract code hash.
#[derive(Debug)]
pub struct MigrationRow {
    pub instance_id: Vec<u8>,
    pub generation: [u8; 32],
    pub outcome: String,
}

impl Row for MigrationRow {
    type M = (Seq<u8>, Seq<u8>, Seq<char>);

    type K = (Seq<u8>, Seq<u8>);

    open spec fn model(&self) -> (Seq<u8>, Seq<u8>, Seq<char>) {
        (self.instance_id@, self.generation@, self.outcome@)
    }

    open spec fn key(m: (Seq<u8>, Seq<u8>, Seq<char>)) -> (Seq<u8>, Seq<u8>) {
        (m.0, m.1)
    }

    fn same_key(&self, other: &Self) -> (r: bool) {
        same_bytes(&self.instance_id, &other.instance_id) && same32(
            &self.generation,
            &other.generation,
        )
    }
}

/// The version counter behind a generation pointer.
#[derive(Debug)]
pub struct PointerRow {
    pub app_id: String,
    pub version: u32,
    pub code_hash: [u8; 32],
}

impl Row for PointerRow {
    type M = (Seq<char>, u32, [u8; 32]);

    type K = Seq<char>;

    open spec fn model(&self) -> (Seq<char>, u32, [u8; 32]) {
        (self.app_id@, self.version, self.code_hash)
    }

    open spec fn key(m: (Seq<char>, u32, [u8; 32])) -> Seq<char> {
        m.0
    }

    fn same_key(&self, other: &Self) -> (r: bool) {
        same_text(&self.app_id, &other.app_id)
    }
}

/// A requester's latest request about a script.
#[derive(Debug)]
pub struct InterestRow {
    pub network: BitcoinNetwork,
    pub script_pubkey: Vec<u8>,
    /// The requester's Ghost Key; empty for the operator.
    pub ghostkey: Vec<u8>,
    pub watching: bool,
    pub request_ms: i64,
    pub recorded_ms: i64,
}

pub struct InterestModel {
    pub network: BitcoinNetwork,
    pub script_pubkey: Seq<u8>,
    pub ghostkey: Seq<u8>,
    pub watching: bool,
    pub request_ms: i64,
    pub recorded_ms: i64,
}

impl Row for InterestRow {
    type M = InterestModel;

    type K = (BitcoinNetwork, Seq<u8>, Seq<u8>);

    open spec fn model(&self) -> InterestModel {
        InterestModel {
            network: self.network,
            script_pubkey: self.script_pubkey@,
            ghostkey: self.ghostkey@,
            watching: self.watching,
            request_ms: self.request_ms,
            recorded_ms: self.recorded_ms,
        }
    }

    open spec fn key(m: InterestModel) -> (BitcoinNetwork, Seq<u8>, Seq<u8>) {
        (m.network, m.script_pubkey, m.ghostkey)
    }

    fn same_key(&self, other: &Self) -> (r: bool) {
        self.network == other.network && same_bytes(&self.script_pubkey, &other.script_pubkey)
            && same_bytes(&self.ghostkey, &other.ghostkey)
    }
}

/// An inbox entry that has been acted on.
#[derive(Debug)]
pub struct HandledRow {
    pub entry_key: [u8; 32],
    pub entry_height: u32,
    /// Who sent it, so that no one sender spends the removal budget.
    pub ghostkey: Vec<u8>,
}

pub struct HandledModel {
    pub entry_key: [u8; 32],
    pub entry_height: u32,
    pub ghostkey: Seq<u8>,
}

impl Row for HandledRow {
    type M = HandledModel;

    type K = Seq<u8>;

    open spec fn model(&self) -> HandledModel {
        HandledModel {
            entry_key: self.entry_key,
            entry_height: self.entry_height,
            ghostkey: self.ghostkey@,
        }
    }

    open spec fn key(m: HandledModel) -> Seq<u8> {
        m.entry_key@
    }

    fn same_key(&self, other: &Self) -> (r: bool) {
        same32(&self.entry_key, &other.entry_key)
    }
}

// ---------------------------------------------------------------------------
// The store
// ---------------------------------------------------------------------------

/// Everything a bridge remembers.
#[derive(Debug)]
pub struct Store {
    pub checkpoints: Table<CheckpointRow>,
    pub watched_scripts: Table<WatchedRow>,
    pub seen_blocks: Table<BlockRow>,
    pub published_claims: Table<PublishedRow>,
    pub observed_outputs: Table<OutputRow>,
    pub publish_generation: Option<[u8; 32]>,
    pub migrations: Table<MigrationRow>,
    pub pointer_versions: Table<PointerRow>,
    pub script_interests: Table<InterestRow>,
    /// The highest inbox floor this bridge has signed.
    pub floor: Option<u32>,
    pub inbox_handled: Table<HandledRow>,
}

/// A [`Store`] as a mathematical value.
pub struct StoreModel {
    pub checkpoints: Seq<CheckpointRow>,
    pub watched: Seq<(WatchedModel, i64)>,
    pub blocks: Seq<BlockRow>,
    pub published: Seq<PublishedModel>,
    pub outputs: Seq<OutputModel>,
    pub generation: Option<[u8; 32]>,
    pub migrations: Seq<(Seq<u8>, Seq<u8>, Seq<char>)>,
    pub pointers: Seq<(Seq<char>, u32, [u8; 32])>,
    pub interests: Seq<InterestModel>,
    pub floor: Option<u32>,
    pub handled: Seq<HandledModel>,
}

impl View for Store {
    type V = StoreModel;

    open spec fn view(&self) -> StoreModel {
        StoreModel {
            checkpoints: self.checkpoints@,
            watched: self.watched_scripts@,
            blocks: self.seen_blocks@,
            published: self.published_claims@,
            outputs: self.observed_outputs@,
            generation: self.publish_generation,
            migrations: self.migrations@,
            pointers: self.pointer_versions@,
            interests: self.script_interests@,
            floor: self.floor,
            handled: self.inbox_handled@,
        }
    }
}

/// One requester's request about one script.
#[derive(Clone, Copy, Debug)]
pub struct Interest<'a> {
    pub network: BitcoinNetwork,
    pub script: &'a [u8],
    pub ghostkey: &'a [u8; 32],
    pub watching: bool,
    /// When the sender made the request, by the sender's clock.
    pub request_ms: u64,
}

/// What [`Store::set_interest`] did.
#[derive(Clone, Copy, PartialEq, Eq, Structural, Debug)]
pub enum InterestChange {
    /// Not newer than this requester's last request about this script.
    Stale,
    /// Would take this requester past its limit of watched scripts.
    OverCap,
    /// The requester now wants the script.
    Watching,
    /// The requester no longer wants it; `last` when nobody else does either.
    Withdrawn { last: bool },
    /// A withdrawal from a requester that was not watching it.
    Unchanged,
}

/// The requester recorded for a script that was watched before anyone asked for it.
/// Every requester has a Ghost Key of 32 bytes, so no request can ever name this one.
pub fn operator_interest() -> (r: Vec<u8>)
    ensures
        r@ == Seq::<u8>::empty(),
{
    Vec::new()
}

// What the tables say -------------------------------------------------------

impl StoreModel {
    /// How far a network has been scanned.
    pub open spec fn checkpoint(self, net: BitcoinNetwork) -> Option<BlockAnchor> {
        match first(self.checkpoints, |r: CheckpointRow| r.network == net) {
            Some(r) => Some(r.anchor),
            None => None,
        }
    }

    pub open spec fn is_watched(self, net: BitcoinNetwork, script: Seq<u8>) -> bool {
        any(
            self.watched,
            |r: (WatchedModel, i64)| r.0.network == net && r.0.script_pubkey == script,
        )
    }

    pub open spec fn block_at(self, net: BitcoinNetwork, height: u32) -> Option<BlockHash> {
        match first(self.blocks, |r: BlockRow| r.network == net && r.height == height) {
            Some(r) => Some(r.hash),
            None => None,
        }
    }

    /// How many requesters want a script.
    pub open spec fn watchers(self, net: BitcoinNetwork, script: Seq<u8>) -> nat {
        tally(
            self.interests,
            |r: InterestModel| r.network == net && r.script_pubkey == script && r.watching,
        )
    }

    /// A requester's latest request about a script.
    pub open spec fn interest(
        self,
        net: BitcoinNetwork,
        script: Seq<u8>,
        ghostkey: Seq<u8>,
    ) -> Option<InterestModel> {
        first(
            self.interests,
            |r: InterestModel| r.network == net && r.script_pubkey == script && r.ghostkey == ghostkey,
        )
    }

    /// How many scripts a requester watches, or has withdrawn.
    pub open spec fn held(self, ghostkey: Seq<u8>, watching: bool) -> nat {
        tally(
            self.interests,
            |r: InterestModel| r.ghostkey == ghostkey && r.watching == watching,
        )
    }

    pub open spec fn is_handled(self, key: Seq<u8>) -> bool {
        any(self.handled, |r: HandledModel| r.entry_key@ == key)
    }

    pub open spec fn handled_count_for(self, ghostkey: Seq<u8>) -> nat {
        tally(self.handled, |r: HandledModel| r.ghostkey == ghostkey)
    }

    /// Whether a payment to `script` is less than `deep` blocks deep, or out of its block.
    pub open spec fn has_shallow_output(
        self,
        net: BitcoinNetwork,
        script: Seq<u8>,
        tip: u32,
        deep: u32,
    ) -> bool {
        any(
            self.outputs,
            |r: OutputModel|
                r.network == net && r.script_pubkey == script && (match r.block {
                    None => true,
                    Some(b) => b.height > tip + 1 - deep,
                }),
        )
    }
}

/// A watch with the lowest height asked for, and a demo script once it is one.
pub open spec fn watch_merged(old: (WatchedModel, i64), w: WatchedModel) -> (WatchedModel, i64) {
    (
        WatchedModel {
            network: old.0.network,
            script_pubkey: old.0.script_pubkey,
            scan_from_height: if w.scan_from_height < old.0.scan_from_height {
                w.scan_from_height
            } else {
                old.0.scan_from_height
            },
            is_public_demo: old.0.is_public_demo || w.is_public_demo,
        },
        old.1,
    )
}

/// The watched scripts with one more, or with one asked for again.
pub open spec fn watch_added(
    rows: Seq<(WatchedModel, i64)>,
    w: WatchedModel,
    now_ms: i64,
) -> Seq<(WatchedModel, i64)> {
    match first(
        rows,
        |r: (WatchedModel, i64)|
            r.0.network == w.network && r.0.script_pubkey == w.script_pubkey,
    ) {
        Some(r) => put::<WatchedRow>(rows, watch_merged(r, w)),
        None => put::<WatchedRow>(rows, (w, now_ms)),
    }
}

/// An output out of its block.
pub open spec fn moved_out(o: OutputModel, net: BitcoinNetwork, height: u32) -> OutputModel {
    if o.network == net && o.block is Some && o.block->Some_0.height > height {
        OutputModel { block: None, deep_published: 0, ..o }
    } else {
        o
    }
}

/// An output with at least a depth asserted.
pub open spec fn deepened(
    o: OutputModel,
    net: BitcoinNetwork,
    txid: Seq<u8>,
    vout: u32,
    depth: u32,
) -> OutputModel {
    if o.network == net && o.txid@ == txid && o.vout == vout && o.deep_published < depth {
        OutputModel { deep_published: depth, ..o }
    } else {
        o
    }
}

/// The outputs with one more, or with one seen again.
pub open spec fn output_recorded(rows: Seq<OutputModel>, o: OutputModel) -> Seq<OutputModel> {
    match first(
        rows,
        |r: OutputModel| r.network == o.network && r.txid@ == o.txid@ && r.vout == o.vout,
    ) {
        Some(r) => put::<OutputRow>(rows, OutputModel { block: o.block, ..r }),
        None => put::<OutputRow>(rows, o),
    }
}

/// Whether a script is one of some.
pub open spec fn is_listed(list: Seq<Vec<u8>>, s: Seq<u8>) -> bool {
    exists|j: int| 0 <= j < list.len() && (#[trigger] list[j])@ == s
}

/// Whether an output that pays a script is out of its block.
pub open spec fn in_doubt(rows: Seq<OutputModel>, net: BitcoinNetwork, s: Seq<u8>) -> bool {
    exists|k: int|
        0 <= k < rows.len() && (#[trigger] rows[k]).network == net && rows[k].block is None
            && rows[k].script_pubkey == s
}

/// A timestamp as the store keeps it.
pub open spec fn stamp(ms: u64) -> i64 {
    if ms <= i64::MAX {
        ms as i64
    } else {
        i64::MAX
    }
}

/// What recording a request comes to: the interests afterwards, and what happened.
///
/// Requests apply in the order their sender made them, whatever order they arrive in. In
/// one millisecond a withdrawal wins over a watch.
pub open spec fn interest_set(
    s: StoreModel,
    net: BitcoinNetwork,
    script: Seq<u8>,
    ghostkey: Seq<u8>,
    watching: bool,
    request_ms: u64,
    max: nat,
    now_ms: i64,
) -> (Seq<InterestModel>, InterestChange) {
    let at = stamp(request_ms);
    let existing = s.interest(net, script, ghostkey);
    let was_watching = existing is Some && existing->Some_0.watching;
    let row = InterestModel {
        network: net,
        script_pubkey: script,
        ghostkey,
        watching,
        request_ms: at,
        recorded_ms: now_ms,
    };
    if existing is Some && !(at > existing->Some_0.request_ms || (at == existing->Some_0.request_ms
        && was_watching && !watching)) {
        (s.interests, InterestChange::Stale)
    } else if !watching && existing is None && s.held(ghostkey, false) >= max {
        (s.interests, InterestChange::Unchanged)
    } else if watching && !was_watching && s.held(ghostkey, true) >= max {
        (s.interests, InterestChange::OverCap)
    } else {
        // a script watched before anyone asked gets an owner that never leaves
        let owned = if watching && !was_watching && s.watchers(net, script) == 0 && s.is_watched(
            net,
            script,
        ) {
            put_new::<InterestRow>(
                s.interests,
                InterestModel {
                    network: net,
                    script_pubkey: script,
                    ghostkey: Seq::empty(),
                    watching: true,
                    request_ms: 0,
                    recorded_ms: now_ms,
                },
            )
        } else {
            s.interests
        };
        let after = put::<InterestRow>(owned, row);
        let change = if watching {
            InterestChange::Watching
        } else if !was_watching {
            InterestChange::Unchanged
        } else {
            InterestChange::Withdrawn {
                last: StoreModel { interests: after, ..s }.watchers(net, script) == 0,
            }
        };
        (after, change)
    }
}

/// A watch that ended because it ran out.
pub open spec fn ended(
    r: InterestModel,
    net: BitcoinNetwork,
    script: Seq<u8>,
    ghostkey: Seq<u8>,
    now_ms: i64,
) -> InterestModel {
    if r.network == net && r.script_pubkey == script && r.ghostkey == ghostkey && r.watching {
        InterestModel { watching: false, recorded_ms: now_ms, ..r }
    } else {
        r
    }
}

/// Whether a watch was recorded before a time. The operator's never run out.
pub open spec fn ran_out(r: InterestModel, net: BitcoinNetwork, cutoff_ms: i64) -> bool {
    r.network == net && r.watching && r.recorded_ms < cutoff_ms && r.ghostkey.len() > 0
}

pub open spec fn pair_models(v: Seq<(Vec<u8>, Vec<u8>)>) -> Seq<(Seq<u8>, Seq<u8>)> {
    v.map_values(|e: (Vec<u8>, Vec<u8>)| (e.0@, e.1@))
}

/// Lexicographic order on pairs of byte strings.
pub open spec fn pair_before(a: (Seq<u8>, Seq<u8>), b: (Seq<u8>, Seq<u8>)) -> bool {
    lex_before(a.0, b.0) || (a.0 == b.0 && lex_before(a.1, b.1))
}

/// Pairs that never fall.
pub open spec fn pairs_rise(s: Seq<(Seq<u8>, Seq<u8>)>) -> bool {
    forall|i: int, j: int|
        0 <= i < j < s.len() ==> !pair_before(#[trigger] s[j], #[trigger] s[i])
}

/// The watches on a network that were recorded before a time, in their order.
pub open spec fn run_out(s: StoreModel, net: BitcoinNetwork, cutoff_ms: i64) -> Seq<
    (Seq<u8>, Seq<u8>),
> {
    choose|c: Seq<(Seq<u8>, Seq<u8>)>| #[trigger]
        pairs_rise(c) && c.to_multiset() == those(
            s.interests,
            |r: InterestModel| ran_out(r, net, cutoff_ms),
        ).map_values(|r: InterestModel| (r.script_pubkey, r.ghostkey)).to_multiset()
}

/// Whether one pair comes no later than another.
pub open spec fn no_later() -> spec_fn((Seq<u8>, Seq<u8>), (Seq<u8>, Seq<u8>)) -> bool {
    |x: (Seq<u8>, Seq<u8>), y: (Seq<u8>, Seq<u8>)| !pair_before(y, x)
}

proof fn pairs_are_ordered()
    ensures
        vstd::relations::total_ordering(no_later()),
{
    let leq = no_later();
    assert forall|x: (Seq<u8>, Seq<u8>)| #[trigger] leq(x, x) by {
        pair_irreflexive(x);
    }
    assert forall|x: (Seq<u8>, Seq<u8>), y: (Seq<u8>, Seq<u8>)| #[trigger]
        leq(x, y) && #[trigger] leq(y, x) implies x == y by {
        pair_total(x, y);
    }
    assert forall|
        x: (Seq<u8>, Seq<u8>),
        y: (Seq<u8>, Seq<u8>),
        z: (Seq<u8>, Seq<u8>),
    | #[trigger]
        leq(x, y) && #[trigger] leq(y, z) implies leq(x, z) by {
        if pair_before(z, x) {
            pair_total(x, y);
            if x != y {
                pair_transitive(z, x, y);
            }
        }
    }
    assert forall|x: (Seq<u8>, Seq<u8>), y: (Seq<u8>, Seq<u8>)|
        #[trigger] leq(x, y) || #[trigger] leq(y, x) by {
        if pair_before(x, y) && pair_before(y, x) {
            pair_transitive(x, y, x);
            pair_irreflexive(x);
        }
    }
}

/// What ran out can be put in order, and has been.
pub proof fn run_out_is_what_ran_out(s: StoreModel, net: BitcoinNetwork, cutoff_ms: i64)
    ensures
        pairs_rise(run_out(s, net, cutoff_ms)),
        run_out(s, net, cutoff_ms).to_multiset() == those(
            s.interests,
            |r: InterestModel| ran_out(r, net, cutoff_ms),
        ).map_values(|r: InterestModel| (r.script_pubkey, r.ghostkey)).to_multiset(),
{
    let all = those(s.interests, |r: InterestModel| ran_out(r, net, cutoff_ms)).map_values(
        |r: InterestModel| (r.script_pubkey, r.ghostkey),
    );
    pairs_are_ordered();
    all.lemma_sort_by_ensures(no_later());
    let c = all.sort_by(no_later());
    assert forall|i: int, j: int| 0 <= i < j < c.len() implies !pair_before(
        #[trigger] c[j],
        #[trigger] c[i],
    ) by {
        assert(no_later()(c[i], c[j]));
    }
    assert(pairs_rise(c));
}

/// Pairs in order are told by what they are.
pub proof fn order_is_unique(a: Seq<(Seq<u8>, Seq<u8>)>, b: Seq<(Seq<u8>, Seq<u8>)>)
    requires
        pairs_rise(a),
        pairs_rise(b),
        a.to_multiset() == b.to_multiset(),
    ensures
        a == b,
{
    pairs_are_ordered();
    vstd::seq_lib::lemma_sorted_unique(a, b, no_later());
}

/// Whether a confirmed output may be due a deeper claim: at least two deep, and not yet
/// asserted as deep as any is.
pub open spec fn may_go_deeper(
    o: OutputModel,
    net: BitcoinNetwork,
    tip_height: u32,
    max_depth: u32,
) -> bool {
    o.network == net && o.deep_published < max_depth && o.block is Some && o.block->Some_0.height
        <= (if tip_height > 0 {
        tip_height - 1
    } else {
        0
    })
}

impl Store {
    /// A store that remembers nothing.
    pub fn open_in_memory() -> (r: Self)
        ensures
            r@.checkpoints.len() == 0,
            r@.watched.len() == 0,
            r@.blocks.len() == 0,
            r@.published.len() == 0,
            r@.outputs.len() == 0,
            r@.generation is None,
            r@.migrations.len() == 0,
            r@.pointers.len() == 0,
            r@.interests.len() == 0,
            r@.floor is None,
            r@.handled.len() == 0,
    {
        Store {
            checkpoints: Table::new(),
            watched_scripts: Table::new(),
            seen_blocks: Table::new(),
            published_claims: Table::new(),
            observed_outputs: Table::new(),
            publish_generation: None,
            migrations: Table::new(),
            pointer_versions: Table::new(),
            script_interests: Table::new(),
            floor: None,
            inbox_handled: Table::new(),
        }
    }

    // --- chain checkpoint --------------------------------------------------

    pub fn checkpoint(&self, net: BitcoinNetwork) -> (r: Option<BlockAnchor>)
        ensures
            r == self@.checkpoint(net),
    {
        let ghost p = |r: CheckpointRow| r.network == net;
        match self.checkpoints.first(
            |r: &CheckpointRow| -> (b: bool)
                ensures
                    b == (r.network == net)
                { r.network == net },
            Ghost(p),
        ) {
            Some(r) => Some(r.anchor),
            None => None,
        }
    }

    /// Move the checkpoint back to `height`, never forward, and never create one.
    /// Scanning again is harmless: a payment seen twice makes a claim that is already
    /// held.
    pub fn rewind_checkpoint_to(&mut self, net: BitcoinNetwork, height: u32)
        ensures
            final(self)@ == (StoreModel {
                checkpoints: old(self)@.checkpoints.map_values(
                    |r: CheckpointRow|
                        if r.network == net && r.anchor.height > height {
                            CheckpointRow {
                                network: r.network,
                                anchor: BlockAnchor { height, hash: r.anchor.hash },
                            }
                        } else {
                            r
                        },
                ),
                ..old(self)@
            }),
    {
        let ghost g = |r: CheckpointRow|
            if r.network == net && r.anchor.height > height {
                CheckpointRow {
                    network: r.network,
                    anchor: BlockAnchor { height, hash: r.anchor.hash },
                }
            } else {
                r
            };
        self.checkpoints.change(
            |r: &CheckpointRow| -> (b: Option<CheckpointRow>)
                ensures
                    g(*r) == (match b {
                        Some(x) => x,
                        None => *r,
                    })
                {
                    if r.network == net && r.anchor.height > height {
                        Some(
                            CheckpointRow {
                                network: r.network,
                                anchor: BlockAnchor { height, hash: r.anchor.hash },
                            },
                        )
                    } else {
                        None
                    }
                },
            Ghost(g),
        );
    }

    pub fn set_checkpoint(&mut self, net: BitcoinNetwork, a: &BlockAnchor)
        ensures
            final(self)@ == (StoreModel {
                checkpoints: put::<CheckpointRow>(
                    old(self)@.checkpoints,
                    CheckpointRow { network: net, anchor: *a },
                ),
                ..old(self)@
            }),
            final(self)@.checkpoint(net) == Some(*a),
            forall|other: BitcoinNetwork|
                other != net ==> #[trigger] final(self)@.checkpoint(other) == old(self)@.checkpoint(
                    other,
                ),
    {
        let ghost rows = self.checkpoints@;
        let ghost row = CheckpointRow { network: net, anchor: *a };
        let _ = self.checkpoints.len();
        self.checkpoints.put(CheckpointRow { network: net, anchor: *a });
        proof {
            let p = |r: CheckpointRow| r.network == net;
            crate::table::what_is_put_is_found::<CheckpointRow>(rows, row, p);
            assert forall|other: BitcoinNetwork| other != net implies #[trigger] self@.checkpoint(
                other,
            ) == old(self)@.checkpoint(other) by {
                let q = |r: CheckpointRow| r.network == other;
                crate::table::putting_leaves_the_rest::<CheckpointRow>(rows, row, q);
            }
        }
    }

    // --- watched scripts ---------------------------------------------------

    /// Watch a script, and say whether it was watched before. A later request keeps the
    /// lowest height asked for.
    pub fn add_watch(&mut self, w: &WatchedScript, now_ms: i64) -> (r: bool)
        ensures
            final(self)@ == (StoreModel {
                watched: watch_added(old(self)@.watched, w@, now_ms),
                ..old(self)@
            }),
            r == old(self)@.is_watched(w.network, w.script_pubkey@),
    {
        let ghost p = |r: (WatchedModel, i64)|
            r.0.network == w.network && r.0.script_pubkey == w.script_pubkey@;
        let existing = self.watched_scripts.first(
            |r: &WatchedRow| -> (b: bool)
                ensures
                    b == p(r.model())
                {
                    r.watch.network == w.network && same_bytes(
                        &r.watch.script_pubkey,
                        &w.script_pubkey,
                    )
                },
            Ghost(p),
        );
        let (row, existed) = match existing {
            Some(r) => {
                let from: u32 = if w.scan_from_height < r.watch.scan_from_height {
                    w.scan_from_height
                } else {
                    r.watch.scan_from_height
                };
                (
                    WatchedRow {
                        watch: WatchedScript {
                            network: r.watch.network,
                            script_pubkey: copy_all(&r.watch.script_pubkey),
                            scan_from_height: from,
                            is_public_demo: r.watch.is_public_demo || w.is_public_demo,
                        },
                        first_seen_ms: r.first_seen_ms,
                    },
                    true,
                )
            },
            None => (
                WatchedRow {
                    watch: WatchedScript {
                        network: w.network,
                        script_pubkey: copy_all(&w.script_pubkey),
                        scan_from_height: w.scan_from_height,
                        is_public_demo: w.is_public_demo,
                    },
                    first_seen_ms: now_ms,
                },
                false,
            ),
        };
        proof {
            crate::table::first_or_none(self@.watched, p);
        }
        self.watched_scripts.put(row);
        existed
    }

    /// Stop watching a script. A demo script is the operator's, and stays.
    pub fn remove_watch(&mut self, net: BitcoinNetwork, script: &[u8])
        ensures
            final(self)@ == (StoreModel {
                watched: those(
                    old(self)@.watched,
                    |r: (WatchedModel, i64)|
                        !(r.0.network == net && r.0.script_pubkey == script@
                            && !r.0.is_public_demo),
                ),
                ..old(self)@
            }),
    {
        let ghost p = |r: (WatchedModel, i64)|
            !(r.0.network == net && r.0.script_pubkey == script@ && !r.0.is_public_demo);
        self.watched_scripts.retain(
            |r: &WatchedRow| -> (b: bool)
                ensures
                    b == p(r.model())
                {
                    !(r.watch.network == net && same_bytes(&r.watch.script_pubkey, script)
                        && !r.watch.is_public_demo)
                },
            Ghost(p),
        );
    }

    pub fn watched(&self, net: BitcoinNetwork) -> (r: Vec<WatchedScript>)
        ensures
            r@.map_values(|w: WatchedScript| w@) == those(
                self@.watched,
                |r: (WatchedModel, i64)| r.0.network == net,
            ).map_values(|r: (WatchedModel, i64)| r.0),
    {
        let ghost p = |r: (WatchedModel, i64)| r.0.network == net;
        let at = self.watched_scripts.matching(
            |r: &WatchedRow| -> (b: bool)
                ensures
                    b == p(r.model())
                { r.watch.network == net },
            Ghost(p),
        );
        let ghost sel = those(self@.watched, p);
        let mut out: Vec<WatchedScript> = Vec::new();
        let n: usize = at.len();
        for i in 0..n
            invariant
                n == at@.len(),
                sel == those(self@.watched, p),
                at@.len() == sel.len(),
                forall|i: int|
                    0 <= i < at@.len() ==> (#[trigger] at@[i]) < self@.watched.len()
                        && self@.watched[at@[i] as int] == sel[i],
                out@.len() == i,
                forall|j: int| 0 <= j < i ==> (#[trigger] out@[j])@ == sel[j].0,
        {
            let r = &self.watched_scripts.at(at[i]).watch;
            out.push(
                WatchedScript {
                    network: r.network,
                    script_pubkey: copy_all(&r.script_pubkey),
                    scan_from_height: r.scan_from_height,
                    is_public_demo: r.is_public_demo,
                },
            );
        }
        assert(out@.map_values(|w: WatchedScript| w@) =~= sel.map_values(
            |r: (WatchedModel, i64)| r.0,
        ));
        out
    }

    pub fn is_watched(&self, net: BitcoinNetwork, script: &[u8]) -> (r: bool)
        ensures
            r == self@.is_watched(net, script@),
    {
        let ghost p = |r: (WatchedModel, i64)| r.0.network == net && r.0.script_pubkey == script@;
        self.watched_scripts.any(
            |r: &WatchedRow| -> (b: bool)
                ensures
                    b == p(r.model())
                { r.watch.network == net && same_bytes(&r.watch.script_pubkey, script) },
            Ghost(p),
        )
    }

    // --- seen blocks -------------------------------------------------------

    pub fn record_block(&mut self, net: BitcoinNetwork, height: u32, hash: &BlockHash)
        ensures
            final(self)@ == (StoreModel {
                blocks: put::<BlockRow>(
                    old(self)@.blocks,
                    BlockRow { network: net, height, hash: *hash },
                ),
                ..old(self)@
            }),
    {
        self.seen_blocks.put(BlockRow { network: net, height, hash: *hash });
    }

    pub fn block_at(&self, net: BitcoinNetwork, height: u32) -> (r: Option<BlockHash>)
        ensures
            r == self@.block_at(net, height),
    {
        let ghost p = |r: BlockRow| r.network == net && r.height == height;
        match self.seen_blocks.first(
            |r: &BlockRow| -> (b: bool)
                ensures
                    b == p(*r)
                { r.network == net && r.height == height },
            Ghost(p),
        ) {
            Some(r) => Some(r.hash),
            None => None,
        }
    }

    /// Forget the blocks above `height`: all that an orphaned branch contained.
    pub fn forget_blocks_above(&mut self, net: BitcoinNetwork, height: u32)
        ensures
            final(self)@ == (StoreModel {
                blocks: those(
                    old(self)@.blocks,
                    |r: BlockRow| !(r.network == net && r.height > height),
                ),
                ..old(self)@
            }),
    {
        let ghost p = |r: BlockRow| !(r.network == net && r.height > height);
        self.seen_blocks.retain(
            |r: &BlockRow| -> (b: bool)
                ensures
                    b == p(*r)
                { !(r.network == net && r.height > height) },
            Ghost(p),
        );
    }

    /// Forget the blocks more than `keep` below the tip.
    pub fn prune_blocks(&mut self, net: BitcoinNetwork, tip: u32, keep: u32)
        ensures
            final(self)@ == (StoreModel {
                blocks: those(
                    old(self)@.blocks,
                    |r: BlockRow| !(r.network == net && r.height < tip - keep),
                ),
                ..old(self)@
            }),
    {
        let floor: u32 = tip.saturating_sub(keep);
        let ghost p = |r: BlockRow| !(r.network == net && r.height < tip - keep);
        self.seen_blocks.retain(
            |r: &BlockRow| -> (b: bool)
                ensures
                    b == p(*r)
                { !(r.network == net && r.height < floor) },
            Ghost(p),
        );
    }

    // --- observed outputs --------------------------------------------------

    /// Record an output and the block it is in. One seen before keeps its script, value
    /// and asserted depth.
    pub fn record_output(
        &mut self,
        net: BitcoinNetwork,
        script: &[u8],
        txid: &[u8; 32],
        vout: u32,
        value_sats: u64,
        block: Option<(u32, BlockHash)>,
    )
        ensures
            final(self)@ == (StoreModel {
                outputs: output_recorded(
                    old(self)@.outputs,
                    OutputModel {
                        network: net,
                        script_pubkey: script@,
                        txid: *txid,
                        vout,
                        value_sats,
                        block: match block {
                            Some(b) => Some(BlockAnchor { height: b.0, hash: b.1 }),
                            None => None,
                        },
                        deep_published: 0,
                    },
                ),
                ..old(self)@
            }),
    {
        let block = match block {
            Some((height, hash)) => Some(BlockAnchor { height, hash }),
            None => None,
        };
        let ghost p = |r: OutputModel| r.network == net && r.txid@ == txid@ && r.vout == vout;
        let existing = self.observed_outputs.first(
            |r: &OutputRow| -> (b: bool)
                ensures
                    b == p(r.model())
                { r.network == net && same32(&r.txid, txid) && r.vout == vout },
            Ghost(p),
        );
        let row = match existing {
            Some(r) => OutputRow {
                network: r.network,
                script_pubkey: copy_all(&r.script_pubkey),
                txid: r.txid,
                vout: r.vout,
                value_sats: r.value_sats,
                block,
                deep_published: r.deep_published,
            },
            None => OutputRow {
                network: net,
                script_pubkey: copy_all(script),
                txid: *txid,
                vout,
                value_sats,
                block,
                deep_published: 0,
            },
        };
        self.observed_outputs.put(row);
    }

    /// The outputs recorded as confirmed above `height`: those that a reorg to `height`
    /// has orphaned.
    pub fn outputs_above(&self, net: BitcoinNetwork, height: u32) -> (r: Vec<OrphanedOutput>)
        ensures
            r@.map_values(|o: OrphanedOutput| (o.0@, o.1, o.2)) == those(
                self@.outputs,
                |o: OutputModel|
                    o.network == net && o.block is Some && o.block->Some_0.height > height,
            ).map_values(|o: OutputModel| (o.script_pubkey, o.txid, o.vout)),
    {
        let ghost p = |o: OutputModel|
            o.network == net && o.block is Some && o.block->Some_0.height > height;
        let at = self.observed_outputs.matching(
            |r: &OutputRow| -> (b: bool)
                ensures
                    b == p(r.model())
                {
                    r.network == net && match r.block {
                        Some(a) => a.height > height,
                        None => false,
                    }
                },
            Ghost(p),
        );
        let ghost sel = those(self@.outputs, p);
        let mut out: Vec<OrphanedOutput> = Vec::new();
        let n: usize = at.len();
        for i in 0..n
            invariant
                n == at@.len(),
                sel == those(self@.outputs, p),
                at@.len() == sel.len(),
                forall|i: int|
                    0 <= i < at@.len() ==> (#[trigger] at@[i]) < self@.outputs.len()
                        && self@.outputs[at@[i] as int] == sel[i],
                out@.len() == i,
                forall|j: int|
                    0 <= j < i ==> ((#[trigger] out@[j]).0@, out@[j].1, out@[j].2) == (
                        sel[j].script_pubkey,
                        sel[j].txid,
                        sel[j].vout,
                    ),
        {
            let r = self.observed_outputs.at(at[i]);
            out.push((copy_all(&r.script_pubkey), r.txid, r.vout));
        }
        assert(out@.map_values(|o: OrphanedOutput| (o.0@, o.1, o.2)) =~= sel.map_values(
            |o: OutputModel| (o.script_pubkey, o.txid, o.vout),
        ));
        out
    }

    /// The scripts with an output that a reorg moved out of its block and that no scan
    /// has seen since, each once.
    pub fn scripts_with_unconfirmed_outputs(&self, net: BitcoinNetwork) -> (r: Vec<Vec<u8>>)
        ensures
            forall|s: Seq<u8>| #[trigger] is_listed(r@, s) <==> in_doubt(self@.outputs, net, s),
            forall|i: int, j: int|
                0 <= i < j < r@.len() ==> (#[trigger] r@[i])@ != (#[trigger] r@[j])@,
    {
        let ghost rows = self@.outputs;
        let mut out: Vec<Vec<u8>> = Vec::new();
        let n: usize = self.observed_outputs.len();
        for i in 0..n
            invariant
                n == rows.len(),
                rows == self@.outputs,
                forall|s: Seq<u8>| #[trigger]
                    is_listed(out@, s) <==> in_doubt(rows.take(i as int), net, s),
                forall|a: int, b: int|
                    0 <= a < b < out@.len() ==> (#[trigger] out@[a])@ != (#[trigger] out@[b])@,
        {
            let ghost before = out@;
            let ghost seen = rows.take(i as int);
            let ghost now = rows.take(i + 1);
            let r = self.observed_outputs.at(i);
            assert(r.model() == rows[i as int]);
            let doubted = r.network == net && r.block.is_none();
            if doubted {
                if !holds(&out, &r.script_pubkey) {
                    out.push(copy_all(&r.script_pubkey));
                }
            }
            assert forall|s: Seq<u8>| #[trigger] is_listed(out@, s) <==> in_doubt(now, net, s) by {
                assert(is_listed(before, s) <==> in_doubt(seen, net, s));
                if in_doubt(seen, net, s) {
                    let k = choose|k: int|
                        0 <= k < seen.len() && (#[trigger] seen[k]).network == net
                            && seen[k].block is None && seen[k].script_pubkey == s;
                    assert(now[k] == seen[k]);
                }
                if in_doubt(now, net, s) {
                    let k = choose|k: int|
                        0 <= k < now.len() && (#[trigger] now[k]).network == net
                            && now[k].block is None && now[k].script_pubkey == s;
                    if k < i {
                        assert(seen[k] == now[k]);
                    }
                }
                if doubted && s == r.script_pubkey@ {
                    assert(now[i as int].script_pubkey == s);
                    if out@.len() > before.len() {
                        assert(out@[before.len() as int]@ == s);
                    }
                }
                if is_listed(before, s) {
                    let j = choose|j: int| 0 <= j < before.len() && (#[trigger] before[j])@ == s;
                    assert(out@[j]@ == s);
                }
                if is_listed(out@, s) {
                    let j = choose|j: int| 0 <= j < out@.len() && (#[trigger] out@[j])@ == s;
                    if j < before.len() {
                        assert(before[j]@ == s);
                    }
                }
            }
        }
        assert(rows.take(n as int) =~= rows);
        out
    }

    /// Whether this very output was moved out of its block by a reorg and no scan has
    /// seen it since.
    pub fn is_output_in_doubt(&self, net: BitcoinNetwork, txid: &[u8; 32], vout: u32) -> (r: bool)
        ensures
            r == any(
                self@.outputs,
                |o: OutputModel|
                    o.network == net && o.txid@ == txid@ && o.vout == vout && o.block is None,
            ),
    {
        let ghost p = |o: OutputModel|
            o.network == net && o.txid@ == txid@ && o.vout == vout && o.block is None;
        self.observed_outputs.any(
            |r: &OutputRow| -> (b: bool)
                ensures
                    b == p(r.model())
                {
                    r.network == net && same32(&r.txid, txid) && r.vout == vout
                        && r.block.is_none()
                },
            Ghost(p),
        )
    }

    /// Move the outputs above `height` out of their blocks. Nothing is asserted any more
    /// about how deep they are.
    pub fn unconfirm_above(&mut self, net: BitcoinNetwork, height: u32)
        ensures
            final(self)@ == (StoreModel {
                outputs: old(self)@.outputs.map_values(
                    |o: OutputModel| moved_out(o, net, height),
                ),
                ..old(self)@
            }),
    {
        let ghost g = |o: OutputModel| moved_out(o, net, height);
        self.observed_outputs.change(
            |r: &OutputRow| -> (b: Option<OutputRow>)
                ensures
                    g(r.model()) == (match b {
                        Some(x) => x.model(),
                        None => r.model(),
                    })
                {
                    let above = match r.block {
                        Some(a) => a.height > height,
                        None => false,
                    };
                    if r.network == net && above {
                        Some(
                            OutputRow {
                                network: r.network,
                                script_pubkey: copy_all(&r.script_pubkey),
                                txid: r.txid,
                                vout: r.vout,
                                value_sats: r.value_sats,
                                block: None,
                                deep_published: 0,
                            },
                        )
                    } else {
                        None
                    }
                },
            Ghost(g),
        );
    }

    /// The confirmed outputs whose asserted depth may be behind the chain. Which depth is
    /// next is the caller's to say.
    pub fn outputs_needing_deep_claim(
        &self,
        net: BitcoinNetwork,
        tip_height: u32,
        max_depth: u32,
    ) -> (r: Vec<PendingDeepClaim>)
        ensures
            r@.map_values(|o: PendingDeepClaim| (o.0@, o.1, o.2, o.3, o.4, o.5)) == those(
                self@.outputs,
                |o: OutputModel| may_go_deeper(o, net, tip_height, max_depth),
            ).map_values(
                |o: OutputModel|
                    (
                        o.script_pubkey,
                        o.txid,
                        o.vout,
                        o.value_sats,
                        o.block->Some_0.height,
                        o.deep_published,
                    ),
            ),
    {
        let ghost p = |o: OutputModel| may_go_deeper(o, net, tip_height, max_depth);
        let max_height: u32 = tip_height.saturating_sub(1);
        let at = self.observed_outputs.matching(
            |r: &OutputRow| -> (b: bool)
                ensures
                    b == p(r.model())
                {
                    r.network == net && r.deep_published < max_depth && match r.block {
                        Some(a) => a.height <= max_height,
                        None => false,
                    }
                },
            Ghost(p),
        );
        let ghost sel = those(self@.outputs, p);
        proof {
            crate::table::those_are_of_them(self@.outputs, p);
        }
        let mut out: Vec<PendingDeepClaim> = Vec::new();
        let n: usize = at.len();
        for i in 0..n
            invariant
                n == at@.len(),
                sel == those(self@.outputs, p),
                p == (|o: OutputModel| may_go_deeper(o, net, tip_height, max_depth)),
                at@.len() == sel.len(),
                forall|m: OutputModel| sel.contains(m) <==> self@.outputs.contains(m) && p(m),
                forall|i: int|
                    0 <= i < at@.len() ==> (#[trigger] at@[i]) < self@.outputs.len()
                        && self@.outputs[at@[i] as int] == sel[i],
                out@.len() == i,
                forall|j: int|
                    0 <= j < i ==> (
                        (#[trigger] out@[j]).0@,
                        out@[j].1,
                        out@[j].2,
                        out@[j].3,
                        out@[j].4,
                        out@[j].5,
                    ) == (
                        sel[j].script_pubkey,
                        sel[j].txid,
                        sel[j].vout,
                        sel[j].value_sats,
                        sel[j].block->Some_0.height,
                        sel[j].deep_published,
                    ),
        {
            let r = self.observed_outputs.at(at[i]);
            assert(sel.contains(sel[i as int]));
            let height: u32 = match r.block {
                Some(a) => a.height,
                None => 0,
            };
            out.push(
                (
                    copy_all(&r.script_pubkey),
                    r.txid,
                    r.vout,
                    r.value_sats,
                    height,
                    r.deep_published,
                ),
            );
        }
        assert(out@.map_values(|o: PendingDeepClaim| (o.0@, o.1, o.2, o.3, o.4, o.5))
            =~= sel.map_values(
            |o: OutputModel|
                (
                    o.script_pubkey,
                    o.txid,
                    o.vout,
                    o.value_sats,
                    o.block->Some_0.height,
                    o.deep_published,
                ),
        ));
        out
    }

    /// Record the highest depth asserted for an output. It only ever rises, until a
    /// reorg takes the block away.
    pub fn mark_deep_published(
        &mut self,
        net: BitcoinNetwork,
        txid: &[u8; 32],
        vout: u32,
        depth: u32,
    )
        ensures
            final(self)@ == (StoreModel {
                outputs: old(self)@.outputs.map_values(
                    |o: OutputModel| deepened(o, net, txid@, vout, depth),
                ),
                ..old(self)@
            }),
    {
        let ghost g = |o: OutputModel| deepened(o, net, txid@, vout, depth);
        self.observed_outputs.change(
            |r: &OutputRow| -> (b: Option<OutputRow>)
                ensures
                    g(r.model()) == (match b {
                        Some(x) => x.model(),
                        None => r.model(),
                    })
                {
                    if r.network == net && same32(&r.txid, txid) && r.vout == vout
                        && r.deep_published < depth {
                        Some(
                            OutputRow {
                                network: r.network,
                                script_pubkey: copy_all(&r.script_pubkey),
                                txid: r.txid,
                                vout: r.vout,
                                value_sats: r.value_sats,
                                block: r.block,
                                deep_published: depth,
                            },
                        )
                    } else {
                        None
                    }
                },
            Ghost(g),
        );
    }

    // --- migration bookkeeping ---------------------------------------------

    /// Whether this instance has been migrated under this code hash.
    pub fn migration_done(&self, instance_id: &[u8], generation: &[u8; 32]) -> (r: bool)
        ensures
            r == any(
                self@.migrations,
                |m: (Seq<u8>, Seq<u8>, Seq<char>)| m.0 == instance_id@ && m.1 == generation@,
            ),
    {
        let ghost p = |m: (Seq<u8>, Seq<u8>, Seq<char>)| m.0 == instance_id@ && m.1 == generation@;
        self.migrations.any(
            |r: &MigrationRow| -> (b: bool)
                ensures
                    b == p(r.model())
                { same_bytes(&r.instance_id, instance_id) && same32(&r.generation, generation) },
            Ghost(p),
        )
    }

    /// Record how a migration came out. The record is permanent, so a walk that settled
    /// nothing must not be recorded.
    pub fn set_migration_done(&mut self, instance_id: &[u8], generation: &[u8; 32], outcome: &str)
        ensures
            final(self)@ == (StoreModel {
                migrations: put::<MigrationRow>(
                    old(self)@.migrations,
                    (instance_id@, generation@, outcome@),
                ),
                ..old(self)@
            }),
    {
        self.migrations.put(
            MigrationRow {
                instance_id: copy_all(instance_id),
                generation: *generation,
                outcome: outcome.to_owned(),
            },
        );
    }

    // --- publish generation ------------------------------------------------

    /// Point the record of published claims at a contract code hash, and discard it if
    /// the code has changed: the claims would otherwise seem to be published in
    /// contracts that nobody has written to. Says whether it was discarded.
    pub fn set_publish_generation(&mut self, code_hash: &[u8; 32]) -> (r: bool)
        ensures
            r == (old(self)@.generation is Some && old(self)@.generation->Some_0@ != code_hash@),
            final(self)@ == (StoreModel {
                generation: Some(*code_hash),
                published: if r {
                    Seq::empty()
                } else {
                    old(self)@.published
                },
                ..old(self)@
            }),
    {
        let changed = match &self.publish_generation {
            Some(existing) => !same32(existing, code_hash),
            None => false,
        };
        if changed {
            self.published_claims = Table::new();
        }
        self.publish_generation = Some(*code_hash);
        changed
    }

    // --- generation pointers -----------------------------------------------

    /// What this bridge last published for `app_id`.
    pub fn pointer_record(&self, app_id: &str) -> (r: Option<(u32, [u8; 32])>)
        ensures
            r == (match first(
                self@.pointers,
                |m: (Seq<char>, u32, [u8; 32])| m.0 == app_id@,
            ) {
                Some(m) => Some((m.1, m.2)),
                None => None,
            }),
    {
        let ghost p = |m: (Seq<char>, u32, [u8; 32])| m.0 == app_id@;
        match self.pointer_versions.first(
            |r: &PointerRow| -> (b: bool)
                ensures
                    b == p(r.model())
                { same_text(&r.app_id, app_id) },
            Ghost(p),
        ) {
            Some(r) => Some((r.version, r.code_hash)),
            None => None,
        }
    }

    /// Remember what was published, so that the next record can supersede it.
    pub fn set_pointer_record(&mut self, app_id: &str, version: u32, code_hash: &[u8; 32])
        ensures
            final(self)@ == (StoreModel {
                pointers: put::<PointerRow>(
                    old(self)@.pointers,
                    (app_id@, version, *code_hash),
                ),
                ..old(self)@
            }),
    {
        self.pointer_versions.put(
            PointerRow { app_id: app_id.to_owned(), version, code_hash: *code_hash },
        );
    }

    // --- published claims --------------------------------------------------

    /// Record a claim as published. Says whether it was new.
    pub fn mark_published(&mut self, net: BitcoinNetwork, script: &[u8], digest: &[u8; 32]) -> (r:
        bool)
        ensures
            ({
                let m = PublishedModel {
                    network: net,
                    script_pubkey: script@,
                    digest: digest@,
                };
                &&& final(self)@ == (StoreModel {
                    published: put_new::<PublishedRow>(old(self)@.published, m),
                    ..old(self)@
                })
                &&& r == !old(self)@.published.contains(m)
            }),
    {
        let ghost m = PublishedModel { network: net, script_pubkey: script@, digest: digest@ };
        let ghost before = self@.published;
        let new = self.published_claims.put_new(
            PublishedRow { network: net, script_pubkey: copy_all(script), digest: *digest },
        );
        proof {
            if before.contains(m) {
                let i = choose|i: int| 0 <= i < before.len() && before[i] == m;
                assert(stands_at::<PublishedRow>(before, m, i));
            }
            if exists|i: int| stands_at::<PublishedRow>(before, m, i) {
                let i = choose|i: int| stands_at::<PublishedRow>(before, m, i);
                assert(before[i] == m);
            }
        }
        new
    }

    /// Whether a claim was recorded as published.
    pub fn is_published(&self, net: BitcoinNetwork, script: &[u8], digest: &[u8; 32]) -> (r: bool)
        ensures
            r == self@.published.contains(
                PublishedModel { network: net, script_pubkey: script@, digest: digest@ },
            ),
    {
        let ghost m = PublishedModel { network: net, script_pubkey: script@, digest: digest@ };
        let ghost p = |r: PublishedModel| r == m;
        let found = self.published_claims.any(
            |r: &PublishedRow| -> (b: bool)
                ensures
                    b == p(r.model())
                {
                    r.network == net && same_bytes(&r.script_pubkey, script) && same32(
                        &r.digest,
                        digest,
                    )
                },
            Ghost(p),
        );
        proof {
            let rows = self@.published;
            if found {
                let i = choose|i: int| 0 <= i < rows.len() && p(#[trigger] rows[i]);
                assert(rows[i] == m);
            }
            if rows.contains(m) {
                let i = choose|i: int| 0 <= i < rows.len() && rows[i] == m;
                assert(p(rows[i]));
            }
        }
        found
    }

    // --- who asked for each script -----------------------------------------

    /// How many requesters want `script`.
    pub fn watchers(&self, net: BitcoinNetwork, script: &[u8]) -> (r: usize)
        ensures
            r == self@.watchers(net, script@),
    {
        let ghost p = |r: InterestModel|
            r.network == net && r.script_pubkey == script@ && r.watching;
        self.script_interests.tally(
            |r: &InterestRow| -> (b: bool)
                ensures
                    b == p(r.model())
                { r.network == net && same_bytes(&r.script_pubkey, script) && r.watching },
            Ghost(p),
        )
    }

    fn held(&self, ghostkey: &[u8; 32], watching: bool) -> (r: usize)
        ensures
            r == self@.held(ghostkey@, watching),
    {
        let ghost p = |r: InterestModel| r.ghostkey == ghostkey@ && r.watching == watching;
        self.script_interests.tally(
            |r: &InterestRow| -> (b: bool)
                ensures
                    b == p(r.model())
                { same_bytes(&r.ghostkey, ghostkey) && r.watching == watching },
            Ghost(p),
        )
    }

    /// Record one requester's latest request about one script.
    pub fn set_interest(&mut self, i: &Interest<'_>, max_per_ghostkey: usize, now_ms: i64) -> (r:
        InterestChange)
        ensures
            ({
                let (interests, change) = interest_set(
                    old(self)@,
                    i.network,
                    i.script@,
                    i.ghostkey@,
                    i.watching,
                    i.request_ms,
                    max_per_ghostkey as nat,
                    now_ms,
                );
                &&& r == change
                &&& final(self)@ == (StoreModel { interests, ..old(self)@ })
            }),
    {
        let request_ms: i64 = if i.request_ms <= i64::MAX as u64 {
            i.request_ms as i64
        } else {
            i64::MAX
        };
        let ghost p = |r: InterestModel|
            r.network == i.network && r.script_pubkey == i.script@ && r.ghostkey == i.ghostkey@;
        let existing = self.script_interests.first(
            |r: &InterestRow| -> (b: bool)
                ensures
                    b == p(r.model())
                {
                    r.network == i.network && same_bytes(&r.script_pubkey, i.script) && same_bytes(
                        &r.ghostkey,
                        i.ghostkey,
                    )
                },
            Ghost(p),
        );
        let (known, was_watching) = match existing {
            Some(r) => {
                let newer = request_ms > r.request_ms || (request_ms == r.request_ms && r.watching
                    && !i.watching);
                if !newer {
                    return InterestChange::Stale;
                }
                (true, r.watching)
            },
            None => (false, false),
        };
        if !i.watching && !known && self.held(i.ghostkey, false) >= max_per_ghostkey {
            return InterestChange::Unchanged;
        }
        if i.watching && !was_watching {
            if self.held(i.ghostkey, true) >= max_per_ghostkey {
                return InterestChange::OverCap;
            }
            if self.watchers(i.network, i.script) == 0 && self.is_watched(i.network, i.script) {
                self.script_interests.put_new(
                    InterestRow {
                        network: i.network,
                        script_pubkey: copy_all(i.script),
                        ghostkey: operator_interest(),
                        watching: true,
                        request_ms: 0,
                        recorded_ms: now_ms,
                    },
                );
            }
        }
        self.script_interests.put(
            InterestRow {
                network: i.network,
                script_pubkey: copy_all(i.script),
                ghostkey: copy_all(i.ghostkey),
                watching: i.watching,
                request_ms,
                recorded_ms: now_ms,
            },
        );
        if i.watching {
            InterestChange::Watching
        } else if !was_watching {
            InterestChange::Unchanged
        } else {
            InterestChange::Withdrawn { last: self.watchers(i.network, i.script) == 0 }
        }
    }

    /// The watches on `net` that were recorded before `cutoff_ms`, as script and Ghost
    /// Key, in their order. The operator's never run out.
    pub fn watches_recorded_before(&self, net: BitcoinNetwork, cutoff_ms: i64) -> (r: Vec<
        (Vec<u8>, Vec<u8>),
    >)
        ensures
            pairs_rise(pair_models(r@)),
            pair_models(r@).to_multiset() == those(
                self@.interests,
                |r: InterestModel| ran_out(r, net, cutoff_ms),
            ).map_values(|r: InterestModel| (r.script_pubkey, r.ghostkey)).to_multiset(),
            pair_models(r@) == run_out(self@, net, cutoff_ms),
    {
        let ghost p = |r: InterestModel| ran_out(r, net, cutoff_ms);
        let ghost f = |r: InterestModel| (r.script_pubkey, r.ghostkey);
        let at = self.script_interests.matching(
            |r: &InterestRow| -> (b: bool)
                ensures
                    b == p(r.model())
                {
                    r.network == net && r.watching && r.recorded_ms < cutoff_ms
                        && r.ghostkey.len() > 0
                },
            Ghost(p),
        );
        let ghost sel = those(self@.interests, p);
        let ghost all = sel.map_values(f);
        let mut out: Vec<(Vec<u8>, Vec<u8>)> = Vec::new();
        let n: usize = at.len();
        assert(all.take(0) =~= Seq::<(Seq<u8>, Seq<u8>)>::empty());
        assert(pair_models(out@) =~= Seq::<(Seq<u8>, Seq<u8>)>::empty());
        for i in 0..n
            invariant
                n == at@.len(),
                sel == those(self@.interests, p),
                all == sel.map_values(f),
                f == (|r: InterestModel| (r.script_pubkey, r.ghostkey)),
                at@.len() == sel.len(),
                forall|i: int|
                    0 <= i < at@.len() ==> (#[trigger] at@[i]) < self@.interests.len()
                        && self@.interests[at@[i] as int] == sel[i],
                pairs_rise(pair_models(out@)),
                pair_models(out@).to_multiset() == all.take(i as int).to_multiset(),
        {
            let r = self.script_interests.at(at[i]);
            let pair = (copy_all(&r.script_pubkey), copy_all(&r.ghostkey));
            let ghost m = (pair.0@, pair.1@);
            let ghost was = pair_models(out@);
            let k: usize = pair_slot(&out, &pair);
            out.insert(k, pair);
            proof {
                assert(pair_models(out@) =~= was.insert(k as int, m));
                insert_counts(was, k as int, m);
                push_counts(all.take(i as int), m);
                assert(all[i as int] == m);
                assert(all.take(i + 1) =~= all.take(i as int).push(m));
            }
        }
        assert(all.take(n as int) =~= all);
        proof {
            order_is_unique(pair_models(out@), run_out(self@, net, cutoff_ms));
        }
        out
    }

    /// End one requester's watch because it ran out. Says whether anyone still wants the
    /// script.
    ///
    /// It is recorded as a withdrawal made now, with the timestamp of the watch, so that
    /// a delayed copy of the watch cannot bring it back while a newer one can.
    pub fn expire_interest(
        &mut self,
        net: BitcoinNetwork,
        script: &[u8],
        ghostkey: &[u8],
        now_ms: i64,
    ) -> (r: bool)
        ensures
            final(self)@ == (StoreModel {
                interests: old(self)@.interests.map_values(
                    |r: InterestModel| ended(r, net, script@, ghostkey@, now_ms),
                ),
                ..old(self)@
            }),
            r == (final(self)@.watchers(net, script@) > 0),
    {
        let ghost g = |r: InterestModel| ended(r, net, script@, ghostkey@, now_ms);
        self.script_interests.change(
            |r: &InterestRow| -> (b: Option<InterestRow>)
                ensures
                    g(r.model()) == (match b {
                        Some(x) => x.model(),
                        None => r.model(),
                    })
                {
                    if r.network == net && same_bytes(&r.script_pubkey, script) && same_bytes(
                        &r.ghostkey,
                        ghostkey,
                    ) && r.watching {
                        Some(
                            InterestRow {
                                network: r.network,
                                script_pubkey: copy_all(&r.script_pubkey),
                                ghostkey: copy_all(&r.ghostkey),
                                watching: false,
                                request_ms: r.request_ms,
                                recorded_ms: now_ms,
                            },
                        )
                    } else {
                        None
                    }
                },
            Ghost(g),
        );
        self.watchers(net, script) > 0
    }

    /// Whether a payment to `script` has been seen that the chain has not yet buried
    /// `deep` blocks deep, or that a reorg moved out of its block.
    pub fn has_shallow_output(&self, net: BitcoinNetwork, script: &[u8], tip: u32, deep: u32) -> (r:
        bool)
        ensures
            r == self@.has_shallow_output(net, script@, tip, deep),
    {
        let above: i64 = tip as i64 + 1 - deep as i64;
        let ghost p = |r: OutputModel|
            r.network == net && r.script_pubkey == script@ && (match r.block {
                None => true,
                Some(b) => b.height > tip + 1 - deep,
            });
        self.observed_outputs.any(
            |r: &OutputRow| -> (b: bool)
                ensures
                    b == p(r.model())
                {
                    r.network == net && same_bytes(&r.script_pubkey, script) && match r.block {
                        None => true,
                        Some(a) => a.height as i64 > above,
                    }
                },
            Ghost(p),
        )
    }

    /// Forget withdrawals recorded before `cutoff_ms`.
    pub fn prune_withdrawals_before(&mut self, cutoff_ms: i64)
        ensures
            final(self)@ == (StoreModel {
                interests: those(
                    old(self)@.interests,
                    |r: InterestModel| r.watching || r.recorded_ms >= cutoff_ms,
                ),
                ..old(self)@
            }),
    {
        let ghost p = |r: InterestModel| r.watching || r.recorded_ms >= cutoff_ms;
        self.script_interests.retain(
            |r: &InterestRow| -> (b: bool)
                ensures
                    b == p(r.model())
                { r.watching || r.recorded_ms >= cutoff_ms },
            Ghost(p),
        );
    }

    // --- inbox bookkeeping -------------------------------------------------

    /// The highest floor that this bridge's key has signed for its inbox.
    pub fn signed_floor(&self) -> (r: Option<u32>)
        ensures
            r == self@.floor,
    {
        self.floor
    }

    /// Record a floor that this bridge signed. The record only ever rises.
    pub fn set_signed_floor(&mut self, height: u32)
        ensures
            final(self)@ == (StoreModel {
                floor: match old(self)@.floor {
                    Some(f) => if f > height {
                        Some(f)
                    } else {
                        Some(height)
                    },
                    None => Some(height),
                },
                ..old(self)@
            }),
    {
        self.floor = match self.floor {
            Some(f) => if f > height {
                Some(f)
            } else {
                Some(height)
            },
            None => Some(height),
        };
    }

    pub fn is_handled(&self, entry_key: &[u8; 32]) -> (r: bool)
        ensures
            r == self@.is_handled(entry_key@),
    {
        let ghost p = |r: HandledModel| r.entry_key@ == entry_key@;
        self.inbox_handled.any(
            |r: &HandledRow| -> (b: bool)
                ensures
                    b == p(r.model())
                { same32(&r.entry_key, entry_key) },
            Ghost(p),
        )
    }

    pub fn mark_handled(&mut self, entry_key: &[u8; 32], entry_height: u32, ghostkey: &[u8])
        ensures
            final(self)@ == (StoreModel {
                handled: put_new::<HandledRow>(
                    old(self)@.handled,
                    HandledModel { entry_key: *entry_key, entry_height, ghostkey: ghostkey@ },
                ),
                ..old(self)@
            }),
    {
        self.inbox_handled.put_new(
            HandledRow { entry_key: *entry_key, entry_height, ghostkey: copy_all(ghostkey) },
        );
    }

    /// How many entries of one Ghost Key have been read that the floor has not passed.
    pub fn handled_count_for(&self, ghostkey: &[u8]) -> (r: usize)
        ensures
            r == self@.handled_count_for(ghostkey@),
    {
        let ghost p = |r: HandledModel| r.ghostkey == ghostkey@;
        self.inbox_handled.tally(
            |r: &HandledRow| -> (b: bool)
                ensures
                    b == p(r.model())
                { same_bytes(&r.ghostkey, ghostkey) },
            Ghost(p),
        )
    }

    /// Forget entries dated below `floor`, which the inbox has dropped.
    pub fn prune_handled_below(&mut self, floor: u32)
        ensures
            final(self)@ == (StoreModel {
                handled: those(old(self)@.handled, |r: HandledModel| r.entry_height >= floor),
                ..old(self)@
            }),
    {
        let ghost p = |r: HandledModel| r.entry_height >= floor;
        self.inbox_handled.retain(
            |r: &HandledRow| -> (b: bool)
                ensures
                    b == p(r.model())
                { r.entry_height >= floor },
            Ghost(p),
        );
    }

    /// How many entries have been read that the floor has not passed: as many removals
    /// does the inbox still have to hold.
    pub fn handled_count(&self) -> (r: usize)
        ensures
            r == self@.handled.len(),
    {
        self.inbox_handled.len()
    }

    /// The keys of every entry read at one height.
    pub fn handled_at(&self, entry_height: u32) -> (r: Vec<[u8; 32]>)
        ensures
            r@ == those(
                self@.handled,
                |r: HandledModel| r.entry_height == entry_height,
            ).map_values(|r: HandledModel| r.entry_key),
    {
        let ghost p = |r: HandledModel| r.entry_height == entry_height;
        let at = self.inbox_handled.matching(
            |r: &HandledRow| -> (b: bool)
                ensures
                    b == p(r.model())
                { r.entry_height == entry_height },
            Ghost(p),
        );
        let ghost sel = those(self@.handled, p);
        let mut out: Vec<[u8; 32]> = Vec::new();
        let n: usize = at.len();
        for i in 0..n
            invariant
                n == at@.len(),
                sel == those(self@.handled, p),
                at@.len() == sel.len(),
                forall|i: int|
                    0 <= i < at@.len() ==> (#[trigger] at@[i]) < self@.handled.len()
                        && self@.handled[at@[i] as int] == sel[i],
                out@.len() == i,
                forall|j: int| 0 <= j < i ==> out@[j] == (#[trigger] sel[j]).entry_key,
        {
            out.push(self.inbox_handled.at(at[i]).entry_key);
        }
        assert(out@ =~= sel.map_values(|r: HandledModel| r.entry_key));
        out
    }
}

/// The slot where a pair belongs among pairs that do not fall.
fn pair_slot(sorted: &Vec<(Vec<u8>, Vec<u8>)>, c: &(Vec<u8>, Vec<u8>)) -> (r: usize)
    requires
        pairs_rise(pair_models(sorted@)),
    ensures
        r <= sorted@.len(),
        pairs_rise(pair_models(sorted@).insert(r as int, (c.0@, c.1@))),
{
    let ghost s = pair_models(sorted@);
    let ghost m = (c.0@, c.1@);
    let mut i: usize = sorted.len();
    while i > 0 && pair_comes_before(c, &sorted[i - 1])
        invariant
            s == pair_models(sorted@),
            m == (c.0@, c.1@),
            pairs_rise(s),
            i <= s.len(),
            forall|j: int| i <= j < s.len() ==> pair_before(m, #[trigger] s[j]),
        decreases i,
    {
        assert(s[i - 1] == (sorted@[i - 1].0@, sorted@[i - 1].1@));
        i = i - 1;
    }
    proof {
        let t = s.insert(i as int, m);
        assert(i > 0 ==> s[i - 1] == (sorted@[i - 1].0@, sorted@[i - 1].1@));
        assert forall|a: int, b: int| 0 <= a < b < t.len() implies !pair_before(
            #[trigger] t[b],
            #[trigger] t[a],
        ) by {
            let x = t[a];
            let y = t[b];
            if pair_before(y, x) {
                if b < i {
                    assert(!pair_before(s[b], s[a]));
                } else if b == i {
                    if a < i - 1 {
                        assert(!pair_before(s[i - 1], s[a]));
                        pair_total(s[i - 1], s[a]);
                        if s[a] != s[i - 1] {
                            pair_transitive(y, x, s[i - 1]);
                        }
                    }
                } else if a < i {
                    assert(!pair_before(s[b - 1], s[a]));
                } else if a == i {
                    assert(pair_before(m, s[b - 1]));
                    pair_transitive(y, x, y);
                    pair_irreflexive(y);
                } else {
                    assert(!pair_before(s[b - 1], s[a - 1]));
                }
            }
        }
    }
    i
}

fn pair_comes_before(a: &(Vec<u8>, Vec<u8>), b: &(Vec<u8>, Vec<u8>)) -> (r: bool)
    ensures
        r == pair_before((a.0@, a.1@), (b.0@, b.1@)),
{
    if same_bytes(&a.0, &b.0) {
        proof {
            lex_irreflexive(a.0@);
        }
        comes_before(&a.1, &b.1)
    } else {
        comes_before(&a.0, &b.0)
    }
}

proof fn pair_irreflexive(a: (Seq<u8>, Seq<u8>))
    ensures
        !pair_before(a, a),
{
    lex_irreflexive(a.0);
    lex_irreflexive(a.1);
}

proof fn pair_transitive(a: (Seq<u8>, Seq<u8>), b: (Seq<u8>, Seq<u8>), c: (Seq<u8>, Seq<u8>))
    requires
        pair_before(a, b),
        pair_before(b, c),
    ensures
        pair_before(a, c),
{
    if a.0 == b.0 && b.0 == c.0 {
        if lex_before(a.0, b.0) || lex_before(b.0, c.0) {
            lex_irreflexive(a.0);
        }
        lex_transitive(a.1, b.1, c.1);
    } else if a.0 != b.0 && b.0 != c.0 {
        lex_transitive(a.0, b.0, c.0);
    }
}

proof fn pair_total(a: (Seq<u8>, Seq<u8>), b: (Seq<u8>, Seq<u8>))
    ensures
        a == b || pair_before(a, b) || pair_before(b, a),
{
    lex_total(a.0, b.0);
    lex_total(a.1, b.1);
}

/// Whether a byte string is one of some.
pub fn holds(list: &Vec<Vec<u8>>, b: &[u8]) -> (r: bool)
    ensures
        r == is_listed(list@, b@),
{
    for i in 0..list.len()
        invariant
            forall|j: int| 0 <= j < i ==> (#[trigger] list@[j])@ != b@,
    {
        if same_bytes(&list[i], b) {
            return true;
        }
    }
    false
}

} // verus!
