//! Carrying observations forward when the contracts move.
//!
//! Every rebuild of a contract moves it to a new address, and what the old one held has
//! to be brought along. The bridge does this, and does it before it first writes to the
//! new address: it can be told that there is something to recover only as long as nothing
//! stands there. Much of it could be had from Bitcoin again, but not what a pruned node
//! has discarded.

use vstd::prelude::*;

use crate::address_state::{
    height_of, kept, merged, readable, standing, BitcoinAddressStateV1, SetModel,
};
use crate::bytes::{copy_all, same_bytes};
use crate::claims::{BodyModel, ClaimModel};
use crate::convergence::pruning_keeps_the_newest;
use crate::fold::{about, highest_as_of_wins, is_about, statuses, winner, winner_wins};
use crate::outside::{blake3_of, contract_id};
use crate::records::body_from;
use crate::signing::SignedModel;
use crate::sorted::{map_of, map_of_rising, rising, ClaimKey, Ordered};
use crate::table::{
    first, nothing_is_first, put, putting_leaves_the_rest, those, what_is_kept_is_still_first,
    what_is_put_is_found, Row, Table,
};
use crate::text::{decimal, decimal_text, join};
use crate::tip_state::{tips_merged, BitcoinTipStateV1};
use crate::types::{BitcoinAddressParameters, BitcoinTipParameters, OutPoint};
use crate::wire::{from_cbor, read_from};

verus! {

// ---------------------------------------------------------------------------
// What states are, and how two become one
// ---------------------------------------------------------------------------

/// What to do with the states that earlier address contracts held.
#[derive(Debug)]
pub struct AddressOps {
    pub params: BitcoinAddressParameters,
}

impl AddressOps {
    pub fn decode(&self, bytes: &[u8]) -> (r: Option<BitcoinAddressStateV1>)
        ensures
            match r {
                Some(s) => read_from::<BitcoinAddressStateV1>(bytes@) is Ok && s.claims@
                    == read_from::<BitcoinAddressStateV1>(bytes@)->Ok_0,
                None => read_from::<BitcoinAddressStateV1>(bytes@) is Err,
            },
    {
        match from_cbor::<BitcoinAddressStateV1>(bytes) {
            Ok(s) => Some(s),
            Err(_) => None,
        }
    }

    /// Whether a bridge has said something here. A contract that was just created holds an
    /// empty state, and to adopt that is to adopt nothing.
    pub fn is_real(&self, state: &BitcoinAddressStateV1) -> (r: bool)
        ensures
            r == (state.claims.claims.list().len() > 0 || state.claims.scanned.list().len() > 0),
    {
        !state.claims.claims.is_empty() || !state.claims.scanned.is_empty()
    }

    pub fn merge_with_local(
        &self,
        recovered: BitcoinAddressStateV1,
        local: &BitcoinAddressStateV1,
    ) -> (r: BitcoinAddressStateV1)
        ensures
            r.claims@ == carried(recovered, *local, self.params),
    {
        carry(recovered, local, &self.params)
    }

    /// Take an older generation in, by the same merge that peers run.
    pub fn merge_generations(
        &self,
        newer: BitcoinAddressStateV1,
        older: BitcoinAddressStateV1,
    ) -> (r: BitcoinAddressStateV1)
        ensures
            r.claims@ == carried(newer, older, self.params),
    {
        carry(newer, &older, &self.params)
    }
}

/// One state with another merged into it, or as it was where that cannot be merged.
pub open spec fn carried(
    base: BitcoinAddressStateV1,
    other: BitcoinAddressStateV1,
    params: BitcoinAddressParameters,
) -> SetModel {
    let (after, fault) = merged(
        base.claims.claims.list(),
        base.claims@.scanned,
        other.claims.claims.list(),
        other.claims.scanned.list(),
        params@,
    );
    if fault is None {
        after
    } else {
        base.claims@
    }
}

fn carry(
    base: BitcoinAddressStateV1,
    other: &BitcoinAddressStateV1,
    params: &BitcoinAddressParameters,
) -> (r: BitcoinAddressStateV1)
    ensures
        r.claims@ == carried(base, *other, *params),
{
    let mut out = base.clone();
    match out.merge(params, other) {
        Ok(_) => out,
        Err(_) => base,
    }
}

/// What to do with the states that earlier tip contracts held.
#[derive(Debug)]
pub struct TipOps {
    pub params: BitcoinTipParameters,
}

impl TipOps {
    pub fn decode(&self, bytes: &[u8]) -> (r: Option<BitcoinTipStateV1>)
        ensures
            match r {
                Some(s) => read_from::<BitcoinTipStateV1>(bytes@) is Ok && s.blocks.blocks@
                    == read_from::<BitcoinTipStateV1>(bytes@)->Ok_0,
                None => read_from::<BitcoinTipStateV1>(bytes@) is Err,
            },
    {
        match from_cbor::<BitcoinTipStateV1>(bytes) {
            Ok(s) => Some(s),
            Err(_) => None,
        }
    }

    pub fn is_real(&self, state: &BitcoinTipStateV1) -> (r: bool)
        ensures
            r == (state.blocks.blocks.list().len() > 0),
    {
        state.tip_height().is_some()
    }

    pub fn merge_with_local(&self, recovered: BitcoinTipStateV1, local: &BitcoinTipStateV1) -> (r:
        BitcoinTipStateV1)
        ensures
            ({
                let (after, fault) = tips_merged(
                    recovered.blocks.blocks.list(),
                    local.blocks.blocks.list(),
                    self.params@,
                );
                r.blocks.blocks@ == if fault is None {
                    after
                } else {
                    recovered.blocks.blocks@
                }
            }),
    {
        let mut out = recovered.clone();
        match out.merge(&self.params, local) {
            Ok(_) => out,
            Err(_) => recovered,
        }
    }
}

proof fn reads_what_is_listed(list: Seq<(ClaimKey, SignedModel)>, i: int)
    requires
        0 <= i < list.len(),
        body_from(list[i].1.body_cbor) is Ok,
    ensures
        readable(list).contains(body_from(list[i].1.body_cbor)->Ok_0),
    decreases list.len(),
{
    let before = readable(list.drop_last());
    let b = body_from(list[i].1.body_cbor)->Ok_0;
    if i == list.len() - 1 {
        assert(readable(list).last() == b);
    } else {
        assert(list.drop_last()[i] == list[i]);
        reads_what_is_listed(list.drop_last(), i);
        let j = choose|j: int| 0 <= j < before.len() && before[j] == b;
        assert(readable(list)[j] == b);
    }
}

proof fn what_is_read_is_listed(list: Seq<(ClaimKey, SignedModel)>, j: int)
    requires
        0 <= j < readable(list).len(),
    ensures
        exists|i: int|
            0 <= i < list.len() && body_from((#[trigger] list[i]).1.body_cbor) is Ok && body_from(
                list[i].1.body_cbor,
            )->Ok_0 == readable(list)[j],
    decreases list.len(),
{
    let before = readable(list.drop_last());
    if j < before.len() {
        what_is_read_is_listed(list.drop_last(), j);
        let i = choose|i: int|
            0 <= i < list.drop_last().len() && body_from(
                (#[trigger] list.drop_last()[i]).1.body_cbor,
            ) is Ok && body_from(list.drop_last()[i].1.body_cbor)->Ok_0 == before[j];
        assert(list[i] == list.drop_last()[i]);
    } else {
        assert(list[list.len() - 1] == list.last());
    }
}

/// Taking in an older generation does not bring a payment back that was reorganized away.
/// A retraction is a claim like any other, stands above the confirmations it supersedes,
/// and is pruned only after them: whatever else `claims` holds, the outpoint is not
/// confirmed once they have been pruned.
pub proof fn a_retracted_payment_is_not_resurrected(
    claims: Map<ClaimKey, SignedModel>,
    retraction: ClaimKey,
    outpoint: OutPoint,
    list: Seq<(ClaimKey, SignedModel)>,
)
    requires
        claims.dom().finite(),
        claims.contains_key(retraction),
        body_from(claims[retraction].body_cbor) is Ok,
        body_from(claims[retraction].body_cbor)->Ok_0.claim == (ClaimModel::Retracted { outpoint }),
        forall|k: ClaimKey| #[trigger]
            claims.contains_key(k) && confirms(claims[k], outpoint) ==> height_of(claims[k])
                < height_of(claims[retraction]),
        rising(list),
        map_of(list) == kept(claims),
    ensures
        !(statuses(readable(list)).contains_key(outpoint) && statuses(readable(
            list,
        ))[outpoint] is Confirmed),
{
    let all = readable(list);
    let ours = about(all, outpoint);
    if winner(ours) is Some && crate::fold::folded(ours)->Some_0 is Confirmed {
        let w = winner(ours)->Some_0;
        let top = body_from(claims[retraction].body_cbor)->Ok_0;
        let p = |c: BodyModel| is_about(c, outpoint);
        winner_wins(ours);
        let a = choose|a: int| 0 <= a < ours.len() && ours[a] == w;
        all.lemma_filter_pred(p, a);
        all.lemma_filter_contains_rev(p, ours[a]);
        let j = choose|j: int| 0 <= j < all.len() && all[j] == w;
        what_is_read_is_listed(list, j);
        let i = choose|i: int|
            0 <= i < list.len() && body_from((#[trigger] list[i]).1.body_cbor) is Ok && body_from(
                list[i].1.body_cbor,
            )->Ok_0 == all[j];
        map_of_rising(list);
        let k = list[i].0;
        assert(map_of(list).contains_key(k) && map_of(list)[k] == list[i].1);
        assert(claims.contains_key(k) && claims[k] == list[i].1);
        assert(confirms(claims[k], outpoint));
        assert(standing(claims, k).before(standing(claims, retraction)));
        pruning_keeps_the_newest(claims, k, retraction);
        assert(map_of(list).contains_key(retraction));
        let r = choose|r: int| 0 <= r < list.len() && (#[trigger] list[r]).0 == retraction;
        assert(map_of(list)[retraction] == list[r].1);
        reads_what_is_listed(list, r);
        let t = choose|t: int| 0 <= t < all.len() && all[t] == top;
        all.lemma_filter_contains(p, t);
        let x = choose|x: int| 0 <= x < ours.len() && ours[x] == top;
        highest_as_of_wins(ours, x);
        assert(false);
    }
}

/// Whether a stored claim confirms a payment.
pub open spec fn confirms(c: SignedModel, outpoint: OutPoint) -> bool {
    body_from(c.body_cbor) matches Ok(b) && b.claim is ConfirmedOutput && is_about(b, outpoint)
}

// ---------------------------------------------------------------------------
// Policies
// ---------------------------------------------------------------------------

/// Which of the generations that hold something are adopted.
#[derive(Clone, Copy, PartialEq, Eq, Debug, Structural)]
pub enum Selection {
    /// All, folded into one.
    FoldAll,
    /// The newest.
    NewestFirstWins,
}

/// Address contracts: every generation. That would bring back what was deleted by leaving
/// it out, but nothing here is: a reorg is a retraction, and what was pruned is pruned
/// again by the same rule.
pub fn address_policy() -> (r: Selection)
    ensures
        r == Selection::FoldAll,
{
    Selection::FoldAll
}

/// Tip contracts: the newest. They hold a short window of recent blocks, of which an older
/// generation has nothing that matters.
pub fn tip_policy() -> (r: Selection)
    ensures
        r == Selection::NewestFirstWins,
{
    Selection::NewestFirstWins
}

/// The addresses that earlier code had with these parameters.
pub fn probe_ids(code_hashes: &Vec<[u8; 32]>, params: &[u8]) -> (r: Vec<[u8; 32]>)
    ensures
        r@.len() == code_hashes@.len(),
        forall|i: int|
            0 <= i < r@.len() ==> (#[trigger] r@[i])@ == blake3_of(code_hashes@[i]@ + params@),
{
    let mut r: Vec<[u8; 32]> = Vec::new();
    for i in 0..code_hashes.len()
        invariant
            r@.len() == i,
            forall|j: int|
                0 <= j < i ==> (#[trigger] r@[j])@ == blake3_of(code_hashes@[j]@ + params@),
    {
        r.push(contract_id(&code_hashes[i], params));
    }
    r
}

// ---------------------------------------------------------------------------
// Walks
// ---------------------------------------------------------------------------

/// How a walk over earlier generations ended.
#[derive(Debug)]
pub enum WalkOutcome {
    /// A generation held something.
    Recovered {
        /// The address it was found at.
        source: String,
        /// How many generations did not answer.
        unresolved: usize,
        /// Whether the walk stopped before it had asked every generation.
        truncated_fold: bool,
    },
    /// Every generation answered, and none held anything.
    SeedLocal,
    /// This many generations did not answer, and none of the others held anything.
    Indeterminate { unresolved: usize },
    /// Something else.
    Other,
}

/// What one walk found.
#[derive(Clone, Copy, Debug, PartialEq, Eq, Structural)]
pub enum Walk {
    /// Something, and it was carried forward.
    Recovered,
    /// Nothing, and everyone answered.
    NothingFound,
    /// Someone did not answer.
    Unresolved,
}

impl Walk {
    /// What a walk is worth. One that found something and left a generation out is not the
    /// whole story: what that generation holds is missing.
    pub open spec fn of(outcome: WalkOutcome) -> Walk {
        match outcome {
            WalkOutcome::Recovered { unresolved, truncated_fold, .. } => if unresolved > 0
                || truncated_fold {
                Walk::Unresolved
            } else {
                Walk::Recovered
            },
            WalkOutcome::SeedLocal => Walk::NothingFound,
            _ => Walk::Unresolved,
        }
    }

    pub fn from_outcome(outcome: &WalkOutcome) -> (r: Walk)
        ensures
            r == Walk::of(*outcome),
    {
        match outcome {
            WalkOutcome::Recovered { unresolved, truncated_fold, .. } => {
                if *unresolved > 0 || *truncated_fold {
                    Walk::Unresolved
                } else {
                    Walk::Recovered
                }
            },
            WalkOutcome::SeedLocal => Walk::NothingFound,
            _ => Walk::Unresolved,
        }
    }
}

/// What a walk's end means, in words.
pub open spec fn outcome_text(outcome: WalkOutcome) -> Seq<char> {
    match outcome {
        WalkOutcome::Recovered { source, .. } => "recovered state from predecessor "@ + source@,
        WalkOutcome::SeedLocal => "every predecessor answered, none held state; keeping local"@,
        WalkOutcome::Indeterminate { unresolved } => decimal_text(unresolved as nat)
            + " predecessor(s) did not answer; adopting nothing and retrying later"@,
        WalkOutcome::Other => "unrecognised migration outcome"@,
    }
}

pub fn describe(outcome: &WalkOutcome) -> (r: String)
    ensures
        r@ == outcome_text(*outcome),
{
    match outcome {
        WalkOutcome::Recovered { source, .. } => join("recovered state from predecessor ", source),
        WalkOutcome::SeedLocal => {
            "every predecessor answered, none held state; keeping local".to_owned()
        },
        WalkOutcome::Indeterminate { unresolved } => {
            let n = decimal(*unresolved as u64);
            join(&n, " predecessor(s) did not answer; adopting nothing and retrying later")
        },
        WalkOutcome::Other => "unrecognised migration outcome".to_owned(),
    }
}

// ---------------------------------------------------------------------------
// Pace
// ---------------------------------------------------------------------------

/// How long to wait before walking an address's generations again, in milliseconds.
pub const WALK_INTERVAL: u64 = 600_000;

/// How far apart two walks must be to count as separate evidence, in milliseconds.
pub const SEAL_SPACING: u64 = 21_600_000;

/// How many separate walks must agree before a migration is over.
pub const SEAL_AFTER_WALKS: u32 = 4;

/// For how long after the start a walk counts for nothing, in milliseconds.
pub const WARMUP: u64 = 600_000;

/// How far an address's migration has come.
#[derive(Debug)]
pub struct Pace {
    pub address: Vec<u8>,
    pub next_walk: u64,
    pub agreeing: u32,
    pub last_counted: Option<u64>,
}

/// A [`Pace`] as a mathematical value.
pub struct PaceModel {
    pub address: Seq<u8>,
    pub next_walk: u64,
    pub agreeing: u32,
    pub last_counted: Option<u64>,
}

impl Row for Pace {
    type M = PaceModel;

    type K = Seq<u8>;

    open spec fn model(&self) -> PaceModel {
        PaceModel {
            address: self.address@,
            next_walk: self.next_walk,
            agreeing: self.agreeing,
            last_counted: self.last_counted,
        }
    }

    open spec fn key(m: PaceModel) -> Seq<u8> {
        m.address
    }

    fn same_key(&self, other: &Self) -> (r: bool) {
        same_bytes(&self.address, &other.address)
    }
}

/// When to walk an address's generations, and when to stop for good.
///
/// To record a migration as over is final: what an earlier generation still holds is then
/// given up. And "not found" is weak evidence, for a node says it of contracts that exist
/// when it cannot find them. So a migration is over only after [`SEAL_AFTER_WALKS`] walks
/// have agreed, each at least [`SEAL_SPACING`] after the last that counted, and none of
/// them in the first [`WARMUP`], when a node has few peers to ask. Waiting costs one walk
/// each [`WALK_INTERVAL`].
///
/// A walk that found something counts only if what it found was carried forward: report it
/// as [`Walk::Unresolved`] if it was not.
pub struct MigrationPacer {
    addresses: Table<Pace>,
    started: u64,
}

/// Whether a walk counts, after one that counted at `last`.
pub open spec fn counts(started: u64, last: Option<u64>, walk: Walk, now: u64) -> bool {
    &&& walk != Walk::Unresolved
    &&& last is None || now - last->Some_0 >= SEAL_SPACING
    &&& now - started >= WARMUP
}

/// An address's pace after a walk.
pub open spec fn paced(started: u64, p: PaceModel, walk: Walk, now: u64) -> PaceModel {
    PaceModel {
        address: p.address,
        next_walk: (now + WALK_INTERVAL) as u64,
        agreeing: if counts(started, p.last_counted, walk, now) {
            (p.agreeing + 1) as u32
        } else {
            p.agreeing
        },
        last_counted: if counts(started, p.last_counted, walk, now) {
            Some(now)
        } else {
            p.last_counted
        },
    }
}

/// The pace of an address that was not walked yet.
pub open spec fn fresh_pace(address: Seq<u8>, now: u64) -> PaceModel {
    PaceModel { address, next_walk: now, agreeing: 0, last_counted: None }
}

impl MigrationPacer {
    #[verifier::type_invariant]
    closed spec fn none_is_sealed(&self) -> bool {
        forall|i: int|
            0 <= i < self.addresses@.len() ==> (#[trigger] self.addresses@[i]).agreeing
                < SEAL_AFTER_WALKS
    }

    /// The addresses that are being migrated.
    pub closed spec fn paces(&self) -> Seq<PaceModel> {
        self.addresses@
    }

    /// When the pacer was made.
    pub closed spec fn since(&self) -> u64 {
        self.started
    }

    /// The pace of one address.
    pub open spec fn pace(&self, address: Seq<u8>) -> Option<PaceModel> {
        first(self.paces(), |p: PaceModel| p.address == address)
    }

    pub fn new(now: u64) -> (r: Self)
        ensures
            r.paces() == Seq::<PaceModel>::empty(),
            r.since() == now,
    {
        MigrationPacer { addresses: Table::new(), started: now }
    }

    /// Whether an address is due a walk.
    pub fn due(&self, address: &[u8], now: u64) -> (r: bool)
        ensures
            r == match self.pace(address@) {
                Some(p) => now >= p.next_walk,
                None => true,
            },
    {
        let ghost wanted = |p: PaceModel| p.address == address@;
        match self.addresses.first(
            |p: &Pace| -> (b: bool)
                ensures
                    b == wanted(p.model())
            { same_bytes(&p.address, address) },
            Ghost(wanted),
        ) {
            Some(p) => now >= p.next_walk,
            None => true,
        }
    }

    /// Record a walk. `true` means that the migration is over, after which the address is
    /// forgotten.
    pub fn record(&mut self, address: &[u8], walk: Walk, now: u64) -> (r: bool)
        requires
            now <= u64::MAX - WALK_INTERVAL,
        ensures
            ({
                let before = match old(self).pace(address@) {
                    Some(p) => p,
                    None => fresh_pace(address@, now),
                };
                let after = paced(old(self).since(), before, walk, now);
                &&& before.agreeing < SEAL_AFTER_WALKS
                &&& r == (after.agreeing >= SEAL_AFTER_WALKS)
                &&& final(self).paces() == if r {
                    those(old(self).paces(), |p: PaceModel| p.address != address@)
                } else {
                    put::<Pace>(old(self).paces(), after)
                }
                &&& final(self).since() == old(self).since()
                &&& final(self).pace(address@) == if r {
                    None
                } else {
                    Some(after)
                }
            }),
            forall|other: Seq<u8>|
                other != address@ ==> #[trigger] final(self).pace(other) == old(self).pace(other),
    {
        proof {
            use_type_invariant(&*self);
        }
        let _n: usize = self.addresses.len();
        let ghost rows = self.addresses@;
        let ghost wanted = |p: PaceModel| p.address == address@;
        let (agreeing, last): (u32, Option<u64>) = match self.addresses.first(
            |p: &Pace| -> (b: bool)
                ensures
                    b == wanted(p.model())
            { same_bytes(&p.address, address) },
            Ghost(wanted),
        ) {
            Some(p) => (p.agreeing, p.last_counted),
            None => (0, None),
        };
        proof {
            crate::table::first_or_none(rows, wanted);
        }
        let separate = match last {
            Some(l) => now >= l && now - l >= SEAL_SPACING,
            None => true,
        };
        let warm = now >= self.started && now - self.started >= WARMUP;
        let counted = walk != Walk::Unresolved && separate && warm;
        let pace = Pace {
            address: copy_all(address),
            next_walk: now + WALK_INTERVAL,
            agreeing: if counted {
                agreeing + 1
            } else {
                agreeing
            },
            last_counted: if counted {
                Some(now)
            } else {
                last
            },
        };
        let sealed = pace.agreeing >= SEAL_AFTER_WALKS;
        let ghost pace_model = pace.model();
        let mut addresses: Table<Pace> = Table::new();
        std::mem::swap(&mut addresses, &mut self.addresses);
        if sealed {
            let ghost keep = |p: PaceModel| p.address != address@;
            addresses.retain(
                |p: &Pace| -> (b: bool)
                    ensures
                        b == keep(p.model())
                { !same_bytes(&p.address, address) },
                Ghost(keep),
            );
            proof {
                crate::table::those_are_of_them(rows, keep);
            }
        } else {
            addresses.put(pace);
        }
        proof {
            let after = addresses@;
            assert forall|i: int| 0 <= i < after.len() implies (#[trigger] after[i]).agreeing
                < SEAL_AFTER_WALKS by {
                if sealed {
                    assert(after.contains(after[i]));
                    assert(rows.contains(after[i]));
                }
            }
        }
        self.addresses = addresses;
        proof {
            let after = self.addresses@;
            if sealed {
                let keep = |p: PaceModel| p.address != address@;
                assert forall|i: int| 0 <= i < after.len() implies !wanted(#[trigger] after[i]) by {
                    assert(after.contains(after[i]));
                }
                nothing_is_first(after, wanted);
                assert forall|other: Seq<u8>| other != address@ implies #[trigger] self.pace(other)
                    == old(self).pace(other) by {
                    let p = |p: PaceModel| p.address == other;
                    what_is_kept_is_still_first(rows, keep, p);
                }
            } else {
                let m = pace_model;
                what_is_put_is_found::<Pace>(rows, m, wanted);
                assert forall|other: Seq<u8>| other != address@ implies #[trigger] self.pace(other)
                    == old(self).pace(other) by {
                    let p = |p: PaceModel| p.address == other;
                    putting_leaves_the_rest::<Pace>(rows, m, p);
                }
            }
        }
        sealed
    }
}

/// The pace of an address after a history of walks, each with its time.
pub open spec fn paced_through(started: u64, address: Seq<u8>, walks: Seq<(Walk, u64)>) -> PaceModel
    decreases walks.len(),
{
    if walks.len() == 0 {
        fresh_pace(address, 0)
    } else {
        paced(
            started,
            paced_through(started, address, walks.drop_last()),
            walks.last().0,
            walks.last().1,
        )
    }
}

/// Whether the walks at these places of a history are separate evidence: they rise, each
/// got all its answers, none was made in the warm-up, and each came [`SEAL_SPACING`] or more
/// after the one before it.
pub open spec fn are_separate(started: u64, walks: Seq<(Walk, u64)>, at: Seq<int>) -> bool {
    &&& forall|i: int|
        0 <= i < at.len() ==> 0 <= #[trigger] at[i] < walks.len() && walks[at[i]].0
            != Walk::Unresolved && walks[at[i]].1 - started >= WARMUP
    &&& forall|i: int, j: int|
        0 <= i < j < at.len() ==> #[trigger] at[i] < #[trigger] at[j] && walks[at[j]].1
            - walks[at[i]].1 >= SEAL_SPACING
}

/// A migration is over only on separate evidence: behind every walk that counts stands one
/// of the history that got all its answers, after the warm-up, and far enough from the
/// others. A migration that is over thus has [`SEAL_AFTER_WALKS`] of them.
pub proof fn what_counts_is_separate(started: u64, address: Seq<u8>, walks: Seq<(Walk, u64)>)
    requires
        walks.len() <= u32::MAX,
    ensures
        paced_through(started, address, walks).agreeing <= walks.len(),
        exists|at: Seq<int>| #[trigger]
            are_separate(started, walks, at) && at.len() == paced_through(
                started,
                address,
                walks,
            ).agreeing && paced_through(started, address, walks).last_counted == (if at.len()
                == 0 {
                None
            } else {
                Some(walks[at.last()].1)
            }),
    decreases walks.len(),
{
    let p = paced_through(started, address, walks);
    if walks.len() == 0 {
        assert(are_separate(started, walks, Seq::empty()));
    } else {
        let rest = walks.drop_last();
        let q = paced_through(started, address, rest);
        what_counts_is_separate(started, address, rest);
        let at = choose|at: Seq<int>| #[trigger]
            are_separate(started, rest, at) && at.len() == q.agreeing && q.last_counted == (
            if at.len() == 0 {
                None
            } else {
                Some(rest[at.last()].1)
            });
        let n = walks.len() - 1;
        let next = if counts(started, q.last_counted, walks.last().0, walks.last().1) {
            at.push(n)
        } else {
            at
        };
        assert forall|i: int| 0 <= i < next.len() implies 0 <= #[trigger] next[i] < walks.len()
            && walks[next[i]].0 != Walk::Unresolved && walks[next[i]].1 - started >= WARMUP by {
            if i < at.len() {
                assert(next[i] == at[i]);
                assert(rest[at[i]] == walks[at[i]]);
            }
        }
        assert forall|i: int, j: int| 0 <= i < j < next.len() implies #[trigger] next[i]
            < #[trigger] next[j] && walks[next[j]].1 - walks[next[i]].1 >= SEAL_SPACING by {
            assert(next[i] == at[i]);
            assert(rest[at[i]] == walks[at[i]]);
            if j < at.len() {
                assert(next[j] == at[j]);
                assert(rest[at[j]] == walks[at[j]]);
            } else {
                let last = at.len() - 1;
                assert(at.last() == at[last]);
                assert(rest[at[last]] == walks[at[last]]);
                assert(i < last ==> at[i] < at[last]);
            }
        }
        assert(are_separate(started, walks, next));
        if next.len() > 0 && next == at {
            assert(rest[at.last()] == walks[at.last()]);
        }
    }
}

/// A walk that was left without an answer ends no migration.
pub proof fn silence_ends_nothing(started: u64, p: PaceModel, now: u64)
    ensures
        paced(started, p, Walk::Unresolved, now).agreeing == p.agreeing,
{
}

} // verus!
