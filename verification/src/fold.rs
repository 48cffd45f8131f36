//! Deriving the current status of an outpoint from the claims about it.
//!
//! The fold is a function of the claims it is handed, in any order and with any
//! repetition. It is not a function of the claims that exist: whoever hands them over
//! may leave some out. So the depth a verifier may act on is bounded by what the
//! winning claim itself attests, [`OutpointStatus::confirmations_at`].

use core::cmp::Ordering;
use vstd::prelude::*;

use crate::bytes::{comes_before, lex_before, lex_irreflexive, lex_total, lex_transitive};
use crate::claims::{BodyModel, Claim, ClaimBody, ClaimModel};
use crate::records::{body_bytes, body_from, body_to_cbor};
use crate::sorted::{Copied, SortedMap};
use crate::types::{BlockAnchor, OutPoint};

verus! {

/// What a reader concludes about a single outpoint after folding all claims.
#[derive(Clone, Copy, PartialEq, Eq, Debug)]
pub enum OutpointStatus {
    /// Seen in the mempool only.
    Unconfirmed { value_sats: u64 },
    /// Included in a block, as of the winning claim's own chain position.
    Confirmed {
        value_sats: u64,
        anchor: BlockAnchor,
        /// How deeply the bridge itself said this block was buried when it signed.
        attested_depth: u32,
    },
    /// The most recent assertion says this outpoint is no longer on the chain.
    Retracted,
}

impl View for OutpointStatus {
    type V = OutpointStatus;

    open spec fn view(&self) -> OutpointStatus {
        *self
    }
}

impl Copied for OutpointStatus {
    fn copied(&self) -> (r: Self) {
        *self
    }
}

/// How many blocks a block at height `at` is deep in a chain of height `tip`: none if
/// the chain has not reached it.
pub open spec fn depth(at: u32, tip: u32) -> u32 {
    if tip < at {
        0
    } else if tip - at < u32::MAX {
        (tip - at + 1) as u32
    } else {
        u32::MAX
    }
}

fn depth_of(at: u32, tip: u32) -> (r: u32)
    ensures
        r == depth(at, tip),
        tip < at ==> r == 0,
        at <= tip && tip - at < u32::MAX ==> r == tip - at + 1,
{
    if tip < at {
        0
    } else if tip - at < u32::MAX {
        tip - at + 1
    } else {
        u32::MAX
    }
}

/// Depth a claim asserts on its own: how far its `as_of` sits above `anchor`. Both are
/// inside the bridge's signature, so no submitter chooses it.
pub fn attested_depth(anchor: &BlockAnchor, as_of: &BlockAnchor) -> (r: u32)
    ensures
        r == depth(anchor.height, as_of.height),
        as_of.height < anchor.height ==> r == 0,
        anchor.height <= as_of.height && as_of.height - anchor.height < u32::MAX ==> r
            == as_of.height - anchor.height + 1,
{
    depth_of(anchor.height, as_of.height)
}

/// Confirmations of a block against a chain tip, for display. It grows with the tip
/// that is handed in, so it decides nothing: see [`OutpointStatus::confirmations_at`].
pub fn confirmations(anchor: &BlockAnchor, tip_height: u32) -> (r: u32)
    ensures
        r == depth(anchor.height, tip_height),
        tip_height < anchor.height ==> r == 0,
        anchor.height <= tip_height && tip_height - anchor.height < u32::MAX ==> r == tip_height
            - anchor.height + 1,
{
    depth_of(anchor.height, tip_height)
}

impl OutpointStatus {
    /// Confirmations that count against a tip: as many as the tip shows, and no more
    /// than the bridge attested.
    pub open spec fn confirmed_depth(self, tip_height: u32) -> u32 {
        match self {
            OutpointStatus::Confirmed { anchor, attested_depth, .. } => if depth(
                anchor.height,
                tip_height,
            ) < attested_depth {
                depth(anchor.height, tip_height)
            } else {
                attested_depth
            },
            _ => 0,
        }
    }

    /// Confirmations a verifier may act on, against a chain tip it holds.
    pub fn confirmations_at(&self, tip_height: u32) -> (r: u32)
        ensures
            r == self.confirmed_depth(tip_height),
    {
        match self {
            OutpointStatus::Confirmed { anchor, attested_depth, .. } => {
                let shown: u32 = confirmations(anchor, tip_height);
                if shown < *attested_depth {
                    shown
                } else {
                    *attested_depth
                }
            },
            OutpointStatus::Unconfirmed { .. } => 0,
            OutpointStatus::Retracted => 0,
        }
    }

    /// Value if this outpoint is confirmed to at least `min_confirmations`.
    pub fn confirmed_value_at(&self, tip_height: u32, min_confirmations: u32) -> (r: Option<u64>)
        ensures
            r == (match *self {
                OutpointStatus::Confirmed { value_sats, .. } => if self.confirmed_depth(tip_height)
                    >= min_confirmations {
                    Some(value_sats)
                } else {
                    None
                },
                _ => None,
            }),
    {
        match self {
            OutpointStatus::Confirmed { value_sats, .. } => {
                if self.confirmations_at(tip_height) >= min_confirmations {
                    Some(*value_sats)
                } else {
                    None
                }
            },
            _ => None,
        }
    }
}

// ---------------------------------------------------------------------------
// Precedence
// ---------------------------------------------------------------------------

/// How much a claim concedes: the claim that grants a payee least ranks highest.
pub open spec fn rank(c: ClaimModel) -> u8 {
    match c {
        ClaimModel::Retracted { .. } => 3,
        ClaimModel::MempoolOutput { .. } => 2,
        ClaimModel::ConfirmedOutput { .. } => 1,
        ClaimModel::ScannedTo => 0,
    }
}

/// How little an amount grants: less is higher.
pub open spec fn thrift(c: ClaimModel) -> int {
    match c {
        ClaimModel::MempoolOutput { value_sats, .. } => -(value_sats as int),
        ClaimModel::ConfirmedOutput { value_sats, .. } => -(value_sats as int),
        _ => 0,
    }
}

/// How shallow a confirmation is: a block nearer the tip is higher.
pub open spec fn shallowness(c: ClaimModel) -> int {
    match c {
        ClaimModel::ConfirmedOutput { anchor, .. } => anchor.height as int,
        _ => 0,
    }
}

/// Whether `a` decides over `b`: the later chain position, then the one that concedes
/// more, then the smaller amount, then the shallower block, then the greater bytes.
pub open spec fn outranks(a: BodyModel, b: BodyModel) -> bool {
    if a.as_of.height != b.as_of.height {
        a.as_of.height > b.as_of.height
    } else if rank(a.claim) != rank(b.claim) {
        rank(a.claim) > rank(b.claim)
    } else if thrift(a.claim) != thrift(b.claim) {
        thrift(a.claim) > thrift(b.claim)
    } else if shallowness(a.claim) != shallowness(b.claim) {
        shallowness(a.claim) > shallowness(b.claim)
    } else {
        lex_before(body_bytes(b), body_bytes(a))
    }
}

/// No claim decides over itself.
pub proof fn precedence_is_irreflexive(a: BodyModel)
    ensures
        !outranks(a, a),
{
    lex_irreflexive(body_bytes(a));
}

/// Of two claims at most one decides over the other.
pub proof fn precedence_is_asymmetric(a: BodyModel, b: BodyModel)
    requires
        outranks(a, b),
    ensures
        !outranks(b, a),
{
    if lex_before(body_bytes(b), body_bytes(a)) && lex_before(body_bytes(a), body_bytes(b)) {
        lex_transitive(body_bytes(a), body_bytes(b), body_bytes(a));
        lex_irreflexive(body_bytes(a));
    }
}

/// What decides over a claim that decides over a third decides over the third.
pub proof fn precedence_is_transitive(a: BodyModel, b: BodyModel, c: BodyModel)
    requires
        outranks(a, b),
        outranks(b, c),
    ensures
        outranks(a, c),
{
    if lex_before(body_bytes(c), body_bytes(b)) && lex_before(body_bytes(b), body_bytes(a)) {
        lex_transitive(body_bytes(c), body_bytes(b), body_bytes(a));
    }
}

/// Two claims neither of which decides over the other have the same bytes.
pub proof fn precedence_is_total(a: BodyModel, b: BodyModel)
    requires
        !outranks(a, b),
        !outranks(b, a),
    ensures
        body_bytes(a) == body_bytes(b),
{
    lex_total(body_bytes(a), body_bytes(b));
}

pub fn concession_rank(claim: &Claim) -> (r: u8)
    ensures
        r == rank(claim@),
{
    match claim {
        Claim::Retracted { .. } => 3,
        Claim::MempoolOutput { .. } => 2,
        Claim::ConfirmedOutput { .. } => 1,
        Claim::ScannedTo => 0,
    }
}

/// What the last resort decides: the bytes the claims are written as.
fn bytes_precedence(a: &ClaimBody, b: &ClaimBody) -> (r: Ordering)
    ensures
        r is Greater <==> lex_before(body_bytes(b@), body_bytes(a@)),
        r is Less <==> lex_before(body_bytes(a@), body_bytes(b@)),
{
    let x = match body_to_cbor(a) {
        Ok(x) => x,
        Err(_) => Vec::new(),
    };
    let y = match body_to_cbor(b) {
        Ok(y) => y,
        Err(_) => Vec::new(),
    };
    proof {
        if lex_before(x@, y@) && lex_before(y@, x@) {
            lex_transitive(x@, y@, x@);
            lex_irreflexive(x@);
        }
    }
    if comes_before(&y, &x) {
        Ordering::Greater
    } else if comes_before(&x, &y) {
        Ordering::Less
    } else {
        Ordering::Equal
    }
}

/// The total order the fold takes its winner from: greater wins.
pub fn claim_precedence(a: &ClaimBody, b: &ClaimBody) -> (r: Ordering)
    ensures
        r is Greater <==> outranks(a@, b@),
        r is Less <==> outranks(b@, a@),
{
    proof {
        if outranks(a@, b@) {
            precedence_is_asymmetric(a@, b@);
        }
    }
    if a.as_of.height != b.as_of.height {
        return if a.as_of.height > b.as_of.height {
            Ordering::Greater
        } else {
            Ordering::Less
        };
    }
    let ra: u8 = concession_rank(&a.claim);
    let rb: u8 = concession_rank(&b.claim);
    if ra != rb {
        return if ra > rb {
            Ordering::Greater
        } else {
            Ordering::Less
        };
    }
    match (&a.claim, &b.claim) {
        (
            Claim::ConfirmedOutput { value_sats: av, anchor: aa, .. },
            Claim::ConfirmedOutput { value_sats: bv, anchor: ba, .. },
        ) => {
            if *av != *bv {
                if *av < *bv {
                    Ordering::Greater
                } else {
                    Ordering::Less
                }
            } else if aa.height != ba.height {
                if aa.height > ba.height {
                    Ordering::Greater
                } else {
                    Ordering::Less
                }
            } else {
                bytes_precedence(a, b)
            }
        },
        (
            Claim::MempoolOutput { value_sats: av, .. },
            Claim::MempoolOutput { value_sats: bv, .. },
        ) => {
            if *av != *bv {
                if *av < *bv {
                    Ordering::Greater
                } else {
                    Ordering::Less
                }
            } else {
                bytes_precedence(a, b)
            }
        },
        _ => bytes_precedence(a, b),
    }
}

/// Whether `a` wins over `b`.
fn decides_over(a: &ClaimBody, b: &ClaimBody) -> (r: bool)
    ensures
        r == outranks(a@, b@),
{
    match claim_precedence(a, b) {
        Ordering::Greater => true,
        _ => false,
    }
}

// ---------------------------------------------------------------------------
// The fold
// ---------------------------------------------------------------------------

/// The claim that stands after one more has been looked at.
pub open spec fn better(best: Option<BodyModel>, c: BodyModel) -> Option<BodyModel> {
    if c.claim is ScannedTo {
        best
    } else {
        match best {
            None => Some(c),
            Some(b) => if outranks(c, b) {
                Some(c)
            } else {
                Some(b)
            },
        }
    }
}

/// The claim that decides, watermarks aside.
pub open spec fn winner(claims: Seq<BodyModel>) -> Option<BodyModel>
    decreases claims.len(),
{
    if claims.len() == 0 {
        None
    } else {
        better(winner(claims.drop_last()), claims.last())
    }
}

/// What a claim says of its outpoint.
pub open spec fn status_of(b: BodyModel) -> Option<OutpointStatus> {
    match b.claim {
        ClaimModel::MempoolOutput { value_sats, .. } => Some(
            OutpointStatus::Unconfirmed { value_sats },
        ),
        ClaimModel::ConfirmedOutput { value_sats, anchor, .. } => Some(
            OutpointStatus::Confirmed {
                value_sats,
                anchor,
                attested_depth: depth(anchor.height, b.as_of.height),
            },
        ),
        ClaimModel::Retracted { .. } => Some(OutpointStatus::Retracted),
        ClaimModel::ScannedTo => None,
    }
}

pub open spec fn folded(claims: Seq<BodyModel>) -> Option<OutpointStatus> {
    match winner(claims) {
        Some(b) => status_of(b),
        None => None,
    }
}

pub open spec fn bodies(claims: Seq<ClaimBody>) -> Seq<BodyModel> {
    claims.map_values(|c: ClaimBody| c@)
}

/// What a claim says of its outpoint.
pub fn claim_status(c: &ClaimBody) -> (r: Option<OutpointStatus>)
    ensures
        r == status_of(c@),
{
    match &c.claim {
        Claim::MempoolOutput { value_sats, .. } => Some(
            OutpointStatus::Unconfirmed { value_sats: *value_sats },
        ),
        Claim::ConfirmedOutput { value_sats, anchor, .. } => Some(
            OutpointStatus::Confirmed {
                value_sats: *value_sats,
                anchor: *anchor,
                attested_depth: attested_depth(anchor, &c.as_of),
            },
        ),
        Claim::Retracted { .. } => Some(OutpointStatus::Retracted),
        Claim::ScannedTo => None,
    }
}

/// Fold every claim about one outpoint into a single current status: the highest
/// `as_of` wins, and a contradiction resolves to whichever claim grants least.
pub fn fold_outpoint_status(claims: &[ClaimBody]) -> (r: Option<OutpointStatus>)
    ensures
        r == folded(bodies(claims@)),
{
    let ghost all = bodies(claims@);
    let mut best: Option<usize> = None;
    for i in 0..claims.len()
        invariant
            all == bodies(claims@),
            match best {
                Some(k) => k < i && winner(all.take(i as int)) == Some(all[k as int]),
                None => winner(all.take(i as int)) is None,
            },
    {
        proof {
            assert(all.take(i + 1).drop_last() =~= all.take(i as int));
            assert(all.take(i + 1).last() == claims@[i as int]@);
        }
        let c = &claims[i];
        let wins = if c.claim.is_watermark() {
            false
        } else {
            match best {
                None => true,
                Some(k) => decides_over(c, &claims[k]),
            }
        };
        if wins {
            best = Some(i);
        }
    }
    assert(all.take(all.len() as int) =~= all);
    match best {
        Some(k) => claim_status(&claims[k]),
        None => None,
    }
}

/// The winner is one of the claims, is no watermark, and nothing decides over it. There
/// is one unless every claim is a watermark.
pub proof fn winner_wins(claims: Seq<BodyModel>)
    ensures
        winner(claims) is None <==> forall|i: int|
            0 <= i < claims.len() ==> (#[trigger] claims[i]).claim is ScannedTo,
        winner(claims) matches Some(w) ==> {
            &&& claims.contains(w)
            &&& !(w.claim is ScannedTo)
            &&& forall|i: int|
                0 <= i < claims.len() && !((#[trigger] claims[i]).claim is ScannedTo)
                    ==> !outranks(claims[i], w)
        },
    decreases claims.len(),
{
    if claims.len() > 0 {
        let rest = claims.drop_last();
        let c = claims.last();
        winner_wins(rest);
        assert(claims[claims.len() - 1] == c);
        assert forall|i: int| 0 <= i < rest.len() implies rest[i] == claims[i] by {}
        if winner(rest) is Some && winner(claims) == winner(rest) {
            let w = winner(rest)->Some_0;
            let i = choose|i: int| 0 <= i < rest.len() && rest[i] == w;
            assert(claims[i] == w);
            assert forall|i: int|
                0 <= i < claims.len() && !((#[trigger] claims[i]).claim is ScannedTo) implies !outranks(
                claims[i],
                w,
            ) by {
                if i < rest.len() {
                    assert(rest[i] == claims[i]);
                }
            }
        }
        if winner(claims) == Some(c) && !(c.claim is ScannedTo) {
            assert forall|i: int|
                0 <= i < claims.len() && !((#[trigger] claims[i]).claim is ScannedTo) implies !outranks(
                claims[i],
                c,
            ) by {
                if i < rest.len() {
                    assert(rest[i] == claims[i]);
                    if winner(rest) is Some && outranks(claims[i], c) {
                        let w = winner(rest)->Some_0;
                        if outranks(c, w) {
                            precedence_is_transitive(claims[i], c, w);
                        } else {
                            precedence_is_irreflexive(c);
                        }
                    }
                } else {
                    precedence_is_irreflexive(c);
                }
            }
        }
    }
}

/// A claim is what its own bytes hold. It is so of every claim that
/// [`body_to_cbor`] writes.
pub open spec fn faithful(b: BodyModel) -> bool {
    body_from(body_bytes(b)) is Ok && body_from(body_bytes(b))->Ok_0 == b
}

/// The fold depends on which claims it is handed, and on nothing else: not on their
/// order, and not on how often one occurs.
pub proof fn fold_is_a_function_of_the_set(a: Seq<BodyModel>, b: Seq<BodyModel>)
    requires
        forall|c: BodyModel| a.contains(c) <==> b.contains(c),
        forall|c: BodyModel| #[trigger] a.contains(c) ==> faithful(c),
    ensures
        winner(a) == winner(b),
        folded(a) == folded(b),
{
    winner_wins(a);
    winner_wins(b);
    if winner(a) is Some {
        let x = winner(a)->Some_0;
        assert(b.contains(x));
        let i = choose|i: int| 0 <= i < b.len() && b[i] == x;
        assert(!(b[i].claim is ScannedTo));
        let y = winner(b)->Some_0;
        assert(a.contains(y));
        let j = choose|j: int| 0 <= j < a.len() && a[j] == y;
        assert(!outranks(b[i], y));
        assert(!outranks(a[j], x));
        precedence_is_total(x, y);
        assert(faithful(x) && faithful(y));
    } else {
        if winner(b) is Some {
            let y = winner(b)->Some_0;
            assert(a.contains(y));
            let j = choose|j: int| 0 <= j < a.len() && a[j] == y;
            assert(a[j].claim is ScannedTo);
        }
    }
}

/// The latest chain position wins.
pub proof fn highest_as_of_wins(claims: Seq<BodyModel>, i: int)
    requires
        0 <= i < claims.len(),
        !(claims[i].claim is ScannedTo),
    ensures
        winner(claims) is Some,
        winner(claims)->Some_0.as_of.height >= claims[i].as_of.height,
{
    winner_wins(claims);
}

/// At one chain position a retraction beats everything, whatever else is claimed there.
pub proof fn a_retraction_at_the_top_decides(claims: Seq<BodyModel>, i: int)
    requires
        0 <= i < claims.len(),
        claims[i].claim is Retracted,
        forall|j: int|
            0 <= j < claims.len() && !((#[trigger] claims[j]).claim is ScannedTo)
                ==> claims[j].as_of.height <= claims[i].as_of.height,
    ensures
        folded(claims) == Some(OutpointStatus::Retracted),
{
    winner_wins(claims);
    let w = winner(claims)->Some_0;
    let j = choose|j: int| 0 <= j < claims.len() && claims[j] == w;
    assert(claims[j].as_of.height <= claims[i].as_of.height);
    assert(!outranks(claims[i], w));
}

/// At one chain position the smallest of contradictory confirmed amounts is believed,
/// and no confirmation is believed over a mempool sighting.
pub proof fn contradictions_resolve_conservatively(claims: Seq<BodyModel>, i: int)
    requires
        0 <= i < claims.len(),
        !(claims[i].claim is ScannedTo),
        folded(claims) matches Some(OutpointStatus::Confirmed { .. }),
        winner(claims)->Some_0.as_of.height == claims[i].as_of.height,
    ensures
        claims[i].claim is ConfirmedOutput,
        winner(claims)->Some_0.claim->ConfirmedOutput_value_sats
            <= claims[i].claim->ConfirmedOutput_value_sats,
{
    winner_wins(claims);
    assert(!outranks(claims[i], winner(claims)->Some_0));
}

/// Leaving claims out buys no depth: whatever tip a submitter shows, the depth that
/// counts is one that some claim it hands over was signed with.
pub proof fn omission_buys_no_depth(claims: Seq<BodyModel>, tip_height: u32, min: u32)
    requires
        folded(claims) is Some,
        min > 0,
        folded(claims)->Some_0.confirmed_depth(tip_height) >= min,
    ensures
        exists|i: int|
            0 <= i < claims.len() && (#[trigger] claims[i]).claim is ConfirmedOutput && depth(
                claims[i].claim->ConfirmedOutput_anchor.height,
                claims[i].as_of.height,
            ) >= min,
{
    winner_wins(claims);
    let w = winner(claims)->Some_0;
    let i = choose|i: int| 0 <= i < claims.len() && claims[i] == w;
    assert(claims[i].claim is ConfirmedOutput);
}

// ---------------------------------------------------------------------------
// By outpoint
// ---------------------------------------------------------------------------

pub open spec fn is_about(c: BodyModel, op: OutPoint) -> bool {
    c.claim.outpoint() == Some(op)
}

/// The claims about one outpoint, in the order they are handed over.
pub open spec fn about(claims: Seq<BodyModel>, op: OutPoint) -> Seq<BodyModel> {
    claims.filter(|c: BodyModel| is_about(c, op))
}

/// The status of every outpoint that some claim is about.
pub open spec fn statuses(claims: Seq<BodyModel>) -> Map<OutPoint, OutpointStatus> {
    Map::new(
        |op: OutPoint| winner(about(claims, op)) is Some,
        |op: OutPoint| folded(about(claims, op))->Some_0,
    )
}

/// One more claim is one more about its own outpoint, and about no other.
pub proof fn about_push(claims: Seq<BodyModel>, c: BodyModel, op: OutPoint)
    ensures
        about(claims.push(c), op) == if is_about(c, op) {
            about(claims, op).push(c)
        } else {
            about(claims, op)
        },
{
    reveal(Seq::filter);
    assert(claims.push(c).drop_last() =~= claims);
}

/// One more claim changes the winner of its own outpoint and of no other.
proof fn winner_push(claims: Seq<BodyModel>, c: BodyModel, op: OutPoint)
    ensures
        winner(about(claims.push(c), op)) == if is_about(c, op) {
            better(winner(about(claims, op)), c)
        } else {
            winner(about(claims, op))
        },
{
    about_push(claims, c, op);
    if is_about(c, op) {
        assert(about(claims, op).push(c).drop_last() =~= about(claims, op));
    }
}

/// Group a pile of claims by outpoint and fold each group.
pub fn fold_claims_by_outpoint(claims: &[ClaimBody]) -> (r: SortedMap<OutPoint, OutpointStatus>)
    ensures
        r@ == statuses(bodies(claims@)),
        r.wf(),
{
    let ghost all = bodies(claims@);
    let mut best: SortedMap<OutPoint, usize> = SortedMap::new();
    proof {
        reveal(Seq::filter);
        assert(all.take(0) =~= Seq::<BodyModel>::empty());
    }
    for i in 0..claims.len()
        invariant
            all == bodies(claims@),
            forall|op: OutPoint| #[trigger]
                best@.contains_key(op) <==> winner(about(all.take(i as int), op)) is Some,
            forall|op: OutPoint| #[trigger]
                best@.contains_key(op) ==> best@[op] < i && winner(about(all.take(i as int), op))
                    == Some(all[best@[op] as int]),
    {
        let ghost c0 = claims@[i as int]@;
        let ghost was = best@;
        proof {
            assert(all.take(i + 1) =~= all.take(i as int).push(c0));
            assert forall|op: OutPoint| true implies #[trigger] winner(about(all.take(i + 1), op))
                == if is_about(c0, op) {
                better(winner(about(all.take(i as int), op)), c0)
            } else {
                winner(about(all.take(i as int), op))
            } by {
                winner_push(all.take(i as int), c0, op);
            }
        }
        let c = &claims[i];
        match c.claim.outpoint() {
            Some(op) => {
                let wins = match best.get(&op) {
                    None => true,
                    Some(k) => decides_over(c, &claims[*k]),
                };
                if wins {
                    best.insert(op, i);
                }
                assert forall|q: OutPoint| #[trigger] best@.contains_key(q) <==> winner(
                    about(all.take(i + 1), q),
                ) is Some by {
                    assert(was.contains_key(q) <==> winner(about(all.take(i as int), q)) is Some);
                }
                assert forall|q: OutPoint| #[trigger] best@.contains_key(q) implies best@[q] < i + 1
                    && winner(about(all.take(i + 1), q)) == Some(all[best@[q] as int]) by {
                    assert(was.contains_key(q) <==> winner(about(all.take(i as int), q)) is Some);
                }
            },
            None => {
                assert forall|q: OutPoint| #[trigger] best@.contains_key(q) <==> winner(
                    about(all.take(i + 1), q),
                ) is Some by {}
            },
        }
    }
    assert(all.take(all.len() as int) =~= all);
    let mut r: SortedMap<OutPoint, OutpointStatus> = SortedMap::new();
    let n: usize = best.len();
    let ghost list = best.list();
    for i in 0..n
        invariant
            all == bodies(claims@),
            list == best.list(),
            n == list.len(),
            best.wf(),
            forall|op: OutPoint| #[trigger]
                best@.contains_key(op) <==> winner(about(all, op)) is Some,
            forall|op: OutPoint| #[trigger]
                best@.contains_key(op) ==> best@[op] < claims@.len() && winner(about(all, op))
                    == Some(all[best@[op] as int]),
            forall|op: OutPoint| #[trigger]
                r@.contains_key(op) <==> exists|j: int| 0 <= j < i && (#[trigger] list[j]).0 == op,
            forall|op: OutPoint| #[trigger]
                r@.contains_key(op) ==> Some(r@[op]) == folded(about(all, op)),
    {
        let (op, k) = best.at(i);
        assert(best@.contains_key(list[i as int].0));
        let ghost was = r@;
        proof {
            winner_wins(about(all, *op));
        }
        match claim_status(&claims[*k]) {
            Some(s) => {
                r.insert(*op, s);
                assert forall|q: OutPoint| #[trigger] r@.contains_key(q) <==> exists|j: int|
                    0 <= j < i + 1 && (#[trigger] list[j]).0 == q by {
                    assert(was.contains_key(q) <==> exists|j: int|
                        0 <= j < i && (#[trigger] list[j]).0 == q);
                    if q == *op {
                        assert(list[i as int].0 == q);
                    }
                }
            },
            None => {},
        }
    }
    assert forall|op: OutPoint| r@.contains_key(op) == statuses(all).contains_key(op) by {
        if best@.contains_key(op) {
            let j = choose|j: int| 0 <= j < list.len() && (#[trigger] list[j]).0 == op;
            assert(list[j].0 == op);
        }
        if r@.contains_key(op) {
            let j = choose|j: int| 0 <= j < n && (#[trigger] list[j]).0 == op;
            assert(best@.contains_key(list[j].0));
        }
    }
    assert(r@ =~= statuses(all));
    let _ = r.len();
    r
}

} // verus!
