//! What a reader of claims can rely on.
//!
//! A reader folds claims to the status of a payment and asks how deep it is. These laws say
//! what counts as deep, how that changes as the chain grows, and which claim is believed.

use vstd::prelude::*;

use crate::claims::{BodyModel, ClaimModel};
use crate::fold::{
    about, depth, folded, is_about, outranks, rank, status_of, statuses, winner, winner_wins,
    OutpointStatus,
};
use crate::records::body_bytes;
use crate::types::OutPoint;

verus! {

// ---------------------------------------------------------------------------
// Depth
// ---------------------------------------------------------------------------

/// A block has one confirmation once the chain reaches it, none before, and one more with
/// each block that is built on it.
pub proof fn each_block_is_one_more_confirmation(at: u32, tip: u32)
    requires
        tip < u32::MAX,
    ensures
        depth(at, at) == 1,
        tip < at ==> depth(at, tip) == 0,
        at <= tip && tip - at + 1 < u32::MAX ==> depth(at, (tip + 1) as u32) == depth(at, tip) + 1,
{
}

/// A block has as many confirmations as there are blocks from it to the tip, itself
/// counted.
pub proof fn confirmations_count_the_blocks(at: u32, tip: u32)
    requires
        at <= tip,
        0 < at,
    ensures
        depth(at, tip) == tip - at + 1,
{
}

/// Confirmations never fall as the tip rises, and a lower block has no fewer.
pub proof fn confirmations_never_fall(at: u32, tip: u32, below: u32, later: u32)
    requires
        below <= at,
        tip <= later,
    ensures
        depth(at, tip) <= depth(below, later),
{
}

/// What counts of a confirmed payment is the smaller of what the tip shows and what the
/// bridge attested; nothing counts of any other.
pub proof fn the_smaller_depth_counts(s: OutpointStatus, tip: u32)
    ensures
        match s {
            OutpointStatus::Confirmed { anchor, attested_depth, .. } => {
                &&& s.confirmed_depth(tip) <= attested_depth
                &&& s.confirmed_depth(tip) <= depth(anchor.height, tip)
                &&& s.confirmed_depth(tip) == attested_depth || s.confirmed_depth(tip) == depth(
                    anchor.height,
                    tip,
                )
            },
            _ => s.confirmed_depth(tip) == 0,
        },
{
}

/// A payment that is deep enough at one tip is deep enough at every later one.
pub proof fn what_is_deep_enough_stays_so(s: OutpointStatus, tip: u32, later: u32, required: u32)
    requires
        tip <= later,
        s.confirmed_depth(tip) >= required,
    ensures
        s.confirmed_depth(later) >= required,
{
}

/// A confirmation counts in full at the tip it was signed as of, and at every later one.
pub proof fn a_confirmation_counts_in_full(b: BodyModel, tip: u32)
    requires
        b.claim is ConfirmedOutput,
        tip >= b.as_of.height,
    ensures
        status_of(b)->Some_0.confirmed_depth(tip) == depth(
            b.claim->ConfirmedOutput_anchor.height,
            b.as_of.height,
        ),
{
}

// ---------------------------------------------------------------------------
// What claims are about
// ---------------------------------------------------------------------------

/// A claim is about the outpoint that it names, and about nothing if it names none; it names
/// an amount exactly if it says that there is one.
pub proof fn a_claim_is_about_what_it_names(c: ClaimModel)
    ensures
        c matches ClaimModel::MempoolOutput { outpoint, value_sats } ==> c.outpoint() == Some(
            outpoint,
        ) && c.value_sats() == Some(value_sats),
        c matches ClaimModel::ConfirmedOutput { outpoint, value_sats, .. } ==> c.outpoint() == Some(
            outpoint,
        ) && c.value_sats() == Some(value_sats),
        c matches ClaimModel::Retracted { outpoint } ==> c.outpoint() == Some(outpoint)
            && c.value_sats() is None,
        c is ScannedTo ==> c.outpoint() is None && c.value_sats() is None,
{
}

// ---------------------------------------------------------------------------
// Which claim is believed
// ---------------------------------------------------------------------------

/// A claim made later in the chain decides, whatever the two say.
pub proof fn the_later_claim_decides(a: BodyModel, b: BodyModel)
    requires
        a.as_of.height > b.as_of.height,
    ensures
        outranks(a, b),
        !outranks(b, a),
{
}

/// At one height a retraction decides over a sighting, a sighting over a confirmation, and
/// each of them over a watermark.
pub proof fn the_claim_that_concedes_more_decides(a: BodyModel, b: BodyModel)
    requires
        a.as_of.height == b.as_of.height,
        match (a.claim, b.claim) {
            (ClaimModel::Retracted { .. }, ClaimModel::Retracted { .. }) => false,
            (ClaimModel::Retracted { .. }, _) => true,
            (ClaimModel::MempoolOutput { .. }, ClaimModel::ConfirmedOutput { .. }) => true,
            (ClaimModel::MempoolOutput { .. }, ClaimModel::ScannedTo) => true,
            (ClaimModel::ConfirmedOutput { .. }, ClaimModel::ScannedTo) => true,
            _ => false,
        },
    ensures
        outranks(a, b),
        !outranks(b, a),
        rank(a.claim) > rank(b.claim),
{
}

/// Of two sightings at one height the one of less decides.
pub proof fn the_smaller_sighting_decides(a: BodyModel, b: BodyModel)
    requires
        a.as_of.height == b.as_of.height,
        a.claim is MempoolOutput,
        b.claim is MempoolOutput,
        a.claim->MempoolOutput_value_sats < b.claim->MempoolOutput_value_sats,
    ensures
        outranks(a, b),
        !outranks(b, a),
{
}

/// Of two confirmations at one height the one of less decides, and of two of one amount the
/// one in the higher block.
pub proof fn the_smaller_then_the_shallower_confirmation_decides(a: BodyModel, b: BodyModel)
    requires
        a.as_of.height == b.as_of.height,
        a.claim is ConfirmedOutput,
        b.claim is ConfirmedOutput,
        a.claim->ConfirmedOutput_value_sats < b.claim->ConfirmedOutput_value_sats || (
        a.claim->ConfirmedOutput_value_sats == b.claim->ConfirmedOutput_value_sats
            && a.claim->ConfirmedOutput_anchor.height > b.claim->ConfirmedOutput_anchor.height),
    ensures
        outranks(a, b),
        !outranks(b, a),
{
}

/// Where nothing else tells two claims apart, the one whose bytes come later decides.
pub proof fn the_greater_bytes_decide_last(a: BodyModel, b: BodyModel)
    requires
        a.as_of.height == b.as_of.height,
        match (a.claim, b.claim) {
            (ClaimModel::Retracted { .. }, ClaimModel::Retracted { .. }) => true,
            (ClaimModel::ScannedTo, ClaimModel::ScannedTo) => true,
            (
                ClaimModel::MempoolOutput { value_sats: x, .. },
                ClaimModel::MempoolOutput { value_sats: y, .. },
            ) => x == y,
            (
                ClaimModel::ConfirmedOutput { value_sats: x, anchor: s, .. },
                ClaimModel::ConfirmedOutput { value_sats: y, anchor: t, .. },
            ) => x == y && s.height == t.height,
            _ => false,
        },
    ensures
        outranks(a, b) <==> crate::bytes::lex_before(body_bytes(b), body_bytes(a)),
{
}

/// A claim says of its outpoint what it claims: that it was seen, or that it stands in a
/// block as deep as the claim's own height shows, or that it is gone. A watermark says
/// nothing of any.
pub proof fn a_claim_says_what_it_claims(b: BodyModel)
    ensures
        b.claim matches ClaimModel::MempoolOutput { value_sats, .. } ==> status_of(b) == Some(
            OutpointStatus::Unconfirmed { value_sats },
        ),
        b.claim is Retracted ==> status_of(b) == Some(OutpointStatus::Retracted),
        b.claim is ScannedTo ==> status_of(b) is None,
        b.claim matches ClaimModel::ConfirmedOutput { value_sats, anchor, .. } ==> {
            &&& status_of(b) matches Some(
                OutpointStatus::Confirmed { value_sats: v, anchor: a, attested_depth: d },
            )
            &&& v == value_sats
            &&& a == anchor
            &&& b.as_of.height < anchor.height ==> d == 0
            &&& anchor.height <= b.as_of.height && b.as_of.height - anchor.height < u32::MAX ==> d
                == b.as_of.height - anchor.height + 1
        },
{
}

/// What is about an outpoint is one of the claims.
proof fn about_is_of_them(claims: Seq<BodyModel>, op: OutPoint, j: int)
    requires
        0 <= j < about(claims, op).len(),
    ensures
        claims.contains(about(claims, op)[j]),
        is_about(about(claims, op)[j], op),
    decreases claims.len(),
{
    reveal(Seq::filter);
    if claims.len() > 0 {
        let rest = claims.drop_last();
        if j < about(rest, op).len() {
            about_is_of_them(rest, op, j);
            let i = choose|i: int| 0 <= i < rest.len() && rest[i] == about(rest, op)[j];
            assert(claims[i] == about(claims, op)[j]);
        } else {
            assert(claims[claims.len() - 1] == about(claims, op)[j]);
        }
    }
}

/// The status of an outpoint is what the deciding one of the claims about it says: a claim
/// about it that nothing else about it decides over.
pub proof fn the_deciding_claim_gives_the_status(claims: Seq<BodyModel>, op: OutPoint, w: BodyModel)
    requires
        claims.contains(w),
        w.claim.outpoint() == Some(op),
        forall|i: int|
            0 <= i < claims.len() && (#[trigger] claims[i]).claim.outpoint() == Some(op)
                && claims[i] != w ==> outranks(w, claims[i]),
    ensures
        statuses(claims).contains_key(op),
        Some(statuses(claims)[op]) == status_of(w),
{
    let some = about(claims, op);
    let p = |c: BodyModel| is_about(c, op);
    assert forall|i: int| 0 <= i < claims.len() && p(claims[i]) implies #[trigger] some.contains(
        claims[i],
    ) by {
        claims.lemma_filter_contains(p, i);
    }
    let k = choose|k: int| 0 <= k < claims.len() && claims[k] == w;
    assert(p(claims[k]));
    assert(some.contains(w));
    winner_wins(some);
    let at = choose|j: int| 0 <= j < some.len() && some[j] == w;
    assert(!(some[at].claim is ScannedTo));
    let v = winner(some)->Some_0;
    let j = choose|j: int| 0 <= j < some.len() && some[j] == v;
    about_is_of_them(claims, op, j);
    let i = choose|i: int| 0 <= i < claims.len() && claims[i] == v;
    if v != w {
        assert(outranks(w, claims[i]));
        assert(!outranks(some[at], v));
    }
}

/// An outpoint has a status exactly when some claim is about it, and its status is what one
/// of those claims says.
pub proof fn every_outpoint_that_is_claimed_has_a_status(claims: Seq<BodyModel>, op: OutPoint)
    ensures
        statuses(claims).contains_key(op) <==> exists|i: int|
            0 <= i < claims.len() && (#[trigger] claims[i]).claim.outpoint() == Some(op),
        statuses(claims).contains_key(op) ==> exists|i: int|
            0 <= i < claims.len() && (#[trigger] claims[i]).claim.outpoint() == Some(op) && Some(
                statuses(claims)[op],
            ) == status_of(claims[i]),
{
    let some = about(claims, op);
    let p = |c: BodyModel| is_about(c, op);
    assert forall|i: int| 0 <= i < claims.len() && p(claims[i]) implies #[trigger] some.contains(
        claims[i],
    ) by {
        claims.lemma_filter_contains(p, i);
    }
    winner_wins(some);
    if statuses(claims).contains_key(op) {
        let v = winner(some)->Some_0;
        let j = choose|j: int| 0 <= j < some.len() && some[j] == v;
        about_is_of_them(claims, op, j);
        let i = choose|i: int| 0 <= i < claims.len() && claims[i] == v;
        assert(claims[i].claim.outpoint() == Some(op));
    }
    if exists|i: int|
        0 <= i < claims.len() && (#[trigger] claims[i]).claim.outpoint() == Some(op) {
        let i = choose|i: int|
            0 <= i < claims.len() && (#[trigger] claims[i]).claim.outpoint() == Some(op);
        assert(p(claims[i]));
        assert(some.contains(claims[i]));
        let at = choose|j: int| 0 <= j < some.len() && some[j] == claims[i];
        assert(!(some[at].claim is ScannedTo));
    }
}

/// The fold of claims is what one of them says that none of the others decides over, and
/// there is none exactly where all are watermarks.
pub proof fn a_fold_is_what_a_deciding_claim_says(claims: Seq<BodyModel>)
    ensures
        folded(claims) is None <==> forall|i: int|
            0 <= i < claims.len() ==> (#[trigger] claims[i]).claim is ScannedTo,
        folded(claims) is Some ==> exists|i: int|
            0 <= i < claims.len() && status_of(#[trigger] claims[i]) == folded(claims)
                && forall|j: int|
                0 <= j < claims.len() && !((#[trigger] claims[j]).claim is ScannedTo) ==> !outranks(
                    claims[j],
                    claims[i],
                ),
{
    winner_wins(claims);
    if winner(claims) is Some {
        let w = winner(claims)->Some_0;
        let i = choose|i: int| 0 <= i < claims.len() && claims[i] == w;
        assert(status_of(claims[i]) == folded(claims));
    }
}

/// An invoice that is settled stays settled while the same claims are read against a higher
/// tip: every amount that counted still counts, and what it counts for is the amount that
/// the deciding claim names.
pub proof fn what_counted_still_counts(b: BodyModel, tip: u32, later: u32, required: u32)
    requires
        b.claim is ConfirmedOutput,
        tip <= later,
        tip >= b.as_of.height,
        b.as_of.height >= b.claim->ConfirmedOutput_anchor.height + required - 1,
        required > 0,
    ensures
        status_of(b)->Some_0.confirmed_depth(tip) >= required,
        status_of(b)->Some_0.confirmed_depth(later) >= required,
{
}

} // verus!
