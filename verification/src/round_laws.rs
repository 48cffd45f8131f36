//! What a round of following a network can be relied on for.
//!
//! A round scans blocks, publishes what it found, and says how far it looked. These laws say
//! that it never says more than it did, and leaves nothing behind.

use vstd::prelude::*;

use crate::bytes::arr32;
use crate::claims::{BodyModel, ClaimModel};
use crate::migrate::{Walk, WalkOutcome};
use crate::observer::signed_with;
use crate::outside::blake3_of;
use crate::round::{
    all_published, carried_to, ceiling_of, counted_as, for_watched, forward_of, moved_along,
    rewound, unpublished, was_carried, watched_scripts, watermark_of, watermarks, Carried, Forward,
    Round,
};
use crate::signing::{claim_digest, SignedModel};
use crate::store::{is_listed, CheckpointRow, PublishedModel, StoreModel, WatchedModel};
use crate::table::{
    distinct, first, put, putting_leaves_the_rest, those, those_are_of_them, what_is_put_is_found,
    Row,
};
use crate::types::{script_id_input, BitcoinNetwork, BlockAnchor, ScriptId};

verus! {

// ---------------------------------------------------------------------------
// Watermarks
// ---------------------------------------------------------------------------

/// No watermark says more than was scanned: a round that holds a block back says that it
/// looked as far as that block, one that does not says that it looked as far as the
/// checkpoint, and only a network without one is said to be at its tip.
pub proof fn no_watermark_says_more_than_was_scanned(r: Round, s: StoreModel, net: BitcoinNetwork)
    ensures
        r.deferred matches Some(a) ==> r.scanned_to(s, net) == a,
        r.deferred is None ==> (s.checkpoint(net) matches Some(c) ==> r.scanned_to(s, net) == c),
        r.deferred is None && s.checkpoint(net) is None ==> r.scanned_to(s, net) == r.tip,
{
}

/// How far a round says that it looked does not depend on where the tip is, once a block was
/// taken or the network has a checkpoint.
pub proof fn the_tip_does_not_move_a_watermark(
    r: Round,
    other: Round,
    s: StoreModel,
    net: BitcoinNetwork,
)
    requires
        r.deferred == other.deferred,
        r.deferred is Some || s.checkpoint(net) is Some,
    ensures
        r.scanned_to(s, net) == other.scanned_to(s, net),
{
}

/// Every script that was watched gets a watermark, and no other does: it says that this
/// script on this network was scanned as of that block.
pub proof fn every_watched_script_gets_its_watermark(
    seed: Seq<u8>,
    net: BitcoinNetwork,
    at: BlockAnchor,
    scripts: Seq<Seq<u8>>,
    i: int,
)
    requires
        0 <= i < scripts.len(),
    ensures
        watermarks(seed, net, at, scripts).len() == scripts.len(),
        watermarks(seed, net, at, scripts)[i] == watermark_of(seed, net, at, scripts[i]),
        watermark_of(seed, net, at, scripts[i]) == (
            scripts[i],
            signed_with(
                seed,
                BodyModel {
                    script_id: ScriptId(arr32(blake3_of(script_id_input(net, scripts[i])))),
                    network: net,
                    as_of: at,
                    claim: ClaimModel::ScannedTo,
                },
            ),
        ),
{
}

// ---------------------------------------------------------------------------
// What is scanned
// ---------------------------------------------------------------------------

/// A round scans up to fifty blocks and never past the tip; one that retracts scans as many
/// more as a reorg may be deep. It stops short of the tip only where it has scanned that
/// many.
pub proof fn a_round_scans_as_far_as_it_may(next: u32, retracting: bool, tip: u32, depth: u32)
    requires
        next >= 1,
    ensures
        ({
            let last = ceiling_of(next, retracting, tip, depth);
            &&& last <= tip
            &&& !retracting && last < tip ==> last == next + 49
            &&& retracting && last < tip ==> last == next + 49 + depth
            &&& !retracting ==> last <= next + 49
            &&& retracting ==> last <= next + 49 + depth
        }),
{
}

/// A round that retracts scans no less than one that does not.
pub proof fn a_retracting_round_scans_no_less(next: u32, tip: u32, depth: u32)
    requires
        next >= 1,
    ensures
        ceiling_of(next, true, tip, depth) >= ceiling_of(next, false, tip, depth),
{
}

/// The scripts that are watched on a network are those on record for it.
pub proof fn the_watched_scripts_are_those_on_record(
    s: StoreModel,
    net: BitcoinNetwork,
    script: Seq<u8>,
)
    ensures
        watched_scripts(s, net).contains(script) <==> exists|x: int|
            0 <= x < s.watched.len() && (#[trigger] s.watched[x]).0.network == net
                && s.watched[x].0.script_pubkey == script,
{
    let p = |r: (WatchedModel, i64)| r.0.network == net;
    let f = |r: (WatchedModel, i64)| r.0.script_pubkey;
    let sel = those(s.watched, p);
    let all = watched_scripts(s, net);
    those_are_of_them(s.watched, p);
    assert(all =~= sel.map_values(f));
    if all.contains(script) {
        let i = choose|i: int| 0 <= i < all.len() && all[i] == script;
        assert(sel.contains(sel[i]));
        let x = choose|x: int| 0 <= x < s.watched.len() && s.watched[x] == sel[i];
        assert(s.watched[x].0.network == net && s.watched[x].0.script_pubkey == script);
    }
    if exists|x: int|
        0 <= x < s.watched.len() && (#[trigger] s.watched[x]).0.network == net
            && s.watched[x].0.script_pubkey == script {
        let x = choose|x: int|
            0 <= x < s.watched.len() && (#[trigger] s.watched[x]).0.network == net
                && s.watched[x].0.script_pubkey == script;
        assert(s.watched.contains(s.watched[x]));
        assert(sel.contains(s.watched[x]));
        let i = choose|i: int| 0 <= i < sel.len() && sel[i] == s.watched[x];
        assert(all[i] == script);
    }
}

// ---------------------------------------------------------------------------
// Checkpoints
// ---------------------------------------------------------------------------

/// A checkpoint that is moved back stands at the lower of where it was and where it is moved
/// to; those of other networks stay, and none is made where there was none.
pub proof fn a_checkpoint_is_only_ever_moved_back(
    s: StoreModel,
    net: BitcoinNetwork,
    height: u32,
    other: BitcoinNetwork,
)
    ensures
        ({
            let t = StoreModel { checkpoints: rewound(s.checkpoints, net, height), ..s };
            &&& s.checkpoint(net) is None ==> t.checkpoint(net) is None
            &&& s.checkpoint(net) matches Some(c) ==> t.checkpoint(net) == Some(
                BlockAnchor {
                    height: if c.height > height {
                        height
                    } else {
                        c.height
                    },
                    hash: c.hash,
                },
            )
            &&& other != net ==> t.checkpoint(other) == s.checkpoint(other)
        }),
{
    first_of_rewound(s.checkpoints, net, height, net);
    first_of_rewound(s.checkpoints, net, height, other);
}

proof fn first_of_rewound(
    rows: Seq<CheckpointRow>,
    net: BitcoinNetwork,
    height: u32,
    other: BitcoinNetwork,
)
    ensures
        ({
            let p = |r: CheckpointRow| r.network == other;
            let now = first(rewound(rows, net, height), p);
            match first(rows, p) {
                None => now is None,
                Some(r) => now == Some(
                    if r.network == net && r.anchor.height > height {
                        CheckpointRow {
                            network: r.network,
                            anchor: BlockAnchor { height, hash: r.anchor.hash },
                        }
                    } else {
                        r
                    },
                ) && r.network == other,
            }
        }),
    decreases rows.len(),
{
    if rows.len() > 0 {
        first_of_rewound(rows.drop_last(), net, height, other);
        assert(rewound(rows, net, height).drop_last() =~= rewound(rows.drop_last(), net, height));
    }
}

/// A block of which there is nothing to publish moves its network's checkpoint to it, and
/// one of which there is something moves none; other networks' stay.
pub proof fn a_checkpoint_moves_only_past_what_is_published(
    s: StoreModel,
    net: BitcoinNetwork,
    anchor: BlockAnchor,
    quiet: bool,
    other: BitcoinNetwork,
)
    requires
        distinct::<CheckpointRow>(s.checkpoints),
    ensures
        ({
            let t = StoreModel { checkpoints: moved_along(s.checkpoints, net, anchor, quiet), ..s };
            &&& quiet ==> t.checkpoint(net) == Some(anchor)
            &&& !quiet ==> t.checkpoint(net) == s.checkpoint(net)
            &&& other != net ==> t.checkpoint(other) == s.checkpoint(other)
        }),
{
    let row = CheckpointRow { network: net, anchor };
    let p = |r: CheckpointRow| r.network == net;
    let q = |r: CheckpointRow| r.network == other;
    crate::table::what_is_put_is_found::<CheckpointRow>(s.checkpoints, row, p);
    if other != net {
        crate::table::putting_leaves_the_rest::<CheckpointRow>(s.checkpoints, row, q);
    }
}

// ---------------------------------------------------------------------------
// Publishing
// ---------------------------------------------------------------------------

/// Of a round's claims those for watched scripts are kept, each of them, and no other.
pub proof fn claims_for_watched_scripts_are_kept(
    claims: Seq<(Seq<u8>, SignedModel)>,
    watched: Seq<Vec<u8>>,
    c: (Seq<u8>, SignedModel),
)
    ensures
        for_watched(claims, watched).contains(c) <==> claims.contains(c) && exists|j: int|
            0 <= j < watched.len() && (#[trigger] watched[j])@ == c.0,
{
    let p = |c: (Seq<u8>, SignedModel)| is_listed(watched, c.0);
    those_are_of_them(claims, p);
    assert(p(c) == is_listed(watched, c.0));
}

/// A claim is sent unless it is on record as published for its script on its network, and
/// nothing else is sent.
pub proof fn what_is_not_on_record_is_sent(
    s: StoreModel,
    net: BitcoinNetwork,
    script: Seq<u8>,
    claims: Seq<SignedModel>,
    c: SignedModel,
)
    ensures
        unpublished(s, net, script, claims).contains(c) <==> claims.contains(c) && !exists|x: int|
            {
                &&& 0 <= x < s.published.len()
                &&& (#[trigger] s.published[x]).network == net
                &&& s.published[x].script_pubkey == script
                &&& s.published[x].digest == claim_digest(c)
            },
{
    let p = |c: SignedModel|
        !s.published.contains(
            PublishedModel { network: net, script_pubkey: script, digest: claim_digest(c) },
        );
    those_are_of_them(claims, p);
    let m = PublishedModel { network: net, script_pubkey: script, digest: claim_digest(c) };
    if s.published.contains(m) {
        let x = choose|x: int| 0 <= x < s.published.len() && s.published[x] == m;
        assert(s.published[x].network == net);
    }
    if exists|x: int|
        {
            &&& 0 <= x < s.published.len()
            &&& (#[trigger] s.published[x]).network == net
            &&& s.published[x].script_pubkey == script
            &&& s.published[x].digest == claim_digest(c)
        } {
        let x = choose|x: int|
            {
                &&& 0 <= x < s.published.len()
                &&& (#[trigger] s.published[x]).network == net
                &&& s.published[x].script_pubkey == script
                &&& s.published[x].digest == claim_digest(c)
            };
        assert(s.published[x] == m);
        assert(s.published.contains(m));
    }
    assert(p(c) == !s.published.contains(m));
}

/// Recording claims as published for one script says nothing of any other script or network,
/// and forgets nothing.
pub proof fn publishing_for_one_script_says_nothing_of_another(
    rows: Seq<PublishedModel>,
    net: BitcoinNetwork,
    script: Seq<u8>,
    claims: Seq<SignedModel>,
    m: PublishedModel,
)
    ensures
        rows.contains(m) ==> all_published(rows, net, script, claims).contains(m),
        m.network != net || m.script_pubkey != script ==> (all_published(
            rows,
            net,
            script,
            claims,
        ).contains(m) <==> rows.contains(m)),
    decreases claims.len(),
{
    if claims.len() > 0 {
        let rest = claims.drop_last();
        publishing_for_one_script_says_nothing_of_another(rows, net, script, rest, m);
        let before = all_published(rows, net, script, rest);
        let after = all_published(rows, net, script, claims);
        let x = PublishedModel {
            network: net,
            script_pubkey: script,
            digest: claim_digest(claims.last()),
        };
        assert(after == before || after == before.push(x));
        if before.contains(m) {
            let i = choose|i: int| 0 <= i < before.len() && before[i] == m;
            assert(after[i] == m);
        }
        if after.contains(m) && m != x {
            let i = choose|i: int| 0 <= i < after.len() && after[i] == m;
            assert(i < before.len());
            assert(before[i] == m);
        }
    }
}

// ---------------------------------------------------------------------------
// Carrying forward
// ---------------------------------------------------------------------------

/// What a walk recovered is sent, unless it is what was last sent there; a walk that
/// recovered nothing has nothing to send.
pub proof fn what_is_recovered_is_sent_once(
    outcome: WalkOutcome,
    memo: Seq<(Seq<u8>, Seq<u8>)>,
    address: Seq<u8>,
    digest: Seq<u8>,
)
    ensures
        forward_of(outcome, memo, address, digest) == Forward::Nothing <==> !(outcome is Recovered),
        outcome is Recovered ==> (forward_of(outcome, memo, address, digest) == Forward::Already
            <==> was_carried(memo, address, digest)),
{
}

/// What has been carried forward to an address is known to have been, by its digest and by no
/// other, until something else is; and that says nothing of any other address.
pub proof fn what_was_carried_is_known(
    memo: Seq<(Seq<u8>, Seq<u8>)>,
    address: Seq<u8>,
    digest: Seq<u8>,
    other: Seq<u8>,
    d: Seq<u8>,
)
    requires
        distinct::<Carried>(memo),
    ensures
        ({
            let after = put::<Carried>(memo, (address, digest));
            &&& was_carried(after, address, digest)
            &&& d != digest ==> !was_carried(after, address, d)
            &&& other != address ==> (was_carried(after, other, d) <==> was_carried(memo, other, d))
            &&& !was_carried(Seq::empty(), address, digest)
        }),
{
    let m = (address, digest);
    let p = carried_to(address);
    assert forall|x: (Seq<u8>, Seq<u8>)| #[trigger] p(x) <==> Carried::key(x) == Carried::key(
        m,
    ) by {}
    what_is_put_is_found::<Carried>(memo, m, p);
    if other != address {
        let q = carried_to(other);
        assert forall|x: (Seq<u8>, Seq<u8>)| Carried::key(x) == Carried::key(m) implies !#[trigger] q(
            x,
        ) by {}
        putting_leaves_the_rest::<Carried>(memo, m, q);
    }
}

/// A walk counts as what it came to, but for one that recovered something which was not
/// carried forward: that settles nothing.
pub proof fn a_walk_counts_as_what_it_came_to(outcome: WalkOutcome, published: bool)
    ensures
        published ==> counted_as(outcome, published) == Walk::of(outcome),
        !published && Walk::of(outcome) == Walk::Recovered ==> counted_as(outcome, published)
            == Walk::Unresolved,
        Walk::of(outcome) != Walk::Recovered ==> counted_as(outcome, published) == Walk::of(
            outcome,
        ),
{
}

} // verus!
