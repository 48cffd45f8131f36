//! What readers of a bridge's claims can rely on.
//!
//! A bridge turns blocks into claims, and a reorg into retractions. These laws say which
//! claims come of which blocks: none is left out, none is made up, and each says what the
//! chain says.

use vstd::prelude::*;

use crate::bytes::{arr32, arr32_of_view, le32};
use crate::chain::{is_scan_of, parts_of, scan_fault, FoundModel, ScannedBlock};
use crate::claims::{BodyModel, ClaimModel};
use crate::observer::{
    are_tasks, body_for, claims_about, confirmation, deep_body, deep_claims_of, deep_found,
    depth_under, every_task_is_called_for, first_claims, forked, hashes, headers_for, is_due,
    is_pending, is_rung, is_top_power, orphans, output_found, outputs_found, retractions,
    signed_with, tip_body, tip_signed_with, what_is_due_has_its_task, what_is_pending_is_on_record,
    what_may_go_deeper_is_pending, DeepSource, DeepTask,
};
use crate::outside::{blake3_of, block_of, ed25519_public_of, ed25519_signature_of};
use crate::records::{body_bytes, tip_bytes};
use crate::signing::SignedModel;
use crate::spv::BlockHeader;
use crate::store::{
    deepened, moved_out, output_recorded, BlockRow, OutputModel, OutputRow, PendingDeepClaim,
    StoreModel,
};
use crate::table::{
    distinct, first, first_or_none, keys_stay_distinct, put, those, those_are_of_them, Row,
};
use crate::text::ascii;
use crate::types::{
    script_id_input, BitcoinNetwork, BlockAnchor, BlockHash, OutPoint, ScriptId, Txid,
};

verus! {

// ---------------------------------------------------------------------------
// Claims
// ---------------------------------------------------------------------------

/// What a bridge signs of a script is the claim it makes, for that script on that network
/// and as of that block; it is signed with the bridge's own key, over the bytes that are
/// handed out.
pub proof fn a_claim_is_signed_as_it_is_made(
    seed: Seq<u8>,
    network: BitcoinNetwork,
    script: Seq<u8>,
    at: BlockAnchor,
    claim: ClaimModel,
    c: SignedModel,
)
    requires
        c == signed_with(seed, body_for(network, script, at, claim)),
    ensures
        c.body_cbor == body_bytes(
            BodyModel {
                script_id: ScriptId(arr32(blake3_of(script_id_input(network, script)))),
                network,
                as_of: at,
                claim,
            },
        ),
        c.bridge.0 == arr32(ed25519_public_of(seed)),
        c.signature == ed25519_signature_of(
            seed,
            ascii("freenet-bitcoin/claim/v1\0"@) + c.body_cbor,
        ),
{
}

/// The claims about a script are those that were made about it, and no others.
pub proof fn claims_about_a_script_are_those_made(
    all: Seq<(Seq<u8>, SignedModel)>,
    script: Seq<u8>,
    c: SignedModel,
)
    ensures
        claims_about(all, script).contains(c) <==> all.contains((script, c)),
    decreases all.len(),
{
    if all.len() > 0 {
        let rest = all.drop_last();
        let before = claims_about(rest, script);
        claims_about_a_script_are_those_made(rest, script, c);
        let now = claims_about(all, script);
        if now.contains(c) {
            let i = choose|i: int| 0 <= i < now.len() && now[i] == c;
            if i < before.len() {
                assert(before[i] == c);
                let k = choose|k: int| 0 <= k < rest.len() && rest[k] == (script, c);
                assert(all[k] == (script, c));
            } else {
                assert(all[all.len() - 1] == (script, c));
            }
        }
        if all.contains((script, c)) {
            let k = choose|k: int| 0 <= k < all.len() && all[k] == (script, c);
            if k < rest.len() {
                assert(rest[k] == (script, c));
                let i = choose|i: int| 0 <= i < before.len() && before[i] == c;
                assert(now[i] == c);
            } else {
                assert(now[now.len() - 1] == c);
            }
        }
    }
}

// ---------------------------------------------------------------------------
// Reorgs
// ---------------------------------------------------------------------------

/// Every payment that a reorg took off the chain and that was not put back on it is
/// retracted, as of the tip.
pub proof fn every_payment_off_the_chain_is_retracted(
    seed: Seq<u8>,
    network: BitcoinNetwork,
    tip: BlockAnchor,
    orphaned: Seq<(Seq<u8>, OutPoint)>,
    reconfirmed: Seq<OutPoint>,
    j: int,
)
    requires
        0 <= j < orphaned.len(),
        !reconfirmed.contains(orphaned[j].1),
    ensures
        retractions(seed, network, tip, orphaned, reconfirmed).contains(
            (
                orphaned[j].0,
                signed_with(
                    seed,
                    BodyModel {
                        script_id: ScriptId(
                            arr32(blake3_of(script_id_input(network, orphaned[j].0))),
                        ),
                        network,
                        as_of: tip,
                        claim: ClaimModel::Retracted { outpoint: orphaned[j].1 },
                    },
                ),
            ),
        ),
    decreases orphaned.len(),
{
    let rest = orphaned.drop_last();
    let all = retractions(seed, network, tip, orphaned, reconfirmed);
    let before = retractions(seed, network, tip, rest, reconfirmed);
    if j < rest.len() {
        assert(rest[j] == orphaned[j]);
        every_payment_off_the_chain_is_retracted(seed, network, tip, rest, reconfirmed, j);
        let c = (
            orphaned[j].0,
            signed_with(
                seed,
                body_for(
                    network,
                    orphaned[j].0,
                    tip,
                    ClaimModel::Retracted { outpoint: orphaned[j].1 },
                ),
            ),
        );
        let i = choose|i: int| 0 <= i < before.len() && before[i] == c;
        assert(all[i] == c);
    } else {
        assert(all[all.len() - 1] == all.last());
    }
}

/// Retractions are made one payment at a time: what a reorg calls for is what each half of
/// the payments that it took away calls for.
pub proof fn retractions_are_made_one_by_one(
    seed: Seq<u8>,
    network: BitcoinNetwork,
    tip: BlockAnchor,
    a: Seq<(Seq<u8>, OutPoint)>,
    b: Seq<(Seq<u8>, OutPoint)>,
    reconfirmed: Seq<OutPoint>,
)
    ensures
        retractions(seed, network, tip, a + b, reconfirmed) == retractions(
            seed,
            network,
            tip,
            a,
            reconfirmed,
        ) + retractions(seed, network, tip, b, reconfirmed),
        retractions(seed, network, tip, a, reconfirmed).len() <= a.len(),
    decreases a.len() + b.len(),
{
    if b.len() == 0 {
        assert(a + b =~= a);
        assert(retractions(seed, network, tip, a, reconfirmed) + Seq::empty() =~= retractions(
            seed,
            network,
            tip,
            a,
            reconfirmed,
        ));
        if a.len() > 0 {
            retractions_are_made_one_by_one(
                seed,
                network,
                tip,
                a.drop_last(),
                Seq::empty(),
                reconfirmed,
            );
        }
    } else {
        retractions_are_made_one_by_one(seed, network, tip, a, b.drop_last(), reconfirmed);
        assert((a + b).drop_last() =~= a + b.drop_last());
        assert((a + b).last() == b.last());
        assert(retractions(seed, network, tip, a + b, reconfirmed) =~= retractions(
            seed,
            network,
            tip,
            a,
            reconfirmed,
        ) + retractions(seed, network, tip, b, reconfirmed));
    }
}

/// A reorg orphans exactly the payments on record in a block above the fork, on its network.
pub proof fn what_stands_above_a_fork_is_orphaned(
    s: StoreModel,
    network: BitcoinNetwork,
    fork: u32,
    script: Seq<u8>,
    outpoint: OutPoint,
)
    ensures
        orphans(s, network, fork).contains((script, outpoint)) <==> exists|x: int|
            {
                &&& 0 <= x < s.outputs.len()
                &&& (#[trigger] s.outputs[x]).network == network
                &&& s.outputs[x].block matches Some(b)
                &&& b.height > fork
                &&& s.outputs[x].script_pubkey == script
                &&& s.outputs[x].txid == outpoint.txid.0
                &&& s.outputs[x].vout == outpoint.vout
            },
{
    let p = |o: OutputModel|
        o.network == network && o.block is Some && o.block->Some_0.height > fork;
    let f = |o: OutputModel|
        (o.script_pubkey, OutPoint { txid: Txid(o.txid), vout: o.vout });
    let sel = those(s.outputs, p);
    those_are_of_them(s.outputs, p);
    let all = orphans(s, network, fork);
    assert(all =~= sel.map_values(f));
    if all.contains((script, outpoint)) {
        let i = choose|i: int| 0 <= i < all.len() && all[i] == (script, outpoint);
        assert(all[i] == f(sel[i]));
        assert(sel.contains(sel[i]));
        let x = choose|x: int| 0 <= x < s.outputs.len() && s.outputs[x] == sel[i];
        assert(p(s.outputs[x]));
        assert(s.outputs[x].network == network);
    }
    if exists|x: int|
        {
            &&& 0 <= x < s.outputs.len()
            &&& (#[trigger] s.outputs[x]).network == network
            &&& s.outputs[x].block matches Some(b)
            &&& b.height > fork
            &&& s.outputs[x].script_pubkey == script
            &&& s.outputs[x].txid == outpoint.txid.0
            &&& s.outputs[x].vout == outpoint.vout
        } {
        let x = choose|x: int|
            {
                &&& 0 <= x < s.outputs.len()
                &&& (#[trigger] s.outputs[x]).network == network
                &&& s.outputs[x].block matches Some(b)
                &&& b.height > fork
                &&& s.outputs[x].script_pubkey == script
                &&& s.outputs[x].txid == outpoint.txid.0
                &&& s.outputs[x].vout == outpoint.vout
            };
        assert(s.outputs.contains(s.outputs[x]));
        assert(sel.contains(s.outputs[x]));
        let i = choose|i: int| 0 <= i < sel.len() && sel[i] == s.outputs[x];
        assert(all[i] == f(sel[i]));
        assert(all[i] == (script, outpoint));
    }
}

/// After a fork nothing is on record above it on its network, neither a block nor a payment
/// in one; every payment is still on record, with nothing asserted of those that lost their
/// block; and whatever stood at or below the fork, or on another network, is as it was.
pub proof fn a_fork_takes_away_what_stands_above_it(
    s: StoreModel,
    network: BitcoinNetwork,
    fork: u32,
)
    ensures
        ({
            let t = forked(s, network, fork);
            &&& t.outputs.len() == s.outputs.len()
            &&& forall|x: int|
                0 <= x < s.outputs.len() ==> {
                    let o = #[trigger] s.outputs[x];
                    &&& o.network == network && o.block is Some && o.block->Some_0.height > fork
                        ==> t.outputs[x].block is None && t.outputs[x].deep_published == 0
                    &&& !(o.network == network && o.block is Some && o.block->Some_0.height > fork)
                        ==> t.outputs[x] == o
                    &&& t.outputs[x].network == o.network
                    &&& t.outputs[x].script_pubkey == o.script_pubkey
                    &&& t.outputs[x].txid == o.txid
                    &&& t.outputs[x].vout == o.vout
                    &&& t.outputs[x].value_sats == o.value_sats
                }
            &&& forall|r: BlockRow| #[trigger]
                t.blocks.contains(r) <==> s.blocks.contains(r) && !(r.network == network && r.height
                    > fork)
            &&& t.checkpoints == s.checkpoints
            &&& t.watched == s.watched
            &&& t.published == s.published
            &&& t.interests == s.interests
            &&& t.handled == s.handled
        }),
{
    let t = forked(s, network, fork);
    let p = |r: BlockRow| !(r.network == network && r.height > fork);
    those_are_of_them(s.blocks, p);
    let f = |o: OutputModel| moved_out(o, network, fork);
    assert forall|x: int| 0 <= x < s.outputs.len() implies t.outputs[x] == f(
        #[trigger] s.outputs[x],
    ) by {}
}

// ---------------------------------------------------------------------------
// Payments at first sight
// ---------------------------------------------------------------------------

/// Every payment that is found is claimed at once, and nothing else is: for the script that
/// it pays, in the block it was found in, as of the tip, with that block's header and the
/// payment's own transaction, branch and place as the evidence.
pub proof fn every_payment_found_is_claimed(
    seed: Seq<u8>,
    network: BitcoinNetwork,
    tip: BlockAnchor,
    found: Seq<FoundModel>,
    anchor: BlockAnchor,
    header: BlockHeader,
    i: int,
    claim: ClaimModel,
)
    requires
        0 <= i < found.len(),
        claim matches ClaimModel::ConfirmedOutput { outpoint, value_sats, anchor: a, spv } && {
            &&& outpoint.txid == found[i].txid
            &&& outpoint.vout == found[i].vout
            &&& value_sats == found[i].value_sats
            &&& a == anchor
            &&& spv.raw_tx == found[i].raw_tx
            &&& spv.merkle_branch == hashes(found[i].merkle_branch)
            &&& spv.tx_index == found[i].tx_index
            &&& spv.header == header
            &&& spv.following_headers == Seq::<BlockHeader>::empty()
        },
    ensures
        first_claims(seed, network, tip, found, anchor, header).len() == found.len(),
        first_claims(seed, network, tip, found, anchor, header)[i] == (
            found[i].script_pubkey,
            signed_with(
                seed,
                BodyModel {
                    script_id: ScriptId(
                        arr32(blake3_of(script_id_input(network, found[i].script_pubkey))),
                    ),
                    network,
                    as_of: tip,
                    claim,
                },
            ),
        ),
{
    let made = confirmation(found[i], found[i].value_sats, anchor, header, Seq::empty());
    assert(made->ConfirmedOutput_outpoint == claim->ConfirmedOutput_outpoint);
    assert(made->ConfirmedOutput_spv =~= claim->ConfirmedOutput_spv);
    assert(made == claim);
}

/// Recording an output puts it into its block. One that was on record keeps its script, its
/// amount and the depth asserted of it; one that was not is recorded as it is. No other
/// output changes.
pub proof fn an_output_is_recorded_in_its_block(
    rows: Seq<OutputModel>,
    o: OutputModel,
    network: BitcoinNetwork,
    txid: [u8; 32],
    vout: u32,
)
    requires
        distinct::<OutputRow>(rows),
    ensures
        ({
            let at = |r: OutputModel| r.network == network && r.txid == txid && r.vout == vout;
            let now = first(output_recorded(rows, o), at);
            let was = first(rows, at);
            &&& distinct::<OutputRow>(output_recorded(rows, o))
            &&& o.network == network && o.txid == txid && o.vout == vout ==> match was {
                Some(r) => now == Some(OutputModel { block: o.block, ..r }),
                None => now == Some(o),
            }
            &&& !(o.network == network && o.txid == txid && o.vout == vout) ==> now == was
        }),
{
    let at = |r: OutputModel| r.network == network && r.txid == txid && r.vout == vout;
    let mine = |r: OutputModel|
        r.network == o.network && r.txid@ == o.txid@ && r.vout == o.vout;
    assert forall|r: OutputModel| #[trigger] mine(r) <==> OutputRow::key(r) == OutputRow::key(
        o,
    ) by {}
    assert forall|r: OutputModel, q: OutputModel| r.txid@ == q.txid@ implies #[trigger] r.txid
        == #[trigger] q.txid by {
        arr32_of_view(r.txid);
        arr32_of_view(q.txid);
    }
    first_or_none(rows, mine);
    let m = match first(rows, mine) {
        Some(r) => OutputModel { block: o.block, ..r },
        None => o,
    };
    assert(output_recorded(rows, o) == put::<OutputRow>(rows, m));
    keys_stay_distinct::<OutputRow>(rows, m);
    assert(OutputRow::key(m) == OutputRow::key(o));
    if o.network == network && o.txid == txid && o.vout == vout {
        assert forall|r: OutputModel| #[trigger] at(r) <==> OutputRow::key(r) == OutputRow::key(
            m,
        ) by {
            arr32_of_view(r.txid);
            arr32_of_view(o.txid);
        }
        crate::table::what_is_put_is_found::<OutputRow>(rows, m, at);
        same_first(rows, at, mine);
    } else {
        assert forall|r: OutputModel| OutputRow::key(r) == OutputRow::key(m) implies !#[trigger] at(
            r,
        ) by {
            arr32_of_view(r.txid);
            arr32_of_view(o.txid);
        }
        crate::table::putting_leaves_the_rest::<OutputRow>(rows, m, at);
    }
}

/// What is first by one rule is first by another that says the same.
pub proof fn same_first<M>(rows: Seq<M>, p: spec_fn(M) -> bool, q: spec_fn(M) -> bool)
    requires
        forall|m: M| #[trigger] p(m) == q(m),
    ensures
        first(rows, p) == first(rows, q),
    decreases rows.len(),
{
    if rows.len() > 0 {
        same_first(rows.drop_last(), p, q);
        assert(p(rows.last()) == q(rows.last()));
    }
}

/// Once a block has been taken in, every payment found in it is on record in that block,
/// and no payment is anywhere else than it was unless it was found.
pub proof fn every_payment_found_is_on_record(
    rows: Seq<OutputModel>,
    network: BitcoinNetwork,
    found: Seq<FoundModel>,
    anchor: BlockAnchor,
    net: BitcoinNetwork,
    txid: [u8; 32],
    vout: u32,
)
    requires
        distinct::<OutputRow>(rows),
    ensures
        ({
            let at = |r: OutputModel| r.network == net && r.txid == txid && r.vout == vout;
            let after = outputs_found(rows, network, found, anchor);
            &&& distinct::<OutputRow>(after)
            &&& if net == network && exists|i: int|
                0 <= i < found.len() && (#[trigger] found[i]).txid.0 == txid && found[i].vout
                    == vout {
                &&& first(after, at) matches Some(r)
                &&& r.block == Some(anchor)
                &&& first(rows, at) matches Some(was) ==> r == (OutputModel {
                    block: Some(anchor),
                    ..was
                })
            } else {
                first(after, at) == first(rows, at)
            }
        }),
    decreases found.len(),
{
    if found.len() > 0 {
        let rest = found.drop_last();
        let f = found.last();
        every_payment_found_is_on_record(rows, network, rest, anchor, net, txid, vout);
        let before = outputs_found(rows, network, rest, anchor);
        an_output_is_recorded_in_its_block(
            before,
            output_found(network, f, anchor),
            net,
            txid,
            vout,
        );
        assert(found[found.len() - 1] == f);
        assert forall|i: int| 0 <= i < rest.len() implies rest[i] == found[i] by {}
        if exists|i: int|
            0 <= i < found.len() && (#[trigger] found[i]).txid.0 == txid && found[i].vout == vout {
            let i = choose|i: int|
                0 <= i < found.len() && (#[trigger] found[i]).txid.0 == txid && found[i].vout
                    == vout;
            if i < rest.len() {
                assert(rest[i].txid.0 == txid && rest[i].vout == vout);
            }
        }
        if exists|i: int|
            0 <= i < rest.len() && (#[trigger] rest[i]).txid.0 == txid && rest[i].vout == vout {
            let i = choose|i: int|
                0 <= i < rest.len() && (#[trigger] rest[i]).txid.0 == txid && rest[i].vout == vout;
            assert(found[i].txid.0 == txid && found[i].vout == vout);
        }
    }
}

// ---------------------------------------------------------------------------
// Depth
// ---------------------------------------------------------------------------

/// A block at the tip is one deep, and each block on top makes it one deeper; no block is
/// less than one deep.
pub proof fn depth_grows_with_the_chain(tip: u32, height: u32)
    requires
        tip < u32::MAX,
    ensures
        depth_under(height, height) == 1,
        tip < height ==> depth_under(tip, height) == 1,
        height <= tip && tip - height + 1 < u32::MAX ==> depth_under((tip + 1) as u32, height)
            == depth_under(tip, height) + 1,
{
}

/// What is due is the highest power of two that the depth has reached, or the ceiling once
/// that is reached: more than half of the depth is always asserted.
pub proof fn a_rung_is_more_than_half_the_depth(reached: u32, max: u32, rung: u32)
    requires
        is_rung(rung, reached, max),
        reached < max,
        reached >= 1,
    ensures
        rung <= reached < 2 * rung,
        rung == 1 || rung % 2 == 0,
{
    if reached >= 2 {
        assert(is_top_power(rung as int, reached as int));
        let k = choose|k: nat| rung == #[trigger] vstd::arithmetic::power2::pow2(k);
        if k > 0 {
            vstd::arithmetic::power2::lemma_pow2_unfold(k);
        } else {
            vstd::arithmetic::power2::lemma2_to64();
        }
    }
}

/// The ceiling is asserted once the chain is as deep, and stays asserted.
pub proof fn the_ceiling_is_asserted_once_reached(reached: u32, max: u32, rung: u32)
    requires
        is_rung(rung, reached, max),
        reached >= max,
    ensures
        rung == max,
{
}

/// A claim of a depth carries as many headers as the depth, and never more than 25.
pub proof fn a_depth_takes_as_many_headers(rung: u32)
    ensures
        rung <= 25 ==> headers_for(rung) == rung,
        rung > 25 ==> headers_for(rung) == 25,
{
}

/// A payment on record that the chain has buried deeper than was asserted has its task, which
/// names the payment, its script, its amount, its block and the depth that is due.
pub proof fn a_payment_that_is_deeper_has_its_task(
    s: StoreModel,
    network: BitcoinNetwork,
    tip_height: u32,
    max_depth: u32,
    pending: Seq<PendingDeepClaim>,
    tasks: Seq<DeepTask>,
    x: int,
    rung: u32,
) -> (i: int)
    requires
        is_pending(pending, s, network, tip_height, max_depth),
        are_tasks(tasks, pending, tip_height, max_depth),
        0 <= x < s.outputs.len(),
        s.outputs[x].network == network,
        s.outputs[x].block is Some,
        s.outputs[x].block->Some_0.height < tip_height,
        is_rung(rung, (tip_height - s.outputs[x].block->Some_0.height + 1) as u32, max_depth),
        tip_height - s.outputs[x].block->Some_0.height < u32::MAX,
        rung > s.outputs[x].deep_published,
        rung > 1,
    ensures
        0 <= i < tasks.len(),
        tasks[i].script_pubkey@ == s.outputs[x].script_pubkey,
        tasks[i].txid == s.outputs[x].txid,
        tasks[i].vout == s.outputs[x].vout,
        tasks[i].value_sats == s.outputs[x].value_sats,
        tasks[i].block_height == s.outputs[x].block->Some_0.height,
        tasks[i].rung == rung,
{
    crate::observer::no_rung_overstates(
        (tip_height - s.outputs[x].block->Some_0.height + 1) as u32,
        max_depth,
        rung,
    );
    let k = what_may_go_deeper_is_pending(pending, s, network, tip_height, max_depth, x);
    assert(is_due(rung, depth_under(tip_height, pending[k].4), max_depth, pending[k].5));
    let i = what_is_due_has_its_task(tasks, pending, tip_height, max_depth, k, rung);
    let d = depth_under(tip_height, pending[k].4);
    crate::observer::the_ladder_never_goes_down(d, d, max_depth, rung, tasks[i].rung);
    crate::observer::the_ladder_never_goes_down(d, d, max_depth, tasks[i].rung, rung);
    i
}

/// Every task is about a payment on record, and asks for a depth that the chain has given
/// it and that was not asserted yet.
pub proof fn every_task_is_about_a_payment_on_record(
    s: StoreModel,
    network: BitcoinNetwork,
    tip_height: u32,
    max_depth: u32,
    pending: Seq<PendingDeepClaim>,
    tasks: Seq<DeepTask>,
    i: int,
) -> (x: int)
    requires
        is_pending(pending, s, network, tip_height, max_depth),
        are_tasks(tasks, pending, tip_height, max_depth),
        0 <= i < tasks.len(),
    ensures
        0 <= x < s.outputs.len(),
        s.outputs[x].network == network,
        s.outputs[x].block is Some,
        tasks[i].script_pubkey@ == s.outputs[x].script_pubkey,
        tasks[i].txid == s.outputs[x].txid,
        tasks[i].vout == s.outputs[x].vout,
        tasks[i].value_sats == s.outputs[x].value_sats,
        tasks[i].block_height == s.outputs[x].block->Some_0.height,
        tasks[i].rung > s.outputs[x].deep_published,
        1 < tasks[i].rung <= max_depth,
        tasks[i].block_height + tasks[i].rung <= tip_height + 1,
{
    let k = every_task_is_called_for(tasks, pending, tip_height, max_depth, i);
    let x = what_is_pending_is_on_record(pending, s, network, tip_height, max_depth, k);
    crate::observer::no_rung_overstates(
        depth_under(tip_height, pending[k].4),
        max_depth,
        tasks[i].rung,
    );
    x
}

/// A deeper claim is one about the task's own payment: its script, amount and place in the
/// chain are the task's and the block's, its evidence is what the block was found to hold,
/// and the headers are the block's own and those that follow it.
pub proof fn a_deeper_claim_is_about_its_payment(
    network: BitcoinNetwork,
    tip: BlockAnchor,
    task: DeepTask,
    from: DeepSource,
)
    ensures
        deep_body(network, tip, task, None) is None,
        deep_body(network, tip, task, Some(from)) is Some <==> deep_found(task, from) is Some
            && from.headers@.len() > 0 && from.headers@.len() == (if task.rung <= 25 {
            task.rung
        } else {
            25u32
        }),
        deep_body(network, tip, task, Some(from)) matches Some(body) ==> {
            let f = deep_found(task, from)->Some_0;
            &&& body.network == network
            &&& body.as_of == tip
            &&& body.script_id.0 == arr32(
                blake3_of(script_id_input(network, task.script_pubkey@)),
            )
            &&& body.claim matches ClaimModel::ConfirmedOutput { outpoint, value_sats, anchor, spv }
            &&& outpoint == (OutPoint { txid: f.txid, vout: f.vout })
            &&& value_sats == task.value_sats
            &&& anchor.height == from.height
            &&& anchor.hash == from.hash
            &&& spv.raw_tx == f.raw_tx
            &&& spv.merkle_branch == hashes(f.merkle_branch)
            &&& spv.tx_index == f.tx_index
            &&& spv.header == from.headers@[0]
            &&& spv.following_headers == from.headers@.subrange(1, from.headers@.len() as int)
        },
        deep_found(task, from) matches Some(f) ==> f.txid.0@ == task.txid@ && f.vout == task.vout
            && scan_fault(from.raw@) is None,
{
    if deep_found(task, from) is Some {
        let p = |m: FoundModel| m.txid.0@ == task.txid@ && m.vout == task.vout;
        first_or_none(
            crate::observer::found_paying(
                parts_of(block_of(from.raw@)->Ok_0.1)->Ok_0,
                task.script_pubkey@,
            ),
            p,
        );
    }
    if from.headers@.len() > 0 {
        assert(from.headers@.skip(1) =~= from.headers@.subrange(1, from.headers@.len() as int));
    }
}

/// Every task that can be claimed is, with the script that it is about.
pub proof fn every_task_that_can_be_is_claimed(
    seed: Seq<u8>,
    network: BitcoinNetwork,
    tip: BlockAnchor,
    tasks: Seq<DeepTask>,
    sources: Seq<Option<DeepSource>>,
    n: int,
    i: int,
)
    requires
        0 <= i < n <= tasks.len(),
        deep_body(network, tip, tasks[i], sources[i]) is Some,
    ensures
        deep_claims_of(seed, network, tip, tasks, sources, n).contains(
            (
                tasks[i].script_pubkey@,
                signed_with(seed, deep_body(network, tip, tasks[i], sources[i])->Some_0),
            ),
        ),
    decreases n,
{
    let all = deep_claims_of(seed, network, tip, tasks, sources, n);
    let before = deep_claims_of(seed, network, tip, tasks, sources, n - 1);
    if i < n - 1 {
        every_task_that_can_be_is_claimed(seed, network, tip, tasks, sources, n - 1, i);
        let c = (
            tasks[i].script_pubkey@,
            signed_with(seed, deep_body(network, tip, tasks[i], sources[i])->Some_0),
        );
        let k = choose|k: int| 0 <= k < before.len() && before[k] == c;
        assert(all[k] == c);
    } else {
        assert(all[all.len() - 1] == all.last());
    }
}

/// Every deeper claim is one that a task makes.
pub proof fn every_deeper_claim_is_of_a_task(
    seed: Seq<u8>,
    network: BitcoinNetwork,
    tip: BlockAnchor,
    tasks: Seq<DeepTask>,
    sources: Seq<Option<DeepSource>>,
    n: int,
    k: int,
) -> (i: int)
    requires
        0 <= n <= tasks.len(),
        0 <= k < deep_claims_of(seed, network, tip, tasks, sources, n).len(),
    ensures
        0 <= i < n,
        deep_body(network, tip, tasks[i], sources[i]) is Some,
        deep_claims_of(seed, network, tip, tasks, sources, n)[k] == (
            tasks[i].script_pubkey@,
            signed_with(seed, deep_body(network, tip, tasks[i], sources[i])->Some_0),
        ),
    decreases n,
{
    let before = deep_claims_of(seed, network, tip, tasks, sources, n - 1);
    if k < before.len() {
        every_deeper_claim_is_of_a_task(seed, network, tip, tasks, sources, n - 1, k)
    } else {
        n - 1
    }
}

/// The depth asserted of an output only rises, and only for the output that is named.
pub proof fn asserted_depth_only_rises(
    o: OutputModel,
    network: BitcoinNetwork,
    txid: [u8; 32],
    vout: u32,
    depth: u32,
)
    ensures
        ({
            let t = deepened(o, network, txid@, vout, depth);
            &&& t == (OutputModel { deep_published: t.deep_published, ..o })
            &&& t.deep_published >= o.deep_published
            &&& o.network == network && o.txid == txid && o.vout == vout ==> t.deep_published
                >= depth && (t.deep_published == depth || t.deep_published == o.deep_published)
            &&& !(o.network == network && o.txid == txid && o.vout == vout) ==> t == o
        }),
{
    arr32_of_view(o.txid);
    arr32_of_view(txid);
}

// ---------------------------------------------------------------------------
// Tips
// ---------------------------------------------------------------------------

/// The summary of a block says what the block's own header says, and what the node says of
/// its height and its median time: the hash of the block before is in bytes 4 to 36 of the
/// header, and the time in bytes 68 to 72.
pub proof fn a_summary_agrees_with_the_header(
    network: BitcoinNetwork,
    b: ScannedBlock,
    raw: Seq<u8>,
    hash: BlockHash,
    height: u32,
    median_time: Option<u32>,
    watched: Seq<Vec<u8>>,
)
    requires
        scan_fault(raw) is None,
        is_scan_of(b, raw, hash, height, median_time, watched),
    ensures
        ({
            let (header, raws) = block_of(raw)->Ok_0;
            let e = tip_body(network, b);
            &&& b.header.0@ == header
            &&& e.network == network
            &&& e.anchor.hash == hash
            &&& e.anchor.height == height
            &&& forall|i: int| 0 <= i < 32 ==> e.prev_hash.0@[i] == #[trigger] header[4 + i]
            &&& e.block_time == header[68] + 0x100 * header[69] + 0x1_0000 * header[70]
                + 0x100_0000 * header[71]
            &&& e.median_time == (match median_time {
                Some(m) => m,
                None => e.block_time,
            })
            &&& e.tx_count == raws.len() as u32
        }),
{
    let (header, raws) = block_of(raw)->Ok_0;
    let e = tip_body(network, b);
    assert forall|i: int| 0 <= i < 32 implies e.prev_hash.0@[i] == #[trigger] header[4 + i] by {
        assert(header.subrange(4, 36)[i] == header[4 + i]);
    }
    assert(le32(header, 68) == header[68] + 0x100 * header[69] + 0x1_0000 * header[70]
        + 0x100_0000 * header[71]);
    crate::chain_laws::every_transaction_is_read(raws);
}

/// A summary is what a scan says of its block, place by place, whatever the block.
pub proof fn a_summary_is_what_the_scan_says(network: BitcoinNetwork, b: ScannedBlock)
    ensures
        tip_body(network, b).network == network,
        tip_body(network, b).anchor == b.anchor,
        tip_body(network, b).prev_hash == b.prev_hash,
        tip_body(network, b).block_time == b.time,
        tip_body(network, b).tx_count == b.tx_count,
        tip_body(network, b).median_time == b.median_time,
{
}

/// The summaries of two blocks of which one builds on the other link up: the later names
/// the earlier as the block before it.
pub proof fn summaries_of_consecutive_blocks_link(
    network: BitcoinNetwork,
    earlier: ScannedBlock,
    later: ScannedBlock,
    raw: Seq<u8>,
    hash: BlockHash,
    height: u32,
    median_time: Option<u32>,
    watched: Seq<Vec<u8>>,
)
    requires
        scan_fault(raw) is None,
        is_scan_of(later, raw, hash, height, median_time, watched),
        block_of(raw)->Ok_0.0.subrange(4, 36) == earlier.anchor.hash.0@,
    ensures
        tip_body(network, later).prev_hash == tip_body(network, earlier).anchor.hash,
{
    arr32_of_view(later.prev_hash.0);
    arr32_of_view(earlier.anchor.hash.0);
}

/// A summary is signed with the bridge's own key, over the bytes that are handed out, as a
/// summary and not as a claim.
pub proof fn a_summary_is_signed_as_it_is_made(
    seed: Seq<u8>,
    body: crate::claims::TipEntryBody,
    c: SignedModel,
)
    requires
        c == tip_signed_with(seed, body),
    ensures
        c.body_cbor == tip_bytes(body),
        c.bridge.0 == arr32(ed25519_public_of(seed)),
        c.signature == ed25519_signature_of(
            seed,
            ascii("freenet-bitcoin/tip/v1\0"@) + c.body_cbor,
        ),
{
}

/// What is recorded of a payment that is found for the first time is the payment itself, the
/// block it is in, and that no depth has been asserted for it.
pub proof fn what_is_recorded_of_a_payment(network: BitcoinNetwork, f: FoundModel, anchor: BlockAnchor)
    ensures
        ({
            let o = output_found(network, f, anchor);
            &&& o.network == network
            &&& o.script_pubkey == f.script_pubkey
            &&& o.txid == f.txid.0
            &&& o.vout == f.vout
            &&& o.value_sats == f.value_sats
            &&& o.block == Some(anchor)
            &&& o.deep_published == 0
        }),
{
}

} // verus!
