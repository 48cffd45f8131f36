//! What a bridge's memory can be relied on for.
//!
//! What is written is read back, for its own network and under its own key, and nothing else
//! changes. These laws say so of each kind of record.

use vstd::prelude::*;

use crate::bytes::arr32_of_view;
use crate::store::{
    ended, in_doubt, interest_set, may_go_deeper, ran_out, stamp, watch_added, watch_merged,
    BlockRow, CheckpointRow, HandledModel, HandledRow, InterestChange, InterestModel, InterestRow,
    OutputModel, PointerRow, StoreModel, WatchedModel, WatchedRow,
};
use crate::table::{
    any, distinct, first, first_or_none, keys_stay_distinct, put, put_new, putting_leaves_the_rest,
    stands_at, those_are_tallied, what_is_put_is_found, Row,
};
use crate::types::{BitcoinNetwork, BlockHash};

verus! {

// ---------------------------------------------------------------------------
// Blocks and checkpoints
// ---------------------------------------------------------------------------

/// A block that is recorded is the one on record at its height on its network, and no other
/// height or network changes.
pub proof fn a_block_is_on_record_at_its_height(
    s: StoreModel,
    net: BitcoinNetwork,
    height: u32,
    hash: BlockHash,
    other: BitcoinNetwork,
    at: u32,
)
    requires
        distinct::<BlockRow>(s.blocks),
    ensures
        ({
            let t = StoreModel {
                blocks: put::<BlockRow>(s.blocks, BlockRow { network: net, height, hash }),
                ..s
            };
            &&& t.block_at(net, height) == Some(hash)
            &&& other != net || at != height ==> t.block_at(other, at) == s.block_at(other, at)
        }),
{
    let row = BlockRow { network: net, height, hash };
    let p = |r: BlockRow| r.network == net && r.height == height;
    let q = |r: BlockRow| r.network == other && r.height == at;
    assert forall|r: BlockRow| #[trigger] p(r) <==> BlockRow::key(r) == BlockRow::key(row) by {}
    what_is_put_is_found::<BlockRow>(s.blocks, row, p);
    if other != net || at != height {
        assert forall|r: BlockRow| BlockRow::key(r) == BlockRow::key(row) implies !#[trigger] q(
            r,
        ) by {}
        putting_leaves_the_rest::<BlockRow>(s.blocks, row, q);
    }
}

/// A checkpoint is on record exactly where one was set for that network.
pub proof fn a_checkpoint_is_one_that_was_set(s: StoreModel, net: BitcoinNetwork)
    ensures
        s.checkpoint(net) is None <==> forall|i: int|
            0 <= i < s.checkpoints.len() ==> (#[trigger] s.checkpoints[i]).network != net,
        s.checkpoint(net) matches Some(a) ==> s.checkpoints.contains(
            CheckpointRow { network: net, anchor: a },
        ),
{
    let p = |r: CheckpointRow| r.network == net;
    first_or_none(s.checkpoints, p);
    if s.checkpoint(net) is None {
        assert forall|i: int| 0 <= i < s.checkpoints.len() implies (
        #[trigger] s.checkpoints[i]).network != net by {
            if s.checkpoints[i].network == net {
                assert(p(s.checkpoints[i]));
                assert(any(s.checkpoints, p));
            }
        }
    }
}

// ---------------------------------------------------------------------------
// Watched scripts
// ---------------------------------------------------------------------------

/// A script is watched exactly if it is on record for its network.
pub proof fn a_script_is_watched_on_its_network(s: StoreModel, net: BitcoinNetwork, script: Seq<u8>)
    ensures
        s.is_watched(net, script) <==> exists|i: int|
            0 <= i < s.watched.len() && (#[trigger] s.watched[i]).0.network == net
                && s.watched[i].0.script_pubkey == script,
{
    let p = |r: (WatchedModel, i64)| r.0.network == net && r.0.script_pubkey == script;
    if s.is_watched(net, script) {
        let i = choose|i: int| 0 <= i < s.watched.len() && p(#[trigger] s.watched[i]);
        assert(any(s.watched, p));
        assert(s.watched[i].0.network == net);
    }
    if exists|i: int|
        0 <= i < s.watched.len() && (#[trigger] s.watched[i]).0.network == net
            && s.watched[i].0.script_pubkey == script {
        let i = choose|i: int|
            0 <= i < s.watched.len() && (#[trigger] s.watched[i]).0.network == net
                && s.watched[i].0.script_pubkey == script;
        assert(p(s.watched[i]));
    }
}

/// Two requests for one script are one watch: from the lower of the two heights, a demo if
/// either is one, and first seen when it was.
pub proof fn two_watches_of_a_script_are_one(old: (WatchedModel, i64), w: WatchedModel)
    ensures
        ({
            let (m, seen) = watch_merged(old, w);
            &&& m.network == old.0.network
            &&& m.script_pubkey == old.0.script_pubkey
            &&& m.scan_from_height <= old.0.scan_from_height
            &&& m.scan_from_height <= w.scan_from_height
            &&& m.scan_from_height == old.0.scan_from_height || m.scan_from_height
                == w.scan_from_height
            &&& m.is_public_demo <==> old.0.is_public_demo || w.is_public_demo
            &&& seen == old.1
        }),
{
}

/// A script that is asked for is watched afterwards, and no other script stops being or
/// begins to be.
pub proof fn what_is_asked_for_is_watched(
    rows: Seq<(WatchedModel, i64)>,
    w: WatchedModel,
    now_ms: i64,
    net: BitcoinNetwork,
    script: Seq<u8>,
)
    ensures
        ({
            let after = watch_added(rows, w, now_ms);
            let is_there = |rows: Seq<(WatchedModel, i64)>|
                exists|i: int|
                    0 <= i < rows.len() && (#[trigger] rows[i]).0.network == net
                        && rows[i].0.script_pubkey == script;
            &&& w.network == net && w.script_pubkey == script ==> is_there(after)
            &&& !(w.network == net && w.script_pubkey == script) ==> (is_there(after) <==> is_there(
                rows,
            ))
            &&& after.len() <= rows.len() + 1
        }),
{
    let p = |r: (WatchedModel, i64)|
        r.0.network == w.network && r.0.script_pubkey == w.script_pubkey;
    first_or_none(rows, p);
    let after = watch_added(rows, w, now_ms);
    let m = match first(rows, p) {
        Some(r) => watch_merged(r, w),
        None => (w, now_ms),
    };
    assert(m.0.network == w.network && m.0.script_pubkey == w.script_pubkey);
    assert(after == put::<WatchedRow>(rows, m));
    put_puts(rows, m, net, script);
}

proof fn put_puts(
    rows: Seq<(WatchedModel, i64)>,
    m: (WatchedModel, i64),
    net: BitcoinNetwork,
    script: Seq<u8>,
)
    ensures
        ({
            let after = put::<WatchedRow>(rows, m);
            let is_there = |rows: Seq<(WatchedModel, i64)>|
                exists|i: int|
                    0 <= i < rows.len() && (#[trigger] rows[i]).0.network == net
                        && rows[i].0.script_pubkey == script;
            &&& m.0.network == net && m.0.script_pubkey == script ==> is_there(after)
            &&& !(m.0.network == net && m.0.script_pubkey == script) ==> (is_there(after)
                <==> is_there(rows))
            &&& after.len() <= rows.len() + 1
        }),
{
    let after = put::<WatchedRow>(rows, m);
    let k = if exists|i: int| stands_at::<WatchedRow>(rows, m, i) {
        choose|i: int| stands_at::<WatchedRow>(rows, m, i)
    } else {
        rows.len() as int
    };
    assert(after[k] == m);
    assert(forall|i: int| 0 <= i < rows.len() && i != k ==> after[i] == rows[i]);
    if !(m.0.network == net && m.0.script_pubkey == script) {
        if exists|i: int|
            0 <= i < after.len() && (#[trigger] after[i]).0.network == net
                && after[i].0.script_pubkey == script {
            let i = choose|i: int|
                0 <= i < after.len() && (#[trigger] after[i]).0.network == net
                    && after[i].0.script_pubkey == script;
            assert(i != k);
            assert(rows[i].0.network == net && rows[i].0.script_pubkey == script);
        }
        if exists|i: int|
            0 <= i < rows.len() && (#[trigger] rows[i]).0.network == net
                && rows[i].0.script_pubkey == script {
            let i = choose|i: int|
                0 <= i < rows.len() && (#[trigger] rows[i]).0.network == net
                    && rows[i].0.script_pubkey == script;
            if i == k {
                assert(WatchedRow::key(rows[k]) == WatchedRow::key(m));
            }
            assert(after[i].0.network == net && after[i].0.script_pubkey == script);
        }
    }
}

// ---------------------------------------------------------------------------
// Payments
// ---------------------------------------------------------------------------

/// A payment keeps its script watched while it is out of its block, or less deep under the
/// tip than was set.
pub proof fn a_payment_that_is_not_buried_is_shallow(
    s: StoreModel,
    net: BitcoinNetwork,
    script: Seq<u8>,
    tip: u32,
    deep: u32,
)
    ensures
        s.has_shallow_output(net, script, tip, deep) <==> exists|x: int|
            {
                &&& 0 <= x < s.outputs.len()
                &&& (#[trigger] s.outputs[x]).network == net
                &&& s.outputs[x].script_pubkey == script
                &&& s.outputs[x].block matches Some(b) ==> tip - b.height + 1 < deep
            },
{
    let p = |r: OutputModel|
        r.network == net && r.script_pubkey == script && (match r.block {
            None => true,
            Some(b) => b.height > tip + 1 - deep,
        });
    if s.has_shallow_output(net, script, tip, deep) {
        let x = choose|x: int| 0 <= x < s.outputs.len() && p(#[trigger] s.outputs[x]);
        assert(any(s.outputs, p));
        assert(s.outputs[x].network == net);
    }
    if exists|x: int|
        {
            &&& 0 <= x < s.outputs.len()
            &&& (#[trigger] s.outputs[x]).network == net
            &&& s.outputs[x].script_pubkey == script
            &&& s.outputs[x].block matches Some(b) ==> tip - b.height + 1 < deep
        } {
        let x = choose|x: int|
            {
                &&& 0 <= x < s.outputs.len()
                &&& (#[trigger] s.outputs[x]).network == net
                &&& s.outputs[x].script_pubkey == script
                &&& s.outputs[x].block matches Some(b) ==> tip - b.height + 1 < deep
            };
        assert(p(s.outputs[x]));
    }
}

/// A payment may be asserted deeper while it is in a block below the tip, and less is
/// asserted of it than the ceiling.
pub proof fn which_payments_may_go_deeper(
    o: OutputModel,
    net: BitcoinNetwork,
    tip: u32,
    max: u32,
)
    requires
        tip > 0,
    ensures
        may_go_deeper(o, net, tip, max) <==> (o.network == net && o.deep_published < max && (
        o.block matches Some(b) && b.height < tip)),
{
}

// ---------------------------------------------------------------------------
// Interests
// ---------------------------------------------------------------------------

/// A script has as many watchers as there are requesters whose last request is for it: none,
/// exactly if nobody wants it.
pub proof fn a_script_has_watchers_while_someone_wants_it(
    s: StoreModel,
    net: BitcoinNetwork,
    script: Seq<u8>,
)
    ensures
        s.watchers(net, script) == 0 <==> forall|i: int|
            0 <= i < s.interests.len() && (#[trigger] s.interests[i]).network == net
                && s.interests[i].script_pubkey == script ==> !s.interests[i].watching,
{
    let p = |r: InterestModel| r.network == net && r.script_pubkey == script && r.watching;
    those_are_tallied(s.interests, p);
    if s.watchers(net, script) == 0 {
        assert forall|i: int|
            0 <= i < s.interests.len() && (#[trigger] s.interests[i]).network == net
                && s.interests[i].script_pubkey == script implies !s.interests[i].watching by {
            if s.interests[i].watching {
                assert(p(s.interests[i]));
            }
        }
    }
    if any(s.interests, p) {
        let i = choose|i: int| 0 <= i < s.interests.len() && p(#[trigger] s.interests[i]);
        assert(s.interests[i].watching);
    }
}

/// A moment is what it says, up to the highest that is kept.
pub proof fn a_moment_is_what_it_says(ms: u64)
    ensures
        ms < 0x8000_0000_0000_0000 ==> stamp(ms) == ms,
        ms >= 0x8000_0000_0000_0000 ==> stamp(ms) == 0x7fff_ffff_ffff_ffff,
{
}

/// A requester that has as many watches as it may have is refused another, and nothing
/// changes; one that has fewer gets it.
pub proof fn watches_are_limited(
    s: StoreModel,
    net: BitcoinNetwork,
    script: Seq<u8>,
    ghostkey: Seq<u8>,
    request_ms: u64,
    max: nat,
    now_ms: i64,
)
    requires
        s.interest(net, script, ghostkey) is None,
    ensures
        ({
            let (after, change) = interest_set(
                s,
                net,
                script,
                ghostkey,
                true,
                request_ms,
                max,
                now_ms,
            );
            &&& s.held(ghostkey, true) >= max ==> change == InterestChange::OverCap && after
                == s.interests
            &&& s.held(ghostkey, true) < max ==> change == InterestChange::Watching
        }),
{
}

/// A request that is recorded is the requester's last about that script: what it wants, when
/// it was made and when it was recorded.
pub proof fn a_request_is_recorded_as_it_was_made(
    s: StoreModel,
    net: BitcoinNetwork,
    script: Seq<u8>,
    ghostkey: Seq<u8>,
    watching: bool,
    request_ms: u64,
    max: nat,
    now_ms: i64,
)
    requires
        distinct::<InterestRow>(s.interests),
        s.held(ghostkey, true) < max,
        s.held(ghostkey, false) < max,
        s.interest(net, script, ghostkey) matches Some(r) ==> r.request_ms < stamp(request_ms),
        ghostkey.len() > 0,
    ensures
        ({
            let (after, change) = interest_set(
                s,
                net,
                script,
                ghostkey,
                watching,
                request_ms,
                max,
                now_ms,
            );
            let t = StoreModel { interests: after, ..s };
            &&& t.interest(net, script, ghostkey) == Some(
                InterestModel {
                    network: net,
                    script_pubkey: script,
                    ghostkey,
                    watching,
                    request_ms: stamp(request_ms),
                    recorded_ms: now_ms,
                },
            )
            &&& watching ==> change == InterestChange::Watching
            &&& !watching && s.interest(net, script, ghostkey) is None ==> change
                == InterestChange::Unchanged
            &&& !watching && (s.interest(net, script, ghostkey) matches Some(r) && !r.watching)
                ==> change == InterestChange::Unchanged
            &&& !watching && (s.interest(net, script, ghostkey) matches Some(r) && r.watching)
                ==> change == (InterestChange::Withdrawn { last: t.watchers(net, script) == 0 })
        }),
{
    let row = InterestModel {
        network: net,
        script_pubkey: script,
        ghostkey,
        watching,
        request_ms: stamp(request_ms),
        recorded_ms: now_ms,
    };
    let own = InterestModel {
        network: net,
        script_pubkey: script,
        ghostkey: Seq::empty(),
        watching: true,
        request_ms: 0,
        recorded_ms: now_ms,
    };
    let p = |r: InterestModel|
        r.network == net && r.script_pubkey == script && r.ghostkey == ghostkey;
    keys_stay_distinct::<InterestRow>(s.interests, own);
    what_is_put_is_found::<InterestRow>(s.interests, row, p);
    what_is_put_is_found::<InterestRow>(put_new::<InterestRow>(s.interests, own), row, p);
}

/// A watch that is ended is one no longer, from now on, and keeps the moment of its request;
/// no other interest changes.
pub proof fn only_the_watch_that_is_named_ends(
    r: InterestModel,
    net: BitcoinNetwork,
    script: Seq<u8>,
    ghostkey: Seq<u8>,
    now_ms: i64,
)
    ensures
        ({
            let t = ended(r, net, script, ghostkey, now_ms);
            &&& r.network == net && r.script_pubkey == script && r.ghostkey == ghostkey
                ==> !t.watching && t.request_ms == r.request_ms
            &&& r.network == net && r.script_pubkey == script && r.ghostkey == ghostkey
                && r.watching ==> t.recorded_ms == now_ms
            &&& !(r.network == net && r.script_pubkey == script && r.ghostkey == ghostkey) ==> t
                == r
            &&& !r.watching ==> t == r
            &&& t.network == r.network && t.script_pubkey == r.script_pubkey && t.ghostkey
                == r.ghostkey
        }),
{
}

/// A watch has run out exactly if a Ghost Key asked for it on that network, it stands, and it
/// was recorded before the cutoff.
pub proof fn when_a_watch_has_run_out(r: InterestModel, net: BitcoinNetwork, cutoff_ms: i64)
    ensures
        ran_out(r, net, cutoff_ms) <==> r.watching && r.network == net && r.ghostkey.len() > 0
            && r.recorded_ms < cutoff_ms,
{
}

// ---------------------------------------------------------------------------
// The inbox and pointers
// ---------------------------------------------------------------------------

/// An entry that is recorded as read is read, and no other becomes so; each counts once.
pub proof fn an_entry_that_is_read_is_on_record(
    s: StoreModel,
    m: HandledModel,
    key: [u8; 32],
)
    ensures
        ({
            let t = StoreModel { handled: put_new::<HandledRow>(s.handled, m), ..s };
            &&& t.is_handled(m.entry_key@)
            &&& key != m.entry_key ==> (t.is_handled(key@) <==> s.is_handled(key@))
            &&& s.is_handled(m.entry_key@) ==> t.handled == s.handled
            &&& !s.is_handled(m.entry_key@) ==> t.handled == s.handled.push(m)
        }),
{
    let t = StoreModel { handled: put_new::<HandledRow>(s.handled, m), ..s };
    let p = |k: Seq<u8>| (|r: HandledModel| r.entry_key@ == k);
    let same = exists|i: int| stands_at::<HandledRow>(s.handled, m, i);
    if same {
        let i = choose|i: int| stands_at::<HandledRow>(s.handled, m, i);
        assert(s.handled[i].entry_key@ == m.entry_key@);
        assert(t.handled[i].entry_key@ == m.entry_key@);
    } else {
        assert(t.handled[s.handled.len() as int] == m);
        if s.is_handled(m.entry_key@) {
            let i = choose|i: int|
                0 <= i < s.handled.len() && (#[trigger] s.handled[i]).entry_key@ == m.entry_key@;
            assert(stands_at::<HandledRow>(s.handled, m, i));
        }
        if t.is_handled(key@) && key != m.entry_key {
            let i = choose|i: int|
                0 <= i < t.handled.len() && (#[trigger] t.handled[i]).entry_key@ == key@;
            arr32_of_view(key);
            arr32_of_view(m.entry_key);
            assert(i < s.handled.len());
            assert(s.handled[i].entry_key@ == key@);
        }
        if s.is_handled(key@) {
            let i = choose|i: int|
                0 <= i < s.handled.len() && (#[trigger] s.handled[i]).entry_key@ == key@;
            assert(t.handled[i].entry_key@ == key@);
        }
    }
}

/// What was last published for an app is what is on record for it, and no other app's
/// record changes.
pub proof fn a_pointer_is_on_record_for_its_app(
    rows: Seq<(Seq<char>, u32, [u8; 32])>,
    app: Seq<char>,
    version: u32,
    code: [u8; 32],
    p: spec_fn((Seq<char>, u32, [u8; 32])) -> bool,
    q: spec_fn((Seq<char>, u32, [u8; 32])) -> bool,
)
    requires
        distinct::<PointerRow>(rows),
        forall|m: (Seq<char>, u32, [u8; 32])| #[trigger] p(m) <==> m.0 == app,
        forall|m: (Seq<char>, u32, [u8; 32])| #[trigger] q(m) ==> m.0 != app,
    ensures
        first(put::<PointerRow>(rows, (app, version, code)), p) == Some((app, version, code)),
        first(put::<PointerRow>(rows, (app, version, code)), q) == first(rows, q),
{
    let m = (app, version, code);
    assert forall|x: (Seq<char>, u32, [u8; 32])| #[trigger] p(x) <==> PointerRow::key(x)
        == PointerRow::key(m) by {}
    what_is_put_is_found::<PointerRow>(rows, m, p);
    putting_leaves_the_rest::<PointerRow>(rows, m, q);
}

/// Withdrawals of what was never asked for are limited too: a requester that has as many on
/// record as it may have leaves no further, and one that has fewer does.
pub proof fn withdrawals_are_limited(
    s: StoreModel,
    net: BitcoinNetwork,
    script: Seq<u8>,
    ghostkey: Seq<u8>,
    request_ms: u64,
    max: nat,
    now_ms: i64,
)
    requires
        s.interest(net, script, ghostkey) is None,
    ensures
        ({
            let (after, change) = interest_set(
                s,
                net,
                script,
                ghostkey,
                false,
                request_ms,
                max,
                now_ms,
            );
            &&& change == InterestChange::Unchanged
            &&& s.held(ghostkey, false) >= max ==> after == s.interests
            &&& s.held(ghostkey, false) < max ==> after == put::<InterestRow>(
                s.interests,
                InterestModel {
                    network: net,
                    script_pubkey: script,
                    ghostkey,
                    watching: false,
                    request_ms: stamp(request_ms),
                    recorded_ms: now_ms,
                },
            )
        }),
{
}

/// A script that was watched before anyone asked for it gets an owner of its own with the
/// first that does, who never leaves; a script that was not, or that others want, gets none.
pub proof fn a_script_watched_before_keeps_its_owner(
    s: StoreModel,
    net: BitcoinNetwork,
    script: Seq<u8>,
    ghostkey: Seq<u8>,
    request_ms: u64,
    max: nat,
    now_ms: i64,
)
    requires
        s.interest(net, script, ghostkey) is None,
        s.held(ghostkey, true) < max,
    ensures
        ({
            let after = interest_set(s, net, script, ghostkey, true, request_ms, max, now_ms).0;
            let row = InterestModel {
                network: net,
                script_pubkey: script,
                ghostkey,
                watching: true,
                request_ms: stamp(request_ms),
                recorded_ms: now_ms,
            };
            let owner = InterestModel {
                network: net,
                script_pubkey: script,
                ghostkey: Seq::empty(),
                watching: true,
                request_ms: 0,
                recorded_ms: now_ms,
            };
            &&& s.watchers(net, script) == 0 && s.is_watched(net, script) ==> after == put::<
                InterestRow,
            >(put_new::<InterestRow>(s.interests, owner), row)
            &&& s.watchers(net, script) > 0 || !s.is_watched(net, script) ==> after == put::<
                InterestRow,
            >(s.interests, row)
        }),
{
}

/// A script is in doubt exactly if a payment to it on that network is on record in no block.
pub proof fn which_scripts_are_in_doubt(
    rows: Seq<OutputModel>,
    o: OutputModel,
    net: BitcoinNetwork,
    script: Seq<u8>,
)
    ensures
        !in_doubt(Seq::<OutputModel>::empty(), net, script),
        in_doubt(rows.push(o), net, script) <==> in_doubt(rows, net, script) || (o.network == net
            && o.block is None && o.script_pubkey == script),
{
    let more = rows.push(o);
    if in_doubt(more, net, script) {
        let k = choose|k: int|
            0 <= k < more.len() && (#[trigger] more[k]).network == net && more[k].block is None
                && more[k].script_pubkey == script;
        if k < rows.len() {
            assert(rows[k] == more[k]);
        }
    }
    if in_doubt(rows, net, script) {
        let k = choose|k: int|
            0 <= k < rows.len() && (#[trigger] rows[k]).network == net && rows[k].block is None
                && rows[k].script_pubkey == script;
        assert(more[k] == rows[k]);
    }
    assert(more[rows.len() as int] == o);
}

} // verus!
