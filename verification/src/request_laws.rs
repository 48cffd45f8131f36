//! What those who send requests to a bridge can rely on.
//!
//! A request within its limits is acted on, a watch lasts its day, and the inbox is cleared
//! of what was read. These laws say when each of these happens.

use vstd::prelude::*;

use crate::bytes::lex_before;
use crate::inbox::{
    acted_on, asked, burial, earlier, entry_before, expired, expiry, expiry_cutoff, floor_noted,
    floor_sent, floor_target, held_back, is_for, is_pass, looked_up, must_wait, out_of_window,
    prepared, read_all, read_at, read_one, reading, script_asked, tried, unscanned, waits,
    watch_ended, watch_height, watches_ended, with_one, Action, AskModel, Ended, EndingModel,
    EntryModel, Expiry, InboxLimits, Lag, LagCause, Pass, Processor, Reading, Tips, WriteFault,
};
use crate::store::{
    ended, interest_set, ran_out, run_out, run_out_is_what_ran_out, watch_added, HandledModel,
    InterestChange, InterestModel, StoreModel, WatchedModel,
};
use crate::table::{first, first_is_first, those, those_are_of_them};
use crate::types::BitcoinNetwork;

verus! {

// ---------------------------------------------------------------------------
// Limits
// ---------------------------------------------------------------------------

/// One sender may use a 64th of the removal budget.
pub proof fn a_sender_has_a_share_of_the_budget(limits: InboxLimits)
    ensures
        64 * limits.share() <= limits.removal_budget < 64 * limits.share() + 64,
{
}

/// An entry is looked at exactly if it is dated no lower than the floor and no further above
/// it than the window; before there is a floor every entry is.
pub proof fn entries_are_looked_at_within_the_window(
    known: Option<u32>,
    height: u32,
    limits: InboxLimits,
)
    ensures
        known is None ==> !out_of_window(known, height, limits),
        known matches Some(f) ==> (out_of_window(known, height, limits) <==> height < f || height
            - f > limits.window_blocks),
{
}

/// An entry has to wait exactly if the budget is spent, or its sender's share of it.
pub proof fn entries_wait_for_the_budget(s: StoreModel, ghostkey: Seq<u8>, limits: InboxLimits)
    ensures
        must_wait(s, ghostkey, limits) <==> s.handled.len() >= limits.removal_budget
            || s.handled_count_for(ghostkey) >= limits.removal_budget as nat / 64,
{
}

/// What is looked up for a network is the first that is listed for it.
pub proof fn what_is_looked_up_is_listed<T>(
    list: Seq<(BitcoinNetwork, T)>,
    net: BitcoinNetwork,
    i: int,
)
    requires
        0 <= i < list.len(),
        list[i].0 == net,
        forall|j: int| 0 <= j < i ==> (#[trigger] list[j]).0 != net,
    ensures
        looked_up(list, net) == Some(list[i].1),
{
    first_is_first(list, is_for::<T>(net), i);
}

/// Nothing is looked up for a network that is not listed.
pub proof fn what_is_not_listed_is_not_looked_up<T>(
    list: Seq<(BitcoinNetwork, T)>,
    net: BitcoinNetwork,
)
    requires
        forall|j: int| 0 <= j < list.len() ==> (#[trigger] list[j]).0 != net,
    ensures
        looked_up(list, net) is None,
{
    crate::table::nothing_is_first(list, is_for::<T>(net));
}

// ---------------------------------------------------------------------------
// Acting
// ---------------------------------------------------------------------------

/// An entry that is within the window, was not read before and need not wait is acted on and
/// recorded as read, and its height is one that removals are sent for.
pub proof fn a_new_entry_is_acted_on(
    r: Reading,
    e: EntryModel,
    known: Option<u32>,
    p: Processor<'_>,
    tips: Tips,
    now_ms: i64,
)
    requires
        known matches Some(f) ==> f <= e.height <= f + p.limits.window_blocks,
        !r.store.is_handled(e.key@),
        r.store.handled.len() < p.limits.removal_budget,
        r.store.handled_count_for(e.ghostkey@) < p.limits.removal_budget as nat / 64,
        acted_on(r.store, e, p, tips, now_ms).handled == r.store.handled,
    ensures
        ({
            let t = read_one(r, e, known, p, tips, now_ms);
            &&& t.acted == r.acted + 1
            &&& t.deferred == r.deferred
            &&& t.waiting == r.waiting
            &&& t.heights.contains(e.height)
            &&& t.store == (StoreModel {
                handled: r.store.handled.push(
                    HandledModel {
                        entry_key: e.key,
                        entry_height: e.height,
                        ghostkey: e.ghostkey@,
                    },
                ),
                ..acted_on(r.store, e, p, tips, now_ms)
            })
        }),
{
    let m = HandledModel { entry_key: e.key, entry_height: e.height, ghostkey: e.ghostkey@ };
    crate::store_laws::an_entry_that_is_read_is_on_record(r.store, m, e.key);
    let t = read_one(r, e, known, p, tips, now_ms);
    assert(t.heights == with_one(r.heights, e.height));
    if !r.heights.contains(e.height) {
        assert(t.heights[r.heights.len() as int] == e.height);
    }
}

/// An entry that has to wait is left as it is, and its sender is remembered as waiting.
pub proof fn an_entry_that_waits_is_left(
    r: Reading,
    e: EntryModel,
    known: Option<u32>,
    p: Processor<'_>,
    tips: Tips,
    now_ms: i64,
)
    requires
        known matches Some(f) ==> f <= e.height <= f + p.limits.window_blocks,
        !r.store.is_handled(e.key@),
        r.store.handled.len() >= p.limits.removal_budget || r.store.handled_count_for(e.ghostkey@)
            >= p.limits.removal_budget as nat / 64,
    ensures
        ({
            let t = read_one(r, e, known, p, tips, now_ms);
            &&& t.store == r.store
            &&& t.acted == r.acted
            &&& t.deferred == r.deferred + 1
            &&& t.waiting.contains(e.ghostkey)
            &&& t.heights == r.heights
        }),
{
    let t = read_one(r, e, known, p, tips, now_ms);
    if !r.waiting.contains(e.ghostkey) {
        assert(t.waiting[r.waiting.len() as int] == e.ghostkey);
    }
}

/// An entry that was read before has its removal sent again, and does nothing else.
pub proof fn an_entry_that_was_read_is_removed_again(
    r: Reading,
    e: EntryModel,
    known: Option<u32>,
    p: Processor<'_>,
    tips: Tips,
    now_ms: i64,
)
    requires
        known matches Some(f) ==> f <= e.height <= f + p.limits.window_blocks,
        r.store.is_handled(e.key@),
    ensures
        ({
            let t = read_one(r, e, known, p, tips, now_ms);
            &&& t == (Reading { heights: t.heights, ..r })
            &&& t.heights.contains(e.height)
            &&& forall|h: u32| h != e.height ==> (t.heights.contains(h) <==> r.heights.contains(h))
        }),
{
    let t = read_one(r, e, known, p, tips, now_ms);
    if !r.heights.contains(e.height) {
        assert(t.heights[r.heights.len() as int] == e.height);
        assert forall|h: u32| h != e.height implies (t.heights.contains(h) <==> r.heights.contains(
            h,
        )) by {
            if r.heights.contains(h) {
                let i = choose|i: int| 0 <= i < r.heights.len() && r.heights[i] == h;
                assert(t.heights[i] == h);
            }
            if t.heights.contains(h) {
                let i = choose|i: int| 0 <= i < t.heights.len() && t.heights[i] == h;
                assert(r.heights[i] == h);
            }
        }
    }
}

/// Entries are read one after the other, each of them.
pub proof fn every_entry_is_read_in_turn(
    r: Reading,
    es: Seq<EntryModel>,
    n: int,
    known: Option<u32>,
    p: Processor<'_>,
    tips: Tips,
    now_ms: i64,
)
    requires
        n >= 0,
    ensures
        read_all(r, es, 0, known, p, tips, now_ms) == r,
        read_all(r, es, n + 1, known, p, tips, now_ms) == read_one(
            read_all(r, es, n, known, p, tips, now_ms),
            es[n],
            known,
            p,
            tips,
            now_ms,
        ),
{
}

/// Entries are read by their height, and at one height by their key.
pub proof fn entries_are_read_by_height_and_key(a: EntryModel, b: EntryModel)
    ensures
        a.height < b.height ==> entry_before(a, b) && !entry_before(b, a),
        a.height == b.height ==> (entry_before(a, b) <==> lex_before(a.key@, b.key@)),
{
}

/// A request for a network that is not observed, or that cannot be read, changes nothing;
/// any other is acted on for each of its scripts.
pub proof fn each_script_of_a_request_is_acted_on(
    s: StoreModel,
    e: EntryModel,
    p: Processor<'_>,
    tips: Tips,
    now_ms: i64,
    n: int,
)
    requires
        n >= 0,
    ensures
        e.ask is None ==> acted_on(s, e, p, tips, now_ms) == s,
        e.ask matches Some(ask) ==> {
            let tip = watch_height(s, tips, ask.network);
            let max = p.max_watches_per_ghostkey as nat;
            &&& !p.observed@.contains(ask.network) ==> acted_on(s, e, p, tips, now_ms) == s
            &&& p.observed@.contains(ask.network) ==> acted_on(s, e, p, tips, now_ms) == asked(
                s,
                ask,
                ask.scripts.len() as int,
                e.ghostkey@,
                tip,
                max,
                now_ms,
            )
            &&& asked(s, ask, 0, e.ghostkey@, tip, max, now_ms) == s
            &&& asked(s, ask, n + 1, e.ghostkey@, tip, max, now_ms) == script_asked(
                asked(s, ask, n, e.ghostkey@, tip, max, now_ms),
                ask,
                ask.scripts[n],
                e.ghostkey@,
                tip,
                max,
                now_ms,
            )
        },
{
}

/// A watch that is granted makes the script one that is scanned, on its network and as no
/// demo, from the tip on; one that is not leaves what is scanned as it is. A withdrawal takes
/// the script out exactly if nobody wants it any more.
pub proof fn what_a_request_does_to_the_scan(
    s: StoreModel,
    ask: AskModel,
    script: Seq<u8>,
    ghostkey: Seq<u8>,
    tip: u32,
    max: nat,
    now_ms: i64,
)
    ensures
        ({
            let (interests, change) = interest_set(
                s,
                ask.network,
                script,
                ghostkey,
                ask.action == Action::Watch,
                ask.made_at_ms,
                max,
                now_ms,
            );
            let t = script_asked(s, ask, script, ghostkey, Some(tip), max, now_ms);
            &&& t.interests == interests
            &&& ask.action == Action::Watch && change == InterestChange::Watching ==> t.watched
                == watch_added(
                s.watched,
                WatchedModel {
                    network: ask.network,
                    script_pubkey: script,
                    scan_from_height: tip,
                    is_public_demo: false,
                },
                now_ms,
            )
            &&& ask.action == Action::Watch && change != InterestChange::Watching ==> t.watched
                == s.watched
            &&& ask.action == Action::Unwatch && !(change is Withdrawn) ==> t.watched == s.watched
            &&& ask.action == Action::Unwatch && (change matches InterestChange::Withdrawn { last }
                && !last) ==> t.watched == s.watched
            &&& ask.action == Action::Unwatch && (change matches InterestChange::Withdrawn { last }
                && last) ==> t.watched == unscanned(s, ask.network, script).watched
        }),
{
}

/// Taking a script out of the scan takes out the watches of that script on that network,
/// but for the operator's demos, and nothing else.
pub proof fn a_script_is_taken_out_of_the_scan(
    s: StoreModel,
    net: BitcoinNetwork,
    script: Seq<u8>,
    w: (WatchedModel, i64),
)
    ensures
        unscanned(s, net, script).watched.contains(w) <==> s.watched.contains(w) && (
        w.0.is_public_demo || w.0.network != net || w.0.script_pubkey != script),
        unscanned(s, net, script) == (StoreModel {
            watched: unscanned(s, net, script).watched,
            ..s
        }),
{
    let p = |r: (WatchedModel, i64)|
        !(r.0.network == net && r.0.script_pubkey == script && !r.0.is_public_demo);
    those_are_of_them(s.watched, p);
    assert(p(w) == (w.0.is_public_demo || w.0.network != net || w.0.script_pubkey != script));
}

/// A watch starts at the tip of its network, or where the scan has come to if that is not
/// known.
pub proof fn a_watch_starts_at_the_tip(s: StoreModel, tips: Tips, net: BitcoinNetwork)
    ensures
        looked_up(tips.by_network@, net) matches Some(h) ==> watch_height(s, tips, net) == Some(h),
        looked_up(tips.by_network@, net) is None ==> (s.checkpoint(net) matches Some(a)
            ==> watch_height(s, tips, net) == Some(a.height)),
        looked_up(tips.by_network@, net) is None && s.checkpoint(net) is None ==> watch_height(
            s,
            tips,
            net,
        ) is None,
{
}

// ---------------------------------------------------------------------------
// Ending
// ---------------------------------------------------------------------------

/// A watch lasts a day: it ends only if it was recorded more than a day ago by the host's
/// clock, and more than a day and two hours ago by the chain's.
pub proof fn a_watch_lasts_its_day(now_ms: i64, median_ms: i64, recorded_ms: i64)
    requires
        now_ms >= 0,
        median_ms >= 0,
        recorded_ms >= 0,
    ensures
        recorded_ms < expiry_cutoff(now_ms, median_ms) <==> now_ms - recorded_ms > 86_400_000
            && median_ms - recorded_ms > 93_600_000,
        earlier(now_ms, 1000) == now_ms - 1000,
{
}

/// A watch that has run out is due to end exactly when its network has been scanned to the
/// very tip of a node that has caught up.
pub proof fn a_watch_that_ran_out_is_due(
    s: StoreModel,
    net: BitcoinNetwork,
    tips: Tips,
    now_ms: i64,
    tip: u32,
    median: i64,
    k: int,
)
    requires
        looked_up(tips.by_network@, net) == Some(tip),
        looked_up(tips.median_time_ms@, net) == Some(median),
        !tips.syncing@.contains(net),
        s.checkpoint(net) matches Some(a) && a.height == tip,
        0 <= k < s.interests.len(),
        s.interests[k].network == net,
        s.interests[k].watching,
        s.interests[k].ghostkey.len() > 0,
        s.interests[k].recorded_ms < expiry_cutoff(now_ms, median),
    ensures
        expiry(s, net, tips, now_ms) matches Expiry::Due(t, out) && t == tip && out.contains(
            (s.interests[k].script_pubkey, s.interests[k].ghostkey),
        ),
{
    let cutoff = expiry_cutoff(now_ms, median);
    let p = |r: InterestModel| ran_out(r, net, cutoff);
    let f = |r: InterestModel| (r.script_pubkey, r.ghostkey);
    let sel = those(s.interests, p);
    let out = run_out(s, net, cutoff);
    run_out_is_what_ran_out(s, net, cutoff);
    those_are_of_them(s.interests, p);
    assert(s.interests.contains(s.interests[k]));
    assert(sel.contains(s.interests[k]));
    let j = choose|j: int| 0 <= j < sel.len() && sel[j] == s.interests[k];
    let pairs = sel.map_values(f);
    assert(pairs[j] == (s.interests[k].script_pubkey, s.interests[k].ghostkey));
    pairs.to_multiset_ensures();
    out.to_multiset_ensures();
    assert(pairs.contains(pairs[j]));
    assert(pairs.to_multiset().contains(pairs[j]));
    assert(out.to_multiset().contains(pairs[j]));
    assert(out.contains(pairs[j]));
}

/// Nothing ends where the network's tip or time is not known, where its node is catching up,
/// or where the scan is not at the tip.
pub proof fn nothing_ends_while_the_scan_is_behind(
    s: StoreModel,
    net: BitcoinNetwork,
    tips: Tips,
    now_ms: i64,
)
    ensures
        looked_up(tips.by_network@, net) is None ==> !(expiry(s, net, tips, now_ms) is Due),
        looked_up(tips.median_time_ms@, net) is None ==> !(expiry(s, net, tips, now_ms) is Due),
        tips.syncing@.contains(net) ==> !(expiry(s, net, tips, now_ms) is Due),
        s.checkpoint(net) is None ==> !(expiry(s, net, tips, now_ms) is Due),
        s.checkpoint(net) matches Some(a) ==> (looked_up(tips.by_network@, net) matches Some(t)
            ==> a.height != t ==> !(expiry(s, net, tips, now_ms) is Due)),
{
}

/// A watch that is due ends unless a payment to its script is still being buried. Then its
/// script is scanned no more exactly if nobody else wants it.
pub proof fn a_watch_ends_once_its_payments_are_buried(
    s: StoreModel,
    net: BitcoinNetwork,
    script: Seq<u8>,
    ghostkey: Seq<u8>,
    tip: u32,
    deep: u32,
    now_ms: i64,
    x: int,
)
    requires
        0 <= x < s.interests.len(),
    ensures
        ({
            let t = watch_ended(s, net, script, ghostkey, tip, deep, now_ms);
            let r = s.interests[x];
            &&& s.has_shallow_output(net, script, tip, deep) ==> t == s
            &&& !s.has_shallow_output(net, script, tip, deep) ==> {
                &&& t.interests.len() == s.interests.len()
                &&& r.network == net && r.script_pubkey == script && r.ghostkey == ghostkey
                    ==> !t.interests[x].watching
                &&& !(r.network == net && r.script_pubkey == script && r.ghostkey == ghostkey)
                    ==> t.interests[x] == r
                &&& t.watchers(net, script) > 0 ==> t.watched == s.watched
                &&& t.watchers(net, script) == 0 ==> t.watched == unscanned(
                    s,
                    net,
                    script,
                ).watched
            }
        }),
{
    let f = |r: InterestModel| ended(r, net, script, ghostkey, now_ms);
    assert(s.interests.map_values(f)[x] == f(s.interests[x]));
    let t = watch_ended(s, net, script, ghostkey, tip, deep, now_ms);
    let u = StoreModel { interests: s.interests.map_values(f), ..s };
    assert(t.interests == u.interests || s.has_shallow_output(net, script, tip, deep));
    assert(unscanned(u, net, script).watched == unscanned(s, net, script).watched);
}

/// Every watch that is due is ended in its turn, but for those of senders that are waiting to
/// be read.
pub proof fn every_watch_that_is_due_is_ended(
    s: StoreModel,
    net: BitcoinNetwork,
    out: Seq<(Seq<u8>, Seq<u8>)>,
    n: int,
    waiting: Seq<[u8; 32]>,
    tip: u32,
    deep: u32,
    now_ms: i64,
)
    requires
        n >= 0,
    ensures
        watches_ended(s, net, out, 0, waiting, tip, deep, now_ms) == s,
        ({
            let before = watches_ended(s, net, out, n, waiting, tip, deep, now_ms);
            let after = watches_ended(s, net, out, n + 1, waiting, tip, deep, now_ms);
            &&& (exists|i: int| 0 <= i < waiting.len() && (#[trigger] waiting[i])@ == out[n].1)
                ==> after == before
            &&& !(exists|i: int| 0 <= i < waiting.len() && (#[trigger] waiting[i])@ == out[n].1)
                ==> after == watch_ended(before, net, out[n].0, out[n].1, tip, deep, now_ms)
        }),
{
    assert(waits(waiting, out[n].1) <==> exists|i: int|
        0 <= i < waiting.len() && (#[trigger] waiting[i])@ == out[n].1);
}

/// Each observed network is looked at in its turn: where watches are due there they end, and
/// where something has to be waited for that is said.
pub proof fn every_observed_network_is_looked_at(
    s: StoreModel,
    p: Processor<'_>,
    n: int,
    tips: Tips,
    now_ms: i64,
    waiting: Seq<[u8; 32]>,
)
    requires
        n >= 0,
    ensures
        expired(s, p, 0, tips, now_ms, waiting) == s,
        held_back(s, p, 0, tips, now_ms, waiting).len() == 0,
        ({
            let before = expired(s, p, n, tips, now_ms, waiting);
            let after = expired(s, p, n + 1, tips, now_ms, waiting);
            let net = p.observed@[n];
            let lags = held_back(s, p, n, tips, now_ms, waiting);
            let more = held_back(s, p, n + 1, tips, now_ms, waiting);
            match expiry(before, net, tips, now_ms) {
                Expiry::Due(tip, out) => after == watches_ended(
                    before,
                    net,
                    out,
                    out.len() as int,
                    waiting,
                    tip,
                    burial(p, net),
                    now_ms,
                ) && more == lags,
                Expiry::Syncing => after == before && more == lags.push(
                    Lag { network: net, cause: LagCause::Node },
                ),
                Expiry::Behind(b) => after == before && more == lags.push(
                    Lag { network: net, cause: LagCause::Observer(b) },
                ),
                _ => after == before && more == lags,
            }
        }),
{
}

/// How deep a payment must be on a network is what the operator set for it; where nothing is
/// set, no payment is ever deep enough.
pub proof fn how_deep_a_payment_must_be(p: Processor<'_>, net: BitcoinNetwork)
    ensures
        looked_up(p.deep_confirmations@, net) matches Some(d) ==> burial(p, net) == d,
        looked_up(p.deep_confirmations@, net) is None ==> burial(p, net) == 0xffff_ffff,
{
}

/// What is tried is done with, and tried again in a later pass if it could not be written or
/// the scan had moved; records that are busy stop the trying.
pub proof fn what_is_tried_is_done_with(e: EndingModel, what: Result<Ended, WriteFault>)
    ensures
        ({
            let t = tried(e, what);
            &&& t == (EndingModel { at: t.at, retry: t.retry, stopped: t.stopped, ..e })
            &&& t.at == e.at + 1
            &&& what == Ok::<Ended, WriteFault>(Ended::Ended) ==> t.retry == e.retry && t.stopped
                == e.stopped
            &&& what == Ok::<Ended, WriteFault>(Ended::Kept) ==> t.retry == e.retry && t.stopped
                == e.stopped
            &&& what == Ok::<Ended, WriteFault>(Ended::Unscanned) ==> t.retry && t.stopped
                == e.stopped
            &&& what == Err::<Ended, WriteFault>(WriteFault::Other) ==> t.retry && t.stopped
                == e.stopped
            &&& what == Err::<Ended, WriteFault>(WriteFault::Busy) ==> t.retry && t.stopped
        }),
{
}

// ---------------------------------------------------------------------------
// Floors and removals
// ---------------------------------------------------------------------------

/// The floor follows the tip at its distance, and never falls: it is the higher of what is
/// known and of the tip less the lag. It stays where it is while it is held, or while the tip
/// is not known.
pub proof fn the_floor_follows_the_tip(known: Option<u32>, tip: u32, limits: InboxLimits)
    ensures
        floor_target(known, None, false, limits) == known,
        floor_target(known, Some(tip), true, limits) == known,
        ({
            let t = floor_target(known, Some(tip), false, limits);
            &&& t is Some
            &&& tip >= limits.floor_lag_blocks ==> t->Some_0 >= tip - limits.floor_lag_blocks
            &&& known matches Some(f) ==> t->Some_0 >= f
            &&& known is None ==> t->Some_0 == (if tip >= limits.floor_lag_blocks {
                tip - limits.floor_lag_blocks
            } else {
                0
            })
            &&& known matches Some(f) ==> t->Some_0 == f || t->Some_0 == tip
                - limits.floor_lag_blocks
        }),
{
}

/// A floor is sent exactly if it is higher than the one that the inbox carries.
pub proof fn a_floor_is_sent_if_it_rises(
    known: Option<u32>,
    floor: Option<u32>,
    tip: Option<u32>,
    held: bool,
    limits: InboxLimits,
)
    ensures
        ({
            let target = floor_target(known, tip, held, limits);
            let sent = floor_sent(known, floor, tip, held, limits);
            &&& target is None ==> sent is None
            &&& target matches Some(t) ==> {
                &&& floor is None ==> sent == Some(t)
                &&& floor matches Some(cur) ==> (t > cur ==> sent == Some(t)) && (t <= cur
                    ==> sent is None)
            }
        }),
{
}

/// The floor that is remembered is the highest that was noted.
pub proof fn the_highest_floor_is_remembered(s: StoreModel, height: u32)
    ensures
        floor_noted(s, height).floor matches Some(f) && f >= height && (s.floor matches Some(g)
            ==> f >= g && (f == g || f == height)),
        s.floor is None ==> floor_noted(s, height).floor == Some(height),
        floor_noted(s, height) == (StoreModel { floor: floor_noted(s, height).floor, ..s }),
{
}

/// Before an inbox is read its floor is noted, entries below the floor are forgotten, and so
/// are withdrawals that are more than a day old; nothing else is.
pub proof fn what_is_forgotten_before_reading(
    s: StoreModel,
    floor: Option<u32>,
    now_ms: i64,
    h: HandledModel,
    r: InterestModel,
)
    requires
        now_ms >= 0,
    ensures
        ({
            let t = prepared(s, floor, now_ms);
            &&& t.floor == (match floor {
                Some(f) => floor_noted(s, f).floor,
                None => s.floor,
            })
            &&& t.handled.contains(h) <==> s.handled.contains(h) && (t.floor matches Some(f)
                ==> h.entry_height >= f)
            &&& t.interests.contains(r) <==> s.interests.contains(r) && (r.watching
                || r.recorded_ms >= now_ms - 86_400_000)
            &&& t.watched == s.watched
            &&& t.checkpoints == s.checkpoints
            &&& t.outputs == s.outputs
            &&& t.blocks == s.blocks
            &&& t.published == s.published
        }),
{
    let a = match floor {
        Some(f) => floor_noted(s, f),
        None => s,
    };
    if let Some(f) = a.floor {
        let p = |r: HandledModel| r.entry_height >= f;
        those_are_of_them(a.handled, p);
        assert(p(h) == (h.entry_height >= f));
    }
    let cutoff = (now_ms - 86_400_000) as i64;
    let q = |r: InterestModel| r.watching || r.recorded_ms >= cutoff;
    those_are_of_them(a.interests, q);
    assert(q(r) == (r.watching || r.recorded_ms >= cutoff));
}

/// The removals that are sent for a height are all of the entries read at it.
pub proof fn removals_are_of_all_that_was_read(s: StoreModel, height: u32, key: [u8; 32])
    ensures
        read_at(s, height).contains(key) <==> exists|i: int|
            0 <= i < s.handled.len() && (#[trigger] s.handled[i]).entry_height == height
                && s.handled[i].entry_key == key,
{
    let p = |r: HandledModel| r.entry_height == height;
    let f = |r: HandledModel| r.entry_key;
    let sel = those(s.handled, p);
    those_are_of_them(s.handled, p);
    let all = read_at(s, height);
    assert(all =~= sel.map_values(f));
    if all.contains(key) {
        let j = choose|j: int| 0 <= j < all.len() && all[j] == key;
        assert(sel.contains(sel[j]));
        let i = choose|i: int| 0 <= i < s.handled.len() && s.handled[i] == sel[j];
        assert(s.handled[i].entry_height == height);
    }
    if exists|i: int|
        0 <= i < s.handled.len() && (#[trigger] s.handled[i]).entry_height == height
            && s.handled[i].entry_key == key {
        let i = choose|i: int|
            0 <= i < s.handled.len() && (#[trigger] s.handled[i]).entry_height == height
                && s.handled[i].entry_key == key;
        assert(s.handled.contains(s.handled[i]));
        assert(sel.contains(s.handled[i]));
        let j = choose|j: int| 0 <= j < sel.len() && sel[j] == s.handled[i];
        assert(all[j] == key);
    }
}

/// Where neither the node nor the record gives a height, a watch starts above every block:
/// nothing that came before is scanned for it.
pub proof fn a_watch_without_a_height_looks_back_at_nothing(
    s: StoreModel,
    ask: AskModel,
    script: Seq<u8>,
    ghostkey: Seq<u8>,
    max: nat,
    now_ms: i64,
)
    ensures
        script_asked(s, ask, script, ghostkey, None, max, now_ms) == script_asked(
            s,
            ask,
            script,
            ghostkey,
            Some(0xffff_ffffu32),
            max,
            now_ms,
        ),
{
}

/// What a pass reports is what it did: how much it acted on and left, every removal under its
/// height, and the floor that it sends and remembers. A pass whose floor is held ends no
/// watch and is to be repeated; any other is to be repeated exactly if something held it
/// back.
pub proof fn what_a_pass_reports(
    before: StoreModel,
    after: StoreModel,
    pass: Pass,
    floor: Option<u32>,
    es: Seq<EntryModel>,
    p: Processor<'_>,
    tips: Tips,
    now_ms: i64,
    held: bool,
    i: int,
)
    requires
        is_pass(before, after, pass, floor, es, p, tips, now_ms, held),
    ensures
        ({
            let r = reading(before, floor, es, p, tips, now_ms);
            let known = prepared(before, floor, now_ms).floor;
            let sent = floor_sent(known, floor, tips.height(BitcoinNetwork::Bitcoin), held, p.limits);
            let read = match sent {
                Some(t) => floor_noted(r.store, t),
                None => r.store,
            };
            let n = p.observed@.len() as int;
            &&& pass.acted == r.acted
            &&& pass.deferred == r.deferred
            &&& pass.waiting@ == r.waiting
            &&& pass.delta.floor == sent
            &&& pass.delta.removals@.len() == r.heights.len()
            &&& 0 <= i < r.heights.len() ==> pass.delta.removals@[i].0 == r.heights[i]
                && pass.delta.removals@[i].1@ == read_at(r.store, r.heights[i])
            &&& held ==> after == read && pass.lags@.len() == 0 && pass.gated
            &&& !held ==> after == expired(read, p, n, tips, now_ms, r.waiting) && pass.lags@
                == held_back(read, p, n, tips, now_ms, r.waiting) && (pass.gated <==> pass.lags@.len()
                > 0)
        }),
{
}

/// A pass reads the entries one after the other, from what the inbox's floor leaves of the
/// record, and starts with nothing done.
pub proof fn how_a_pass_reads(
    s: StoreModel,
    floor: Option<u32>,
    es: Seq<EntryModel>,
    e: EntryModel,
    p: Processor<'_>,
    tips: Tips,
    now_ms: i64,
)
    ensures
        ({
            let ready = prepared(s, floor, now_ms);
            let none = reading(s, floor, Seq::empty(), p, tips, now_ms);
            &&& none.store == ready
            &&& none.acted == 0 && none.deferred == 0
            &&& none.waiting.len() == 0 && none.heights.len() == 0
            &&& reading(s, floor, es.push(e), p, tips, now_ms) == read_one(
                reading(s, floor, es, p, tips, now_ms),
                e,
                ready.floor,
                p,
                tips,
                now_ms,
            )
        }),
{
    let ready = prepared(s, floor, now_ms);
    let start = Reading {
        store: ready,
        acted: 0,
        deferred: 0,
        waiting: Seq::empty(),
        heights: Seq::empty(),
    };
    let all = es.push(e);
    reading_ignores_what_comes_after(start, es, e, es.len() as int, ready.floor, p, tips, now_ms);
    assert(all[es.len() as int] == e);
}

proof fn reading_ignores_what_comes_after(
    r: Reading,
    es: Seq<EntryModel>,
    e: EntryModel,
    n: int,
    known: Option<u32>,
    p: Processor<'_>,
    tips: Tips,
    now_ms: i64,
)
    requires
        n <= es.len(),
    ensures
        read_all(r, es.push(e), n, known, p, tips, now_ms) == read_all(
            r,
            es,
            n,
            known,
            p,
            tips,
            now_ms,
        ),
    decreases n,
{
    if n > 0 {
        reading_ignores_what_comes_after(r, es, e, n - 1, known, p, tips, now_ms);
        assert(es.push(e)[n - 1] == es[n - 1]);
    }
}

/// There is a watch to end as long as some that are due have not been looked at, and the
/// records are not busy.
pub proof fn when_there_is_a_watch_to_end(e: EndingModel)
    ensures
        e.has_one() <==> e.at < e.due.len() && !e.stopped,
{
}

} // verus!
