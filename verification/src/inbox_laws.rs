//! What holds of a bridge's inbox whatever is sent to it, and in whatever order.

use vstd::prelude::*;

use crate::inbox::{
    acted_on, asked, expired, expiry, expiry_cutoff, floor_noted, floor_sent, floor_target,
    in_order, is_pass, looked_at, out_of_window, prepared, read_all, read_one, reading,
    script_asked, sought, tried, waits, watches_ended, MEDIAN_TIME_MARGIN_MS, WATCH_LIFETIME_MS,
    AskModel, Ended, EndingModel, EntryModel, Expiry, InboxLimits, Pass, Processor, Reading, Tips,
    WriteFault,
};
use crate::store::{
    interest_set, ran_out, run_out, run_out_is_what_ran_out, stamp, HandledModel,
    HandledRow, InterestChange, InterestModel, InterestRow,
    StoreModel,
};
use crate::table::{
    counts_agree, distinct, first_or_none, keys_stay_distinct, put, put_new,
    putting_adds_one_at_most, putting_leaves_the_count, putting_leaves_the_rest, tally, those,
    those_are_all, those_are_of_them, what_is_put_is_found, Row,
};
use crate::types::BitcoinNetwork;

verus! {

// ---------------------------------------------------------------------------
// What requests touch
// ---------------------------------------------------------------------------

/// Whether two stores differ in what is watched, and by whom, at most.
pub open spec fn same_but_watches(a: StoreModel, b: StoreModel) -> bool {
    a == StoreModel { watched: a.watched, interests: a.interests, ..b }
}

/// Acting on an entry changes what is watched, and by whom, and nothing else: no request
/// moves the scan, or touches what was seen or published.
pub proof fn a_request_changes_watches_only(
    s: StoreModel,
    e: EntryModel,
    p: Processor<'_>,
    tips: Tips,
    now_ms: i64,
)
    ensures
        same_but_watches(acted_on(s, e, p, tips, now_ms), s),
{
    if let Some(ask) = e.ask {
        asking_changes_watches_only(
            s,
            ask,
            ask.scripts.len() as int,
            e.ghostkey@,
            crate::inbox::watch_height(s, tips, ask.network),
            p.max_watches_per_ghostkey as nat,
            now_ms,
        );
    }
}

proof fn asking_changes_watches_only(
    s: StoreModel,
    ask: AskModel,
    n: int,
    ghostkey: Seq<u8>,
    tip: Option<u32>,
    max: nat,
    now_ms: i64,
)
    ensures
        same_but_watches(asked(s, ask, n, ghostkey, tip, max, now_ms), s),
    decreases n,
{
    if n > 0 {
        asking_changes_watches_only(s, ask, n - 1, ghostkey, tip, max, now_ms);
    }
}

proof fn ending_changes_watches_only(
    s: StoreModel,
    net: BitcoinNetwork,
    out: Seq<(Seq<u8>, Seq<u8>)>,
    n: int,
    waiting: Seq<[u8; 32]>,
    tip: u32,
    deep: u32,
    now_ms: i64,
)
    ensures
        same_but_watches(watches_ended(s, net, out, n, waiting, tip, deep, now_ms), s),
    decreases n,
{
    if n > 0 {
        ending_changes_watches_only(s, net, out, n - 1, waiting, tip, deep, now_ms);
    }
}

/// So does ending watches.
pub proof fn expiry_changes_watches_only(
    s: StoreModel,
    p: Processor<'_>,
    n: int,
    tips: Tips,
    now_ms: i64,
    waiting: Seq<[u8; 32]>,
)
    ensures
        same_but_watches(expired(s, p, n, tips, now_ms, waiting), s),
    decreases n,
{
    if n > 0 {
        expiry_changes_watches_only(s, p, n - 1, tips, now_ms, waiting);
        let before = expired(s, p, n - 1, tips, now_ms, waiting);
        let net = p.observed@[n - 1];
        if let Expiry::Due(tip, out) = expiry(before, net, tips, now_ms) {
            ending_changes_watches_only(
                before,
                net,
                out,
                out.len() as int,
                waiting,
                tip,
                crate::inbox::burial(p, net),
                now_ms,
            );
        }
    }
}

// ---------------------------------------------------------------------------
// Acting once
// ---------------------------------------------------------------------------

/// An entry that has been read is not acted on again, however often it is presented.
pub proof fn what_was_read_is_not_acted_on_again(
    r: Reading,
    e: EntryModel,
    known: Option<u32>,
    p: Processor<'_>,
    tips: Tips,
    now_ms: i64,
)
    requires
        r.store.is_handled(e.key@),
    ensures
        read_one(r, e, known, p, tips, now_ms).store == r.store,
        read_one(r, e, known, p, tips, now_ms).acted == r.acted,
{
}

/// Nor is one below the highest floor that the bridge is known to have signed, whatever
/// copy of the inbox presents it.
pub proof fn what_the_floor_has_passed_is_not_acted_on(
    r: Reading,
    e: EntryModel,
    floor: u32,
    p: Processor<'_>,
    tips: Tips,
    now_ms: i64,
)
    requires
        e.height < floor,
    ensures
        read_one(r, e, Some(floor), p, tips, now_ms) == r,
{
}

/// What is read once stays on record while a pass goes on.
pub proof fn what_was_read_stays_read(
    r: Reading,
    es: Seq<EntryModel>,
    n: int,
    known: Option<u32>,
    p: Processor<'_>,
    tips: Tips,
    now_ms: i64,
    key: Seq<u8>,
)
    requires
        r.store.is_handled(key),
    ensures
        read_all(r, es, n, known, p, tips, now_ms).store.is_handled(key),
    decreases n,
{
    if n > 0 {
        what_was_read_stays_read(r, es, n - 1, known, p, tips, now_ms, key);
        let before = read_all(r, es, n - 1, known, p, tips, now_ms);
        one_more_stays_read(before, es[n - 1], known, p, tips, now_ms, key);
    }
}

/// Whether heights rise.
pub open spec fn rise(hs: Seq<u32>) -> bool {
    forall|i: int, j: int| 0 <= i < j < hs.len() ==> (#[trigger] hs[i]) < (#[trigger] hs[j])
}

/// Two lists of rising heights are the same if the same heights are in them.
proof fn rising_heights_are_told_by_what_they_are(a: Seq<u32>, b: Seq<u32>)
    requires
        rise(a),
        rise(b),
        forall|h: u32| a.contains(h) <==> b.contains(h),
    ensures
        a == b,
    decreases a.len() + b.len(),
{
    if a.len() == 0 {
        if b.len() > 0 {
            assert(a.contains(b[0]));
        }
        assert(a =~= b);
    } else if b.len() == 0 {
        assert(b.contains(a[0]));
    } else {
        let x = a.last();
        let y = b.last();
        assert(a[a.len() - 1] == x && b[b.len() - 1] == y);
        let i = choose|i: int| 0 <= i < b.len() && b[i] == x;
        assert(b.contains(x));
        let j = choose|j: int| 0 <= j < a.len() && a[j] == y;
        assert(a.contains(y));
        assert(x == y);
        let c = a.drop_last();
        let d = b.drop_last();
        assert forall|h: u32| c.contains(h) <==> d.contains(h) by {
            if c.contains(h) {
                let k = choose|k: int| 0 <= k < c.len() && c[k] == h;
                assert(a[k] == h);
                assert(a.contains(h));
                let l = choose|l: int| 0 <= l < b.len() && b[l] == h;
                assert(d[l] == h);
            }
            if d.contains(h) {
                let k = choose|k: int| 0 <= k < d.len() && d[k] == h;
                assert(b[k] == h);
                assert(b.contains(h));
                let l = choose|l: int| 0 <= l < a.len() && a[l] == h;
                assert(c[l] == h);
            }
        }
        assert forall|i: int, j: int| 0 <= i < j < c.len() implies (#[trigger] c[i]) < (
        #[trigger] c[j]) by {
            assert(a[i] < a[j]);
        }
        assert forall|i: int, j: int| 0 <= i < j < d.len() implies (#[trigger] d[i]) < (
        #[trigger] d[j]) by {
            assert(b[i] < b[j]);
        }
        rising_heights_are_told_by_what_they_are(c, d);
        assert(a =~= c.push(x));
        assert(b =~= d.push(y));
    }
}

/// Whether an entry within the window stands at a height among the first `n`.
pub open spec fn is_presented(
    es: Seq<EntryModel>,
    n: int,
    known: Option<u32>,
    limits: InboxLimits,
    h: u32,
) -> bool {
    exists|i: int|
        0 <= i < n && (#[trigger] es[i]).height == h && !out_of_window(known, h, limits)
}

/// Where no entry had to wait, each of those within the window is on record afterwards, and
/// their heights are those that removals are sent for, from the lowest up.
proof fn what_does_not_wait_is_read(
    r: Reading,
    es: Seq<EntryModel>,
    n: int,
    known: Option<u32>,
    p: Processor<'_>,
    tips: Tips,
    now_ms: i64,
)
    requires
        0 <= n <= es.len(),
        in_order(es),
        r.heights.len() == 0,
        read_all(r, es, n, known, p, tips, now_ms).deferred == 0,
        known matches Some(f) ==> forall|i: int|
            0 <= i < r.store.handled.len() ==> (#[trigger] r.store.handled[i]).entry_height >= f,
    ensures
        ({
            let t = read_all(r, es, n, known, p, tips, now_ms);
            &&& forall|i: int|
                0 <= i < n && !out_of_window(known, (#[trigger] es[i]).height, p.limits)
                    ==> t.store.is_handled(es[i].key@)
            &&& forall|h: u32| #[trigger]
                t.heights.contains(h) <==> is_presented(es, n, known, p.limits, h)
            &&& rise(t.heights)
            &&& known matches Some(f) ==> forall|i: int|
                0 <= i < t.store.handled.len() ==> (#[trigger] t.store.handled[i]).entry_height >= f
        }),
    decreases n,
{
    if n > 0 {
        let b = read_all(r, es, n - 1, known, p, tips, now_ms);
        let t = read_all(r, es, n, known, p, tips, now_ms);
        let e = es[n - 1];
        what_does_not_wait_is_read(r, es, n - 1, known, p, tips, now_ms);
        a_request_changes_watches_only(b.store, e, p, tips, now_ms);
        assert forall|i: int|
            0 <= i < n && !out_of_window(
                known,
                (#[trigger] es[i]).height,
                p.limits,
            ) implies t.store.is_handled(es[i].key@) by {
            if i < n - 1 {
                one_more_stays_read(b, e, known, p, tips, now_ms, es[i].key@);
            } else if !b.store.is_handled(e.key@) {
                let rows = t.store.handled;
                let q = |h: HandledModel| h.entry_key@ == e.key@;
                if rows == b.store.handled {
                    let k = choose|k: int|
                        crate::table::stands_at::<HandledRow>(
                            b.store.handled,
                            HandledModel {
                                entry_key: e.key,
                                entry_height: e.height,
                                ghostkey: e.ghostkey@,
                            },
                            k,
                        );
                    assert(q(rows[k]));
                } else {
                    assert(q(rows[rows.len() - 1]));
                }
            }
        }
        assert forall|h: u32| #[trigger]
            t.heights.contains(h) <==> is_presented(es, n, known, p.limits, h) by {
            assert(b.heights.contains(h) <==> is_presented(es, n - 1, known, p.limits, h));
            if is_presented(es, n, known, p.limits, h) {
                let i = choose|i: int|
                    0 <= i < n && (#[trigger] es[i]).height == h && !out_of_window(
                        known,
                        h,
                        p.limits,
                    );
                if i < n - 1 {
                    assert(is_presented(es, n - 1, known, p.limits, h));
                    let k = choose|k: int| 0 <= k < b.heights.len() && b.heights[k] == h;
                    assert(t.heights[k] == h);
                } else if !b.heights.contains(h) {
                    assert(t.heights[t.heights.len() - 1] == h);
                }
            }
            if t.heights.contains(h) && !b.heights.contains(h) {
                assert(h == e.height);
            }
        }
        assert(rise(t.heights)) by {
            assert forall|i: int, j: int| 0 <= i < j < t.heights.len() implies (
            #[trigger] t.heights[i]) < (#[trigger] t.heights[j]) by {
                if j < b.heights.len() {
                    assert(b.heights[i] < b.heights[j]);
                } else {
                    let h = b.heights[i];
                    assert(b.heights.contains(h));
                    let k = choose|k: int|
                        0 <= k < n - 1 && (#[trigger] es[k]).height == h && !out_of_window(
                            known,
                            h,
                            p.limits,
                        );
                    assert(!crate::inbox::entry_before(es[n - 1], es[k]));
                }
            }
        }
        if known is Some {
            let f = known->Some_0;
            assert forall|i: int| 0 <= i < t.store.handled.len() implies (
            #[trigger] t.store.handled[i]).entry_height >= f by {
                if i < b.store.handled.len() {
                    assert(t.store.handled[i] == b.store.handled[i]);
                }
            }
        }
    }
}

proof fn one_more_stays_read(
    r: Reading,
    e: EntryModel,
    known: Option<u32>,
    p: Processor<'_>,
    tips: Tips,
    now_ms: i64,
    key: Seq<u8>,
)
    requires
        r.store.is_handled(key),
    ensures
        read_one(r, e, known, p, tips, now_ms).store.is_handled(key),
{
    a_request_changes_watches_only(r.store, e, p, tips, now_ms);
    let rows = r.store.handled;
    let q = |h: HandledModel| h.entry_key@ == key;
    let i = choose|i: int| 0 <= i < rows.len() && q(#[trigger] rows[i]);
    let after = read_one(r, e, known, p, tips, now_ms).store.handled;
    assert(after[i] == rows[i]);
    assert(q(after[i]));
}

/// Where every entry within the window is on record, reading changes nothing, and sends
/// removals for their heights.
proof fn what_is_on_record_is_passed_over(
    r: Reading,
    es: Seq<EntryModel>,
    n: int,
    known: Option<u32>,
    p: Processor<'_>,
    tips: Tips,
    now_ms: i64,
)
    requires
        0 <= n <= es.len(),
        forall|i: int|
            0 <= i < es.len() && !out_of_window(known, (#[trigger] es[i]).height, p.limits)
                ==> r.store.is_handled(es[i].key@),
    ensures
        ({
            let t = read_all(r, es, n, known, p, tips, now_ms);
            t == (Reading { heights: t.heights, ..r })
        }),
    decreases n,
{
    if n > 0 {
        what_is_on_record_is_passed_over(r, es, n - 1, known, p, tips, now_ms);
    }
}

/// A copy of the inbox that is presented again, because what was sent to it got lost, is
/// acted on no more, and the same removals are sent again. So it is whenever the first pass
/// left nothing waiting and moved no floor, whatever has become of the tips since.
pub proof fn a_second_pass_only_repeats_the_removals(
    before: StoreModel,
    between: StoreModel,
    after: StoreModel,
    first: Pass,
    second: Pass,
    floor: Option<u32>,
    es: Seq<EntryModel>,
    again: Seq<EntryModel>,
    p: Processor<'_>,
    tips: Tips,
    now_ms: i64,
    held: bool,
    later_tips: Tips,
    later_ms: i64,
    later_held: bool,
)
    requires
        in_order(es),
        in_order(again),
        es.to_multiset() == again.to_multiset(),
        is_pass(before, between, first, floor, es, p, tips, now_ms, held),
        is_pass(between, after, second, floor, again, p, later_tips, later_ms, later_held),
        first.deferred == 0,
        first.delta.floor is None,
    ensures
        second.acted == 0,
        second.deferred == 0,
        second.delta.removals@.len() == first.delta.removals@.len(),
        forall|i: int|
            0 <= i < first.delta.removals@.len() ==> (#[trigger] second.delta.removals@[i]).0
                == first.delta.removals@[i].0 && second.delta.removals@[i].1@
                == first.delta.removals@[i].1@,
{
    let ready = prepared(before, floor, now_ms);
    let known = ready.floor;
    let start = Reading {
        store: ready,
        acted: 0,
        deferred: 0,
        waiting: Seq::empty(),
        heights: Seq::empty(),
    };
    let r = reading(before, floor, es, p, tips, now_ms);
    if known is Some {
        let noted = match floor {
            Some(f) => floor_noted(before, f),
            None => before,
        };
        let f = known->Some_0;
        let q = |h: HandledModel| h.entry_height >= f;
        those_are_of_them(noted.handled, q);
        assert(ready.handled == those(noted.handled, q));
        assert forall|i: int| 0 <= i < ready.handled.len() implies (
        #[trigger] ready.handled[i]).entry_height >= f by {
            assert(those(noted.handled, q).contains(ready.handled[i]));
        }
    }
    what_does_not_wait_is_read(start, es, es.len() as int, known, p, tips, now_ms);
    reading_keeps_the_floor(start, es, es.len() as int, known, p, tips, now_ms);
    if !held {
        expiry_changes_watches_only(
            r.store,
            p,
            p.observed@.len() as int,
            tips,
            now_ms,
            r.waiting,
        );
    }
    assert(between.handled == r.store.handled);
    assert(between.floor == known);
    let ready2 = prepared(between, floor, later_ms);
    if known is Some {
        let f = known->Some_0;
        those_are_all(between.handled, |h: HandledModel| h.entry_height >= f);
    }
    assert(ready2.floor == known);
    assert(ready2.handled == r.store.handled);
    let start2 = Reading { store: ready2, ..start };
    assert forall|x: EntryModel| es.contains(x) <==> again.contains(x) by {
        es.to_multiset_ensures();
        again.to_multiset_ensures();
        assert(es.contains(x) <==> es.to_multiset().count(x) > 0);
        assert(again.contains(x) <==> again.to_multiset().count(x) > 0);
    }
    assert forall|i: int|
        0 <= i < again.len() && !out_of_window(
            known,
            (#[trigger] again[i]).height,
            p.limits,
        ) implies ready2.is_handled(again[i].key@) by {
        assert(es.contains(again[i]));
        let j = choose|j: int| 0 <= j < es.len() && es[j] == again[i];
        assert(r.store.is_handled(es[j].key@));
    }
    what_is_on_record_is_passed_over(
        start2,
        again,
        again.len() as int,
        known,
        p,
        later_tips,
        later_ms,
    );
    let t = reading(between, floor, again, p, later_tips, later_ms);
    what_does_not_wait_is_read(
        start2,
        again,
        again.len() as int,
        known,
        p,
        later_tips,
        later_ms,
    );
    assert forall|h: u32| r.heights.contains(h) <==> t.heights.contains(h) by {
        if r.heights.contains(h) {
            let i = choose|i: int|
                0 <= i < es.len() && (#[trigger] es[i]).height == h && !out_of_window(
                    known,
                    h,
                    p.limits,
                );
            assert(again.contains(es[i]));
            let j = choose|j: int| 0 <= j < again.len() && again[j] == es[i];
            assert(again[j].height == h);
        }
        if t.heights.contains(h) {
            let i = choose|i: int|
                0 <= i < again.len() && (#[trigger] again[i]).height == h && !out_of_window(
                    known,
                    h,
                    p.limits,
                );
            assert(es.contains(again[i]));
            let j = choose|j: int| 0 <= j < es.len() && es[j] == again[i];
            assert(es[j].height == h);
        }
    }
    rising_heights_are_told_by_what_they_are(r.heights, t.heights);
}

// ---------------------------------------------------------------------------
// Budgets
// ---------------------------------------------------------------------------

/// Whether the removals that an inbox has to hold are within its budget, and those of one
/// sender within its share.
pub open spec fn within_budget(s: StoreModel, ghostkey: Seq<u8>, limits: InboxLimits) -> bool {
    &&& s.handled.len() <= limits.removal_budget
    &&& s.handled_count_for(ghostkey) <= limits.share()
}

/// However many requests are sent, the removals that the inbox has to hold stay within
/// their budget, and those of any one sender within its share of it.
pub proof fn removals_stay_within_the_budget(
    r: Reading,
    es: Seq<EntryModel>,
    n: int,
    known: Option<u32>,
    p: Processor<'_>,
    tips: Tips,
    now_ms: i64,
    ghostkey: Seq<u8>,
)
    requires
        within_budget(r.store, ghostkey, p.limits),
    ensures
        within_budget(
            read_all(r, es, n, known, p, tips, now_ms).store,
            ghostkey,
            p.limits,
        ),
    decreases n,
{
    if n > 0 {
        removals_stay_within_the_budget(r, es, n - 1, known, p, tips, now_ms, ghostkey);
        let before = read_all(r, es, n - 1, known, p, tips, now_ms);
        let e = es[n - 1];
        a_request_changes_watches_only(before.store, e, p, tips, now_ms);
        let rows = before.store.handled;
        let m = HandledModel {
            entry_key: e.key,
            entry_height: e.height,
            ghostkey: e.ghostkey@,
        };
        let q = |h: HandledModel| h.ghostkey == ghostkey;
        if put_new::<HandledRow>(rows, m) != rows {
            assert(rows.push(m).drop_last() =~= rows);
            assert(tally(rows.push(m), q) == tally(rows, q) + if q(m) {
                1nat
            } else {
                0nat
            });
        }
    }
}

// ---------------------------------------------------------------------------
// Floors
// ---------------------------------------------------------------------------

/// The floor never falls: neither what the bridge remembers, nor what it sends below what
/// it remembers.
pub proof fn the_floor_never_falls(
    before: StoreModel,
    after: StoreModel,
    pass: Pass,
    floor: Option<u32>,
    es: Seq<EntryModel>,
    p: Processor<'_>,
    tips: Tips,
    now_ms: i64,
    held: bool,
)
    requires
        is_pass(before, after, pass, floor, es, p, tips, now_ms, held),
    ensures
        before.floor matches Some(f) ==> after.floor is Some && after.floor->Some_0 >= f,
        floor matches Some(f) ==> after.floor is Some && after.floor->Some_0 >= f,
        pass.delta.floor matches Some(t) ==> after.floor == Some(t),
        pass.delta.floor matches Some(t) ==> before.floor matches Some(f) ==> t >= f,
{
    let ready = prepared(before, floor, now_ms);
    let r = reading(before, floor, es, p, tips, now_ms);
    let start = Reading {
        store: ready,
        acted: 0,
        deferred: 0,
        waiting: Seq::empty(),
        heights: Seq::empty(),
    };
    reading_keeps_the_floor(start, es, es.len() as int, ready.floor, p, tips, now_ms);
    let sent = floor_sent(
        ready.floor,
        floor,
        tips.height(BitcoinNetwork::Bitcoin),
        held,
        p.limits,
    );
    let read = match sent {
        Some(t) => floor_noted(r.store, t),
        None => r.store,
    };
    if !held {
        expiry_changes_watches_only(read, p, p.observed@.len() as int, tips, now_ms, r.waiting);
    }
}

proof fn reading_keeps_the_floor(
    r: Reading,
    es: Seq<EntryModel>,
    n: int,
    known: Option<u32>,
    p: Processor<'_>,
    tips: Tips,
    now_ms: i64,
)
    ensures
        read_all(r, es, n, known, p, tips, now_ms).store.floor == r.store.floor,
    decreases n,
{
    if n > 0 {
        reading_keeps_the_floor(r, es, n - 1, known, p, tips, now_ms);
        let before = read_all(r, es, n - 1, known, p, tips, now_ms);
        a_request_changes_watches_only(before.store, es[n - 1], p, tips, now_ms);
    }
}

/// While the floor is held it does not rise by the tip.
pub proof fn a_held_floor_does_not_rise(known: Option<u32>, tip: Option<u32>, limits: InboxLimits)
    ensures
        floor_target(known, tip, true, limits) == known,
{
}

// ---------------------------------------------------------------------------
// Ends
// ---------------------------------------------------------------------------

/// No watch ends before its day is over, by the host's clock and by the chain's: whatever
/// is due to end was asked for longer ago than that, and by a Ghost Key, never by the
/// operator. And it ends only where the network has been scanned to its very tip.
pub proof fn no_watch_ends_before_its_day(
    s: StoreModel,
    net: BitcoinNetwork,
    tips: Tips,
    now_ms: i64,
    i: int,
)
    requires
        expiry(s, net, tips, now_ms) is Due,
        0 <= i < expiry(s, net, tips, now_ms)->Due_1.len(),
    ensures
        ({
            let out = expiry(s, net, tips, now_ms)->Due_1;
            let median = crate::inbox::looked_up(tips.median_time_ms@, net)->Some_0;
            &&& s.checkpoint(net) is Some
            &&& s.checkpoint(net)->Some_0.height == expiry(s, net, tips, now_ms)->Due_0
            &&& !tips.syncing@.contains(net)
            &&& exists|k: int|
                0 <= k < s.interests.len() && (#[trigger] s.interests[k]).network == net
                    && s.interests[k].watching && s.interests[k].script_pubkey == out[i].0
                    && s.interests[k].ghostkey == out[i].1 && out[i].1.len() > 0 && (
                s.interests[k].recorded_ms + WATCH_LIFETIME_MS < now_ms) && (
                s.interests[k].recorded_ms + WATCH_LIFETIME_MS + MEDIAN_TIME_MARGIN_MS < median)
        }),
{
    let out = expiry(s, net, tips, now_ms)->Due_1;
    let median = crate::inbox::looked_up(tips.median_time_ms@, net)->Some_0;
    let cutoff = expiry_cutoff(now_ms, median);
    let p = |r: InterestModel| ran_out(r, net, cutoff);
    let f = |r: InterestModel| (r.script_pubkey, r.ghostkey);
    let rows = those(s.interests, p);
    let all = rows.map_values(f);
    run_out_is_what_ran_out(s, net, cutoff);
    assert(out == run_out(s, net, cutoff));
    assert(out.to_multiset() == all.to_multiset());
    broadcast use vstd::seq_lib::group_to_multiset_ensures;

    assert(out.contains(out[i]));
    assert(out.to_multiset().count(out[i]) > 0);
    assert(all.contains(out[i]));
    let j = choose|j: int| 0 <= j < all.len() && all[j] == out[i];
    those_are_of_them(s.interests, p);
    assert(rows.contains(rows[j]));
    let k = choose|k: int| 0 <= k < s.interests.len() && s.interests[k] == rows[j];
    assert(ran_out(s.interests[k], net, cutoff));
    assert(s.interests[k].network == net);
}

/// Seeking goes the same way whether or not something is to be tried again.
proof fn retrying_changes_no_way(
    e: EndingModel,
    s: StoreModel,
    p: Processor<'_>,
    tips: Tips,
    now_ms: i64,
    waiting: Seq<[u8; 32]>,
    retry: bool,
)
    ensures
        sought(EndingModel { retry, ..e }, s, p, tips, now_ms, waiting) == (EndingModel {
            retry,
            ..sought(e, s, p, tips, now_ms, waiting)
        }),
    decreases p.observed@.len() - e.looked, e.due.len() - e.at,
{
    if !e.stopped {
        if e.at < e.due.len() {
            if waits(waiting, e.due[e.at as int].1) {
                let f = EndingModel { at: e.at + 1, ..e };
                retrying_changes_no_way(f, s, p, tips, now_ms, waiting, retry);
            }
        } else if e.looked < p.observed@.len() {
            let f = looked_at(e, s, p, tips, now_ms);
            retrying_changes_no_way(f, s, p, tips, now_ms, waiting, retry);
            assert(looked_at(EndingModel { retry, ..e }, s, p, tips, now_ms) == (EndingModel {
                retry,
                ..f
            }));
        }
    }
}

/// One watch whose end cannot be written keeps no other from ending: the same one is tried
/// next, and all that differs is that the pass has to be run again.
pub proof fn a_watch_that_cannot_end_keeps_no_other(
    e: EndingModel,
    s: StoreModel,
    p: Processor<'_>,
    tips: Tips,
    now_ms: i64,
    waiting: Seq<[u8; 32]>,
)
    ensures
        sought(tried(e, Err(WriteFault::Other)), s, p, tips, now_ms, waiting) == (EndingModel {
            retry: true,
            ..sought(tried(e, Ok(Ended::Ended)), s, p, tips, now_ms, waiting)
        }),
{
    let done = tried(e, Ok(Ended::Ended));
    let failed = tried(e, Err(WriteFault::Other));
    assert(failed == (EndingModel { retry: true, ..done }));
    retrying_changes_no_way(done, s, p, tips, now_ms, waiting, true);
}

/// Records that are too busy to be written end the trying, on every network.
pub proof fn busy_records_are_left_alone(
    e: EndingModel,
    s: StoreModel,
    p: Processor<'_>,
    tips: Tips,
    now_ms: i64,
    waiting: Seq<[u8; 32]>,
)
    ensures
        !sought(tried(e, Err(WriteFault::Busy)), s, p, tips, now_ms, waiting).has_one(),
        sought(tried(e, Err(WriteFault::Busy)), s, p, tips, now_ms, waiting).retry,
{
}

/// What is to be tried again is not forgotten, whatever comes after it.
pub proof fn a_retry_is_not_forgotten(
    e: EndingModel,
    s: StoreModel,
    p: Processor<'_>,
    tips: Tips,
    now_ms: i64,
    waiting: Seq<[u8; 32]>,
    what: Result<Ended, WriteFault>,
)
    requires
        e.retry,
    ensures
        tried(e, what).retry,
        sought(e, s, p, tips, now_ms, waiting).retry,
{
    retrying_changes_no_way(e, s, p, tips, now_ms, waiting, true);
    assert(e == (EndingModel { retry: true, ..e }));
}

// ---------------------------------------------------------------------------
// Order
// ---------------------------------------------------------------------------

/// A request about a script.
pub struct Wish {
    pub watching: bool,
    pub request_ms: u64,
}

/// The store once a sender's wish has been recorded.
pub open spec fn wished(
    s: StoreModel,
    net: BitcoinNetwork,
    script: Seq<u8>,
    ghostkey: Seq<u8>,
    w: Wish,
    max: nat,
    now_ms: i64,
) -> StoreModel {
    StoreModel {
        interests: interest_set(
            s,
            net,
            script,
            ghostkey,
            w.watching,
            w.request_ms,
            max,
            now_ms,
        ).0,
        ..s
    }
}

/// Whether what stands for a sender and a script is this wish.
pub open spec fn stands(
    s: StoreModel,
    net: BitcoinNetwork,
    script: Seq<u8>,
    ghostkey: Seq<u8>,
    w: Wish,
) -> bool {
    s.interest(net, script, ghostkey) matches Some(r) && r.watching == w.watching && r.request_ms
        == stamp(w.request_ms)
}

/// Whether a sender is far enough from its limits for this many more wishes.
pub open spec fn has_room(s: StoreModel, ghostkey: Seq<u8>, n: nat, max: nat) -> bool {
    s.held(ghostkey, true) + n <= max && s.held(ghostkey, false) + n <= max
}

/// A wish that is newer than what stands takes its place.
proof fn a_newer_wish_stands(
    s: StoreModel,
    net: BitcoinNetwork,
    script: Seq<u8>,
    ghostkey: Seq<u8>,
    w: Wish,
    max: nat,
    now_ms: i64,
)
    requires
        distinct::<InterestRow>(s.interests),
        ghostkey.len() > 0,
        s.interest(net, script, ghostkey) matches Some(r) ==> r.request_ms < stamp(w.request_ms)
            || (r.request_ms == stamp(w.request_ms) && r.watching && !w.watching),
        has_room(s, ghostkey, 1, max),
    ensures
        stands(wished(s, net, script, ghostkey, w, max, now_ms), net, script, ghostkey, w),
        distinct::<InterestRow>(wished(s, net, script, ghostkey, w, max, now_ms).interests),
        forall|watching: bool|
            wished(s, net, script, ghostkey, w, max, now_ms).held(ghostkey, watching) <= s.held(
                ghostkey,
                watching,
            ) + 1,
{
    let row = InterestModel {
        network: net,
        script_pubkey: script,
        ghostkey,
        watching: w.watching,
        request_ms: stamp(w.request_ms),
        recorded_ms: now_ms,
    };
    let operator = InterestModel {
        network: net,
        script_pubkey: script,
        ghostkey: Seq::empty(),
        watching: true,
        request_ms: 0,
        recorded_ms: now_ms,
    };
    let p = |r: InterestModel|
        r.network == net && r.script_pubkey == script && r.ghostkey == ghostkey;
    let after = wished(s, net, script, ghostkey, w, max, now_ms).interests;
    let owned = put_new::<InterestRow>(s.interests, operator);
    assert(after == put::<InterestRow>(s.interests, row) || after == put::<InterestRow>(
        owned,
        row,
    ));
    keys_stay_distinct::<InterestRow>(s.interests, operator);
    keys_stay_distinct::<InterestRow>(s.interests, row);
    keys_stay_distinct::<InterestRow>(owned, row);
    what_is_put_is_found::<InterestRow>(s.interests, row, p);
    what_is_put_is_found::<InterestRow>(owned, row, p);
    assert forall|watching: bool|
        wished(s, net, script, ghostkey, w, max, now_ms).held(ghostkey, watching) <= s.held(
            ghostkey,
            watching,
        ) + 1 by {
        let q = |r: InterestModel| r.ghostkey == ghostkey && r.watching == watching;
        putting_adds_one_at_most::<InterestRow>(s.interests, row, q);
        putting_adds_one_at_most::<InterestRow>(owned, row, q);
        putting_adds_one_at_most::<InterestRow>(s.interests, operator, q);
    }
}

/// Requests take effect in the order in which their sender made them, whatever order they
/// are read in: what stands in the end is the later one. This is so as long as the sender
/// is not at its limits, where the first that is read may be refused.
pub proof fn the_senders_order_decides(
    s: StoreModel,
    net: BitcoinNetwork,
    script: Seq<u8>,
    ghostkey: Seq<u8>,
    earlier: Wish,
    later: Wish,
    max: nat,
    now_ms: i64,
    then_ms: i64,
)
    requires
        distinct::<InterestRow>(s.interests),
        ghostkey.len() > 0,
        stamp(earlier.request_ms) < stamp(later.request_ms),
        s.interest(net, script, ghostkey) matches Some(r) ==> r.request_ms < stamp(
            earlier.request_ms,
        ),
        has_room(s, ghostkey, 2, max),
    ensures
        ({
            let one = wished(s, net, script, ghostkey, earlier, max, now_ms);
            let other = wished(s, net, script, ghostkey, later, max, now_ms);
            &&& stands(
                wished(one, net, script, ghostkey, later, max, then_ms),
                net,
                script,
                ghostkey,
                later,
            )
            &&& wished(other, net, script, ghostkey, earlier, max, then_ms) == other
            &&& stands(other, net, script, ghostkey, later)
        }),
{
    let one = wished(s, net, script, ghostkey, earlier, max, now_ms);
    let other = wished(s, net, script, ghostkey, later, max, now_ms);
    a_newer_wish_stands(s, net, script, ghostkey, earlier, max, now_ms);
    a_newer_wish_stands(one, net, script, ghostkey, later, max, then_ms);
    a_newer_wish_stands(s, net, script, ghostkey, later, max, now_ms);
}

/// Of a watch and a withdrawal that were made in one moment, the withdrawal stands.
pub proof fn in_one_moment_a_withdrawal_wins(
    s: StoreModel,
    net: BitcoinNetwork,
    script: Seq<u8>,
    ghostkey: Seq<u8>,
    watch: Wish,
    withdrawal: Wish,
    max: nat,
    now_ms: i64,
    then_ms: i64,
)
    requires
        distinct::<InterestRow>(s.interests),
        ghostkey.len() > 0,
        watch.watching && !withdrawal.watching,
        stamp(watch.request_ms) == stamp(withdrawal.request_ms),
        s.interest(net, script, ghostkey) matches Some(r) ==> r.request_ms < stamp(
            watch.request_ms,
        ),
        has_room(s, ghostkey, 2, max),
    ensures
        ({
            let one = wished(s, net, script, ghostkey, watch, max, now_ms);
            let other = wished(s, net, script, ghostkey, withdrawal, max, now_ms);
            &&& stands(
                wished(one, net, script, ghostkey, withdrawal, max, then_ms),
                net,
                script,
                ghostkey,
                withdrawal,
            )
            &&& wished(other, net, script, ghostkey, watch, max, then_ms) == other
            &&& stands(other, net, script, ghostkey, withdrawal)
        }),
{
    let one = wished(s, net, script, ghostkey, watch, max, now_ms);
    a_newer_wish_stands(s, net, script, ghostkey, watch, max, now_ms);
    a_newer_wish_stands(one, net, script, ghostkey, withdrawal, max, then_ms);
    a_newer_wish_stands(s, net, script, ghostkey, withdrawal, max, now_ms);
}

/// How many scripts a sender watches, or has withdrawn, beside this one.
pub open spec fn held_beside(
    s: StoreModel,
    net: BitcoinNetwork,
    script: Seq<u8>,
    ghostkey: Seq<u8>,
    watching: bool,
) -> nat {
    tally(
        s.interests,
        |r: InterestModel|
            r.ghostkey == ghostkey && r.watching == watching && !(r.network == net
                && r.script_pubkey == script),
    )
}

/// Whether no limit keeps a sender from watching this script, or from withdrawing it.
pub open spec fn is_free(
    s: StoreModel,
    net: BitcoinNetwork,
    script: Seq<u8>,
    ghostkey: Seq<u8>,
    max: nat,
) -> bool {
    forall|watching: bool| #[trigger] held_beside(s, net, script, ghostkey, watching) < max
}

/// A sender whose limits are not reached is free to ask about any script.
pub proof fn room_is_freedom(
    s: StoreModel,
    net: BitcoinNetwork,
    script: Seq<u8>,
    ghostkey: Seq<u8>,
    max: nat,
)
    requires
        distinct::<InterestRow>(s.interests),
        s.interest(net, script, ghostkey) is None,
        has_room(s, ghostkey, 1, max),
    ensures
        is_free(s, net, script, ghostkey, max),
{
    assert forall|watching: bool| #[trigger]
        held_beside(s, net, script, ghostkey, watching) < max by {
        only_others_are_held(s, net, script, ghostkey, watching);
    }
}

/// Where a sender has said nothing about a script, or the opposite, the others are all that
/// counts.
proof fn only_others_are_held(
    s: StoreModel,
    net: BitcoinNetwork,
    script: Seq<u8>,
    ghostkey: Seq<u8>,
    watching: bool,
)
    requires
        distinct::<InterestRow>(s.interests),
        s.interest(net, script, ghostkey) matches Some(r) ==> r.watching != watching,
    ensures
        s.held(ghostkey, watching) == held_beside(s, net, script, ghostkey, watching),
{
    let rows = s.interests;
    let p = |r: InterestModel|
        r.network == net && r.script_pubkey == script && r.ghostkey == ghostkey;
    let all = |r: InterestModel| r.ghostkey == ghostkey && r.watching == watching;
    let beside = |r: InterestModel|
        r.ghostkey == ghostkey && r.watching == watching && !(r.network == net && r.script_pubkey
            == script);
    first_or_none(rows, p);
    assert forall|i: int| 0 <= i < rows.len() implies all(#[trigger] rows[i]) == beside(rows[i]) by {
        if p(rows[i]) {
            let r = s.interest(net, script, ghostkey)->Some_0;
            let k = choose|k: int| 0 <= k < rows.len() && rows[k] == r;
            if k < i {
                assert(InterestRow::key(rows[k]) != InterestRow::key(rows[i]));
            } else if i < k {
                assert(InterestRow::key(rows[i]) != InterestRow::key(rows[k]));
            }
        }
    }
    counts_agree(rows, all, beside);
}

/// Whether a wish is no older than another, a withdrawal coming after a watch of the same
/// moment.
pub open spec fn no_older(watching: bool, ms: i64, than_watching: bool, than_ms: i64) -> bool {
    ms > than_ms || (ms == than_ms && (!watching || than_watching))
}

/// A wish is recorded if it is newer than what stands, and otherwise changes nothing.
proof fn a_wish_is_weighed(
    s: StoreModel,
    net: BitcoinNetwork,
    script: Seq<u8>,
    ghostkey: Seq<u8>,
    w: Wish,
    max: nat,
    now_ms: i64,
)
    requires
        distinct::<InterestRow>(s.interests),
        ghostkey.len() > 0,
        is_free(s, net, script, ghostkey, max),
    ensures
        ({
            let after = wished(s, net, script, ghostkey, w, max, now_ms);
            &&& distinct::<InterestRow>(after.interests)
            &&& is_free(after, net, script, ghostkey, max)
            &&& match s.interest(net, script, ghostkey) {
                Some(r) if no_older(
                    r.watching,
                    r.request_ms,
                    w.watching,
                    stamp(w.request_ms),
                ) => after == s,
                _ => stands(after, net, script, ghostkey, w),
            }
        }),
{
    let row = InterestModel {
        network: net,
        script_pubkey: script,
        ghostkey,
        watching: w.watching,
        request_ms: stamp(w.request_ms),
        recorded_ms: now_ms,
    };
    let operator = InterestModel {
        network: net,
        script_pubkey: script,
        ghostkey: Seq::empty(),
        watching: true,
        request_ms: 0,
        recorded_ms: now_ms,
    };
    let p = |r: InterestModel|
        r.network == net && r.script_pubkey == script && r.ghostkey == ghostkey;
    let after = wished(s, net, script, ghostkey, w, max, now_ms);
    let owned = put_new::<InterestRow>(s.interests, operator);
    assert(held_beside(s, net, script, ghostkey, w.watching) < max);
    if s.interest(net, script, ghostkey) is None || s.interest(
        net,
        script,
        ghostkey,
    )->Some_0.watching != w.watching {
        only_others_are_held(s, net, script, ghostkey, w.watching);
    }
    keys_stay_distinct::<InterestRow>(s.interests, operator);
    keys_stay_distinct::<InterestRow>(s.interests, row);
    keys_stay_distinct::<InterestRow>(owned, row);
    what_is_put_is_found::<InterestRow>(s.interests, row, p);
    what_is_put_is_found::<InterestRow>(owned, row, p);
    assert forall|watching: bool| #[trigger]
        held_beside(after, net, script, ghostkey, watching) < max by {
        let beside = |r: InterestModel|
            r.ghostkey == ghostkey && r.watching == watching && !(r.network == net
                && r.script_pubkey == script);
        assert(held_beside(s, net, script, ghostkey, watching) < max);
        putting_leaves_the_count::<InterestRow>(s.interests, operator, beside);
        putting_leaves_the_count::<InterestRow>(s.interests, row, beside);
        putting_leaves_the_count::<InterestRow>(owned, row, beside);
    }
}

/// The store once a sender's wishes about one script have been recorded, each with the
/// moment it was read at.
pub open spec fn all_wished(
    s: StoreModel,
    net: BitcoinNetwork,
    script: Seq<u8>,
    ghostkey: Seq<u8>,
    ws: Seq<(Wish, i64)>,
    max: nat,
) -> StoreModel
    decreases ws.len(),
{
    if ws.len() == 0 {
        s
    } else {
        wished(
            all_wished(s, net, script, ghostkey, ws.drop_last(), max),
            net,
            script,
            ghostkey,
            ws.last().0,
            max,
            ws.last().1,
        )
    }
}

/// However many wishes a sender has about one script, and in whatever order they are read,
/// what stands in the end is the newest of them and of what stood before, a withdrawal
/// being newer than a watch of the same moment.
pub proof fn the_newest_wish_stands(
    s: StoreModel,
    net: BitcoinNetwork,
    script: Seq<u8>,
    ghostkey: Seq<u8>,
    ws: Seq<(Wish, i64)>,
    max: nat,
)
    requires
        distinct::<InterestRow>(s.interests),
        ghostkey.len() > 0,
        is_free(s, net, script, ghostkey, max),
    ensures
        ({
            let before = s.interest(net, script, ghostkey);
            let after = all_wished(s, net, script, ghostkey, ws, max);
            &&& distinct::<InterestRow>(after.interests)
            &&& is_free(after, net, script, ghostkey, max)
            &&& match after.interest(net, script, ghostkey) {
                None => ws.len() == 0 && before is None,
                Some(r) => {
                    &&& forall|i: int|
                        0 <= i < ws.len() ==> no_older(
                            r.watching,
                            r.request_ms,
                            (#[trigger] ws[i]).0.watching,
                            stamp(ws[i].0.request_ms),
                        )
                    &&& before matches Some(b) ==> no_older(
                        r.watching,
                        r.request_ms,
                        b.watching,
                        b.request_ms,
                    )
                    &&& before == Some(r) || exists|i: int|
                        0 <= i < ws.len() && r.watching == (#[trigger] ws[i]).0.watching
                            && r.request_ms == stamp(ws[i].0.request_ms)
                },
            }
        }),
    decreases ws.len(),
{
    if ws.len() > 0 {
        let fewer = ws.drop_last();
        let n = ws.len() - 1;
        let mid = all_wished(s, net, script, ghostkey, fewer, max);
        the_newest_wish_stands(s, net, script, ghostkey, fewer, max);
        a_wish_is_weighed(mid, net, script, ghostkey, ws.last().0, max, ws.last().1);
        let after = all_wished(s, net, script, ghostkey, ws, max);
        let r = after.interest(net, script, ghostkey)->Some_0;
        assert forall|i: int| 0 <= i < ws.len() implies no_older(
            r.watching,
            r.request_ms,
            (#[trigger] ws[i]).0.watching,
            stamp(ws[i].0.request_ms),
        ) by {
            if i < n {
                assert(fewer[i] == ws[i]);
            }
        }
        if after.interest(net, script, ghostkey) == mid.interest(net, script, ghostkey) {
            if s.interest(net, script, ghostkey) != Some(r) {
                let i = choose|i: int|
                    0 <= i < fewer.len() && r.watching == (#[trigger] fewer[i]).0.watching
                        && r.request_ms == stamp(fewer[i].0.request_ms);
                assert(fewer[i] == ws[i]);
            }
        } else {
            assert(ws[n] == ws.last());
        }
    }
}

/// The order in which a sender's wishes about one script are read does not matter to what
/// stands in the end.
pub proof fn the_order_of_reading_does_not_matter(
    s: StoreModel,
    net: BitcoinNetwork,
    script: Seq<u8>,
    ghostkey: Seq<u8>,
    a: Seq<(Wish, i64)>,
    b: Seq<(Wish, i64)>,
    max: nat,
)
    requires
        distinct::<InterestRow>(s.interests),
        ghostkey.len() > 0,
        is_free(s, net, script, ghostkey, max),
        forall|i: int|
            0 <= i < a.len() ==> exists|j: int|
                0 <= j < b.len() && (#[trigger] a[i]).0 == (#[trigger] b[j]).0,
        forall|j: int|
            0 <= j < b.len() ==> exists|i: int|
                0 <= i < a.len() && (#[trigger] a[i]).0 == (#[trigger] b[j]).0,
    ensures
        ({
            let x = all_wished(s, net, script, ghostkey, a, max).interest(net, script, ghostkey);
            let y = all_wished(s, net, script, ghostkey, b, max).interest(net, script, ghostkey);
            match (x, y) {
                (Some(r), Some(t)) => r.watching == t.watching && r.request_ms == t.request_ms,
                (None, None) => true,
                _ => false,
            }
        }),
{
    the_newest_wish_stands(s, net, script, ghostkey, a, max);
    the_newest_wish_stands(s, net, script, ghostkey, b, max);
    let x = all_wished(s, net, script, ghostkey, a, max).interest(net, script, ghostkey);
    let y = all_wished(s, net, script, ghostkey, b, max).interest(net, script, ghostkey);
    if x is None && b.len() > 0 {
        let i = choose|i: int| 0 <= i < a.len() && (#[trigger] a[i]).0 == b[0].0;
        assert(false);
    }
    if y is None && a.len() > 0 {
        let j = choose|j: int| 0 <= j < b.len() && a[0].0 == (#[trigger] b[j]).0;
        assert(false);
    }
    if x is Some && y is Some {
        let (r, t) = (x->Some_0, y->Some_0);
        if s.interest(net, script, ghostkey) != Some(r) {
            let i = choose|i: int|
                0 <= i < a.len() && r.watching == (#[trigger] a[i]).0.watching && r.request_ms
                    == stamp(a[i].0.request_ms);
            let j = choose|j: int| 0 <= j < b.len() && a[i].0 == (#[trigger] b[j]).0;
            assert(no_older(t.watching, t.request_ms, r.watching, r.request_ms));
        }
        if s.interest(net, script, ghostkey) != Some(t) {
            let j = choose|j: int|
                0 <= j < b.len() && t.watching == (#[trigger] b[j]).0.watching && t.request_ms
                    == stamp(b[j].0.request_ms);
            let i = choose|i: int| 0 <= i < a.len() && (#[trigger] a[i]).0 == b[j].0;
            assert(no_older(r.watching, r.request_ms, t.watching, t.request_ms));
        }
    }
}

/// A wish that is no newer than what stands changes nothing, and is answered so. One is
/// answered as a withdrawal only where its sender was watching, and as the last one only
/// where nobody watches any more.
pub proof fn a_wish_is_answered_for_what_it_did(
    s: StoreModel,
    net: BitcoinNetwork,
    script: Seq<u8>,
    ghostkey: Seq<u8>,
    w: Wish,
    max: nat,
    now_ms: i64,
)
    ensures
        ({
            let before = s.interest(net, script, ghostkey);
            let (interests, change) = interest_set(
                s,
                net,
                script,
                ghostkey,
                w.watching,
                w.request_ms,
                max,
                now_ms,
            );
            &&& change == InterestChange::Stale <==> (before matches Some(r) && no_older(
                r.watching,
                r.request_ms,
                w.watching,
                stamp(w.request_ms),
            ))
            &&& change == InterestChange::Stale ==> interests == s.interests
            &&& change matches InterestChange::Withdrawn { last } ==> before is Some
                && before->Some_0.watching && !w.watching && last == (wished(
                s,
                net,
                script,
                ghostkey,
                w,
                max,
                now_ms,
            ).watchers(net, script) == 0)
        }),
{
}

/// A sender's wish touches no other sender's: whoever else wants a script goes on wanting
/// it.
pub proof fn a_wish_is_its_senders_own(
    s: StoreModel,
    net: BitcoinNetwork,
    script: Seq<u8>,
    ghostkey: Seq<u8>,
    w: Wish,
    max: nat,
    now_ms: i64,
    other_net: BitcoinNetwork,
    other_script: Seq<u8>,
    other: Seq<u8>,
)
    requires
        other != ghostkey,
        other.len() > 0,
    ensures
        wished(s, net, script, ghostkey, w, max, now_ms).interest(other_net, other_script, other)
            == s.interest(other_net, other_script, other),
{
    let row = InterestModel {
        network: net,
        script_pubkey: script,
        ghostkey,
        watching: w.watching,
        request_ms: stamp(w.request_ms),
        recorded_ms: now_ms,
    };
    let operator = InterestModel {
        network: net,
        script_pubkey: script,
        ghostkey: Seq::empty(),
        watching: true,
        request_ms: 0,
        recorded_ms: now_ms,
    };
    let p = |r: InterestModel|
        r.network == other_net && r.script_pubkey == other_script && r.ghostkey == other;
    let owned = put_new::<InterestRow>(s.interests, operator);
    putting_leaves_the_rest::<InterestRow>(s.interests, row, p);
    putting_leaves_the_rest::<InterestRow>(owned, row, p);
    assert(s.interests.push(operator).drop_last() =~= s.interests);
}

/// A script that somebody still wants is not given up when one sender withdraws.
pub proof fn a_script_is_scanned_while_somebody_wants_it(
    s: StoreModel,
    ask: AskModel,
    script: Seq<u8>,
    ghostkey: Seq<u8>,
    tip: Option<u32>,
    max: nat,
    now_ms: i64,
)
    requires
        ask.action == crate::inbox::Action::Unwatch,
        script_asked(s, ask, script, ghostkey, tip, max, now_ms).watchers(ask.network, script) > 0,
    ensures
        script_asked(s, ask, script, ghostkey, tip, max, now_ms).watched == s.watched,
{
}

} // verus!
