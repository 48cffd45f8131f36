//! What holds of publishing, from the link to a node up to the pointers that name contracts.
//!
//! A reply is read only for what it answers, a node that fails is left alone for longer each
//! time, reads follow each other one at a time, and a migration ends only when it has been
//! confirmed often enough and far enough apart.

use vstd::arithmetic::power2::{lemma2_to64, lemma_pow2_unfold, pow2};
use vstd::prelude::*;

use crate::address_state::{merged, BitcoinAddressStateV1};
use crate::bytes::{be32, be32_bytes, be32_roundtrip};
use crate::freenet::{
    account, backoff_after, got, says_not_found, ErrorKind, Link, NodeError, NodeReply,
};
use crate::generation::{baseline, next, published_by, record_of, Standing};
use crate::inbox::{looked_up, Lag, LagCause};
use crate::migrate::{
    carried, confirms, counts, fresh_pace, outcome_text, paced, paced_through, PaceModel, Walk,
    WalkOutcome, SEAL_AFTER_WALKS,
};
use crate::outside::{
    base58_of, ed25519_key_fault, ed25519_signature_of, pointer_holds, pointer_message,
};
use crate::records::body_from;
use crate::session::{
    is_loss, lag_is_worse, observers_behind, since, Driver, Reply, Step, SyncWatch,
};
use crate::signing::SignedModel;
use crate::text::{lower, lowered, occurs, occurs_at};
use crate::types::{BitcoinAddressParameters, BitcoinNetwork, OutPoint};

verus! {

// ---------------------------------------------------------------------------
// Pointers
// ---------------------------------------------------------------------------

/// Of what the bridge remembers and what stands at the pointer, the higher version counts;
/// where only one is known, that one.
pub proof fn the_higher_version_counts(stored: Option<Standing>, published: Option<Standing>)
    ensures
        baseline(stored, published) is None <==> stored is None && published is None,
        baseline(stored, published) is Some ==> baseline(stored, published) == stored || baseline(
            stored,
            published,
        ) == published,
        stored matches Some(s) ==> baseline(stored, published)->Some_0.0 >= s.0,
        published matches Some(p) ==> baseline(stored, published)->Some_0.0 >= p.0,
        stored matches Some(s) ==> (published matches Some(p) ==> (s.0 == p.0 ==> baseline(
            stored,
            published,
        ) == stored)),
{
}

/// A pointer starts at version one. One that names this code already keeps its version; one
/// that names other code gets the next, as long as there is a next.
pub proof fn a_pointer_moves_by_one_version(
    stored: Option<Standing>,
    published: Option<Standing>,
    code_hash: Seq<u8>,
)
    ensures
        stored is None && published is None ==> next(stored, published, code_hash) == (1u32, true),
        baseline(stored, published) matches Some(b) ==> {
            &&& b.1@ == code_hash ==> next(stored, published, code_hash) == (b.0, false)
            &&& b.1@ != code_hash && b.0 < u32::MAX ==> next(stored, published, code_hash).0 == b.0
                + 1
            &&& b.1@ != code_hash ==> next(stored, published, code_hash).1
        },
{
}

/// Publishing the same code again moves nothing: once a version stands, the same code keeps
/// it.
pub proof fn publishing_the_same_code_again_moves_nothing(
    stored: Option<Standing>,
    published: Option<Standing>,
    code_hash: [u8; 32],
)
    ensures
        ({
            let v = next(stored, published, code_hash@).0;
            let standing = Some((v, code_hash));
            &&& next(standing, published, code_hash@) == (v, false)
            &&& next(standing, standing, code_hash@) == (v, false)
        }),
{
}

/// A record is a version, big end first, the hash of the code, and a signature: each stands
/// at its place.
pub proof fn a_record_is_read_place_by_place(
    seed: Seq<u8>,
    params: Seq<u8>,
    version: u32,
    code_hash: Seq<u8>,
)
    requires
        code_hash.len() == 32,
    ensures
        ({
            let r = record_of(seed, params, version, code_hash);
            &&& be32(r, 0) == version
            &&& r.subrange(4, 36) == code_hash
            &&& r.subrange(36, r.len() as int) == ed25519_signature_of(
                seed,
                pointer_message(params, version, code_hash),
            )
        }),
{
    be32_roundtrip(version);
    let r = record_of(seed, params, version, code_hash);
    let v = be32_bytes(version);
    assert(r[0] == v[0] && r[1] == v[1] && r[2] == v[2] && r[3] == v[3]);
    assert(r.subrange(4, 36) =~= code_hash);
    assert(r.subrange(36, r.len() as int) =~= ed25519_signature_of(
        seed,
        pointer_message(params, version, code_hash),
    ));
}

/// What stands at a pointer counts exactly if it is a hundred bytes that its author signed:
/// then it says the version of its first four, and the code of the thirty-two after them.
pub proof fn a_pointer_counts_if_its_author_signed_it(
    state: Seq<u8>,
    params: Seq<u8>,
    author: Seq<u8>,
)
    ensures
        published_by(state, params, author) is Some <==> {
            &&& ed25519_key_fault(author) is None
            &&& state.len() == 100
            &&& pointer_holds(
                be32(state, 0) as u32,
                state.subrange(4, 36),
                state.subrange(36, 100),
                params,
                author,
            )
        },
        published_by(state, params, author) matches Some((v, h)) ==> v == be32(state, 0) as u32
            && h == state.subrange(4, 36),
{
}

// ---------------------------------------------------------------------------
// Replies
// ---------------------------------------------------------------------------

/// Saying what was being done does not change whether an error is the link's, and only goes
/// in front of what it says.
pub proof fn context_leaves_an_error_what_it_is(what: String, e: NodeError)
    ensures
        NodeError::While(what, Box::new(e)).is_link() == e.is_link(),
        NodeError::While(what, Box::new(e)).text() == what@ + ": "@ + e.text(),
        e is Link ==> e.is_link() && e.text() == e->Link_0.0@,
        e is Request ==> !e.is_link() && e.text() == e->Request_0@,
{
}

/// An answer to a read counts only for the contract that was read. Its state is what the
/// node sent; that there is none is what the node said of that contract, or an error that
/// says so.
pub proof fn what_a_reply_to_a_read_says(id: Seq<u8>, reply: NodeReply, state: Seq<u8>)
    ensures
        got(id, reply) == Some(Some(state)) <==> reply is Got && reply->Got_id@ == id
            && reply->Got_state@ == state,
        got(id, reply) == Some(None::<Seq<u8>>) <==> (reply is NotFound && reply->NotFound_id@
            == id) || (reply is Error && says_not_found(reply->Error_text@)),
        reply is Stored || reply is Updated || reply is OtherContract || reply is Other ==> got(
            id,
            reply,
        ) is None,
{
}

/// An error says that something was not found if those words occur in it, together or
/// apart, in capitals or not.
pub proof fn when_an_error_says_not_found(before: Seq<char>, words: Seq<char>, after: Seq<char>)
    requires
        lowered(words) == "not found"@ || lowered(words) == "notfound"@,
    ensures
        says_not_found(before + words + after),
{
    let msg = before + words + after;
    let n = before.len() as int;
    assert(lowered(msg).subrange(n, n + words.len()) =~= lowered(words));
    if lowered(words) == "not found"@ {
        assert(occurs_at(lowered(msg), "not found"@, n));
    } else {
        assert(occurs_at(lowered(msg), "notfound"@, n));
    }
}

/// An error that says so does hold those words.
pub proof fn an_error_that_says_not_found_holds_the_words(msg: Seq<char>)
    requires
        says_not_found(msg),
    ensures
        exists|i: int, n: int|
            0 <= i <= n <= msg.len() && (lowered(#[trigger] msg.subrange(i, n)) == "not found"@
                || lowered(msg.subrange(i, n)) == "notfound"@),
{
    if occurs(lowered(msg), "not found"@) {
        let i = choose|i: int| #[trigger] occurs_at(lowered(msg), "not found"@, i);
        let n = i + "not found"@.len();
        assert(lowered(msg.subrange(i, n)) =~= lowered(msg).subrange(i, n));
    } else {
        let i = choose|i: int| #[trigger] occurs_at(lowered(msg), "notfound"@, i);
        let n = i + "notfound"@.len();
        assert(lowered(msg.subrange(i, n)) =~= lowered(msg).subrange(i, n));
    }
}

/// Each kind of reply is told apart in an account of it, and one about a contract names it.
pub proof fn an_account_names_the_contract(reply: NodeReply)
    ensures
        reply matches NodeReply::Got { id, .. } ==> account(reply) == "GetResponse for "@
            + base58_of(id@),
        reply matches NodeReply::Stored { id } ==> account(reply) == "PutResponse for "@
            + base58_of(id@),
        reply matches NodeReply::Updated { id } ==> account(reply) == "UpdateResponse for "@
            + base58_of(id@),
        reply matches NodeReply::NotFound { id } ==> account(reply) == "NotFound for "@ + base58_of(
            id@,
        ),
        reply matches NodeReply::Error { text, .. } ==> account(reply) == "an error: "@ + text@,
{
}

// ---------------------------------------------------------------------------
// Waits
// ---------------------------------------------------------------------------

/// The wait before the nth dial in a row is a second doubled as often, and half a minute at
/// most.
pub proof fn the_wait_doubles_up_to_half_a_minute(n: nat)
    ensures
        backoff_after(n) == if 1_000 * pow2(n) <= 30_000 {
            (1_000 * pow2(n)) as int
        } else {
            30_000
        },
    decreases n,
{
    lemma2_to64();
    if n > 0 {
        the_wait_doubles_up_to_half_a_minute((n - 1) as nat);
        lemma_pow2_unfold(n);
    }
}

/// A link that backs off is closed, dials again after its wait give or take a fifth, and
/// will wait twice as long the next time, up to half a minute.
pub proof fn how_a_link_backs_off(l: Link, now: u64, chance: u32)
    requires
        l.wf(),
        now <= u64::MAX - 60_000,
    ensures
        ({
            let after = l.backed_off(now, chance);
            &&& !after.open
            &&& after.retry_at is Some
            &&& now + l.backoff * 80 / 100 <= after.retry_at->Some_0
            &&& after.retry_at->Some_0 <= now + l.backoff * 120 / 100
            &&& l.backoff <= 15_000 ==> after.backoff == 2 * l.backoff
            &&& l.backoff > 15_000 ==> after.backoff == 30_000
            &&& after.wf()
        }),
{
    let share = 80 + chance % 41;
    assert(80 <= share <= 120);
    assert(l.backoff * 80 <= l.backoff * share <= l.backoff * 120) by (nonlinear_arith)
        requires
            80 <= share <= 120,
            l.backoff >= 0,
    ;
}

// ---------------------------------------------------------------------------
// The inbox's messages
// ---------------------------------------------------------------------------

/// A connection is lost with its channel, by a disconnect, or when the node shuts down, and
/// by no other error.
pub proof fn when_a_connection_is_lost(kind: ErrorKind)
    ensures
        is_loss(kind) <==> kind is ChannelClosed || kind is Disconnect
            || kind is TransportProtocolDisconnect || kind is Shutdown,
{
}

/// A read is on its way for a minute after it was sent, and no longer once it is answered.
pub proof fn a_read_is_on_its_way_for_a_minute(d: Driver, now: u64)
    ensures
        d.read_sent is None ==> !d.reading(now),
        d.read_sent matches Some(sent) ==> (d.reading(now) <==> now < sent + 60_000),
        since(now, now) == 0,
{
}

/// Asking to read while a read is on its way sends nothing and is remembered; otherwise a
/// read is on its way from now on. Nothing else changes.
pub proof fn one_read_at_a_time(d: Driver, now: u64)
    ensures
        ({
            let after = d.asked_to_read(now);
            &&& d.reading(now) ==> after.read_sent == d.read_sent && after.reread
            &&& !d.reading(now) ==> after.read_sent == Some(now) && !after.reread
            &&& after.reading(now)
            &&& after.subscribed == d.subscribed
            &&& after.last_open == d.last_open
        }),
{
}

/// Every message has its answer: a state is processed, a change or an opened inbox is read,
/// an absent inbox is opened, a lost connection is made anew.
pub proof fn every_message_has_its_answer(d: Driver, reply: Reply, now: u64)
    ensures
        ({
            let steps = d.response(reply, now);
            let after = d.heard(reply, now);
            &&& reply matches Reply::State(bytes) ==> steps.len() >= 1 && steps[0]
                == Step::Process(bytes) && (steps.contains(Step::Read) <==> d.reread)
            &&& reply is State ==> !after.reread && (after.read_sent is Some <==> d.reread)
            &&& reply is Changed || reply is Opened ==> (steps.contains(Step::Read) <==> !d.reading(
                now,
            )) && after.reading(now)
            &&& reply is Absent ==> (steps.contains(Step::Open) <==> d.may_open(now))
                && after.read_sent is None
            &&& reply matches Reply::Subscribed(s) ==> after.subscribed == s && steps.len() == 0
            &&& reply matches Reply::Failed { lost, not_found } ==> {
                &&& not_found ==> (steps.contains(Step::Open) <==> d.may_open(now))
                &&& !not_found ==> (steps.contains(Step::Reconnect) <==> lost)
                &&& !lost ==> after.read_sent is None
            }
            &&& !(reply is Subscribed) ==> after.subscribed == d.subscribed
            &&& reply is Other ==> after == d && steps.len() == 0
        }),
{
    let steps = d.response(reply, now);
    match reply {
        Reply::State(bytes) => {
            if d.reread {
                assert(steps[1] == Step::Read);
            } else {
                assert(steps =~= seq![Step::Process(bytes)]);
            }
        },
        Reply::Changed | Reply::Opened => {
            if !d.reading(now) {
                assert(steps[0] == Step::Read);
            }
        },
        Reply::Absent => {
            if d.may_open(now) {
                assert(steps[0] == Step::Open);
            }
        },
        Reply::Failed { lost, not_found } => {
            if not_found {
                if d.may_open(now) {
                    assert(steps[0] == Step::Open);
                }
            } else if lost {
                assert(steps[0] == Step::Reconnect);
            }
        },
        _ => {},
    }
}

/// An inbox is opened at most once a minute: one that was opened is not opened again before
/// a minute has passed, and may be from then on.
pub proof fn an_inbox_is_opened_once_a_minute(d: Driver, now: u64, then: u64)
    requires
        now <= then,
        d.may_open(now),
    ensures
        d.heard(Reply::Absent, now).last_open == Some(now),
        d.heard(Reply::Absent, now).may_open(then) <==> then - now >= 60_000,
        d.last_open is None ==> d.may_open(then),
{
}

// ---------------------------------------------------------------------------
// Warnings
// ---------------------------------------------------------------------------

/// A lag is worse than before if it is longer; one of unknown length is the longest, and any
/// is worse than none.
pub proof fn when_a_lag_is_worse(p: Option<u32>, behind: Option<u32>)
    ensures
        lag_is_worse(None, behind),
        p is None ==> !lag_is_worse(Some(p), behind),
        p matches Some(a) ==> (behind matches Some(b) ==> (lag_is_worse(Some(p), behind) <==> b
            > a)),
        p matches Some(a) ==> (behind is None && a < u32::MAX ==> lag_is_worse(Some(p), behind)),
        !lag_is_worse(Some(behind), behind),
{
}

/// What is remembered of a pass is every observer that was behind, with how far, and nothing
/// about nodes.
pub proof fn every_observer_behind_is_remembered(lags: Seq<Lag>, net: BitcoinNetwork, b: Option<u32>)
    ensures
        observers_behind(lags).contains((net, b)) <==> exists|i: int|
            0 <= i < lags.len() && (#[trigger] lags[i]).network == net && lags[i].cause
                == LagCause::Observer(b),
    decreases lags.len(),
{
    if lags.len() > 0 {
        let before = lags.drop_last();
        let was = observers_behind(before);
        let now = observers_behind(lags);
        every_observer_behind_is_remembered(before, net, b);
        if now.contains((net, b)) {
            let k = choose|k: int| 0 <= k < now.len() && now[k] == (net, b);
            if k < was.len() {
                assert(was[k] == (net, b));
                let i = choose|i: int|
                    0 <= i < before.len() && (#[trigger] before[i]).network == net
                        && before[i].cause == LagCause::Observer(b);
                assert(lags[i] == before[i]);
            } else {
                assert(lags[lags.len() - 1] == lags.last());
            }
        }
        if exists|i: int|
            0 <= i < lags.len() && (#[trigger] lags[i]).network == net && lags[i].cause
                == LagCause::Observer(b) {
            let i = choose|i: int|
                0 <= i < lags.len() && (#[trigger] lags[i]).network == net && lags[i].cause
                    == LagCause::Observer(b);
            if i < before.len() {
                assert(before[i] == lags[i]);
                let k = choose|k: int| 0 <= k < was.len() && was[k] == (net, b);
                assert(now[k] == was[k]);
            } else {
                assert(now[now.len() - 1] == (net, b));
            }
        }
    }
}

/// A node is reported once it has been catching up for ten minutes, counted from when it was
/// first seen to, and unless it has been reported.
pub proof fn a_node_is_reported_after_ten_minutes(w: SyncWatch, net: BitcoinNetwork, now: u64)
    ensures
        looked_up(w.since@, net) is None ==> w.began(net, now) == now && !w.is_due(net, now),
        looked_up(w.since@, net) matches Some(t) ==> w.began(net, now) == t && (w.is_due(net, now)
            <==> now >= t + 600_000 && !w.warned@.contains(net)),
{
}

// ---------------------------------------------------------------------------
// Migrations
// ---------------------------------------------------------------------------

/// A walk recovered something only if it asked every generation and each answered; it found
/// nothing only if each answered that it holds nothing. Everything else leaves it open.
pub proof fn what_a_walk_is_worth(outcome: WalkOutcome)
    ensures
        Walk::of(outcome) == Walk::Recovered <==> outcome is Recovered
            && outcome->Recovered_unresolved == 0 && !outcome->Recovered_truncated_fold,
        Walk::of(outcome) == Walk::NothingFound <==> outcome is SeedLocal,
        outcome is Indeterminate || outcome is Other ==> Walk::of(outcome) == Walk::Unresolved,
{
}

/// A walk counts toward the end of a migration if everyone answered, six hours after the
/// last that counted, and not in the bridge's first ten minutes.
pub proof fn which_walks_count(started: u64, last: Option<u64>, walk: Walk, now: u64)
    ensures
        counts(started, last, walk, now) <==> {
            &&& walk is Recovered || walk is NothingFound
            &&& now >= started + 600_000
            &&& last matches Some(t) ==> now >= t + 21_600_000
        },
{
}

/// After a walk the next is ten minutes on. One that counts adds one to those that agree and
/// is remembered as the last; one that does not leaves both.
pub proof fn what_a_walk_changes(started: u64, p: PaceModel, walk: Walk, now: u64)
    requires
        now <= u64::MAX - 600_000,
        p.agreeing < 4,
    ensures
        ({
            let q = paced(started, p, walk, now);
            &&& q.address == p.address
            &&& q.next_walk == now + 600_000
            &&& counts(started, p.last_counted, walk, now) ==> q.agreeing == p.agreeing + 1
                && q.last_counted == Some(now)
            &&& !counts(started, p.last_counted, walk, now) ==> q.agreeing == p.agreeing
                && q.last_counted == p.last_counted
        }),
        SEAL_AFTER_WALKS == 4,
{
}

/// An address that is new to the pacer is due at once, and nothing has counted for it.
pub proof fn a_new_address_is_due_at_once(address: Seq<u8>, now: u64)
    ensures
        fresh_pace(address, now).address == address,
        fresh_pace(address, now).next_walk == now,
        fresh_pace(address, now).agreeing == 0,
        fresh_pace(address, now).last_counted is None,
{
}

/// A walk comes after those before it: its pace follows from theirs.
pub proof fn walks_are_paced_in_turn(
    started: u64,
    address: Seq<u8>,
    walks: Seq<(Walk, u64)>,
    walk: Walk,
    now: u64,
)
    ensures
        paced_through(started, address, walks.push((walk, now))) == paced(
            started,
            paced_through(started, address, walks),
            walk,
            now,
        ),
        paced_through(started, address, Seq::empty()).agreeing == 0,
{
    let all = walks.push((walk, now));
    assert(all.drop_last() =~= walks);
    assert(all.last() == (walk, now));
}

/// What is carried forward is the merge of the two states where that succeeds, and the base
/// alone where it does not: a state that does not hold up takes nothing away.
pub proof fn a_bad_state_takes_nothing_away(
    base: BitcoinAddressStateV1,
    other: BitcoinAddressStateV1,
    params: BitcoinAddressParameters,
)
    ensures
        ({
            let (after, fault) = merged(
                base.claims.claims.list(),
                base.claims@.scanned,
                other.claims.claims.list(),
                other.claims.scanned.list(),
                params@,
            );
            &&& fault is Some ==> carried(base, other, params) == base.claims@
            &&& fault is None ==> carried(base, other, params) == after
        }),
{
}

/// A claim confirms an output if it reads as a confirmation of that very output.
pub proof fn which_claims_confirm(c: SignedModel, outpoint: OutPoint)
    ensures
        confirms(c, outpoint) <==> body_from(c.body_cbor) is Ok && body_from(
            c.body_cbor,
        )->Ok_0.claim is ConfirmedOutput && body_from(c.body_cbor)->Ok_0.claim.outpoint() == Some(
            outpoint,
        ),
{
}

/// What is said of a walk tells its outcomes apart, and names where something was found.
pub proof fn what_is_said_of_a_walk(outcome: WalkOutcome)
    ensures
        outcome matches WalkOutcome::Recovered { source, .. } ==> outcome_text(outcome)
            == "recovered state from predecessor "@ + source@,
        outcome is SeedLocal ==> outcome_text(outcome)
            == "every predecessor answered, none held state; keeping local"@,
{
}

/// A letter in capitals is lowered to itself in small ones, thirty-two places on; anything
/// else stays.
pub proof fn how_a_letter_is_lowered(c: char)
    ensures
        'A' <= c && c <= 'Z' ==> lower(c) as u32 == c as u32 + 32,
        !('A' <= c && c <= 'Z') ==> lower(c) == c,
{
}

} // verus!
