//! What callers of a bridge's service can rely on.
//!
//! A challenge serves once and for two minutes, an authorization is good for one request, and
//! nobody but the holder of a certified key is served where one is asked for. What is then
//! done is about the one script that was named.

use vstd::prelude::*;

use crate::auth::{
    caller_key, fingerprint_of, is_entitled, is_live, is_refusal, is_usable, left_over, spent,
    Issued, IssuedModel, CHALLENGE_LEN, CHALLENGE_TTL_MS,
};
use crate::bridge_protocol::{auth_message, AuthModel, BridgeError, BridgeStatus, WatchModel};
use crate::bytes::{le32, le32_roundtrip};
use crate::config::AuthPolicy;
use crate::observer::Observer;
use crate::outside::{
    base58_of, blake3_of, can_be_checked, certified_key_of, ed25519_accepts, master_key_of,
};
use crate::service::{
    contract_of, observes, policy_name, serves, starts_at, tip_contract, unwatched, ServiceState,
};
use crate::spv::PowFloor;
use crate::store::{StoreModel, WatchedModel};
use crate::table::{any, put, stands_at, those_are_of_them, Row};
use crate::text::{ascii, decimal_text};
use crate::types::{BitcoinNetwork, BridgeId};

verus! {

// ---------------------------------------------------------------------------
// Challenges
// ---------------------------------------------------------------------------

/// A challenge is live for as long as it is less old than its time, which is two minutes. So
/// one that is live was live before.
pub proof fn a_challenge_lives_for_its_time(c: IssuedModel, now_ms: i64, earlier_ms: i64, ttl_ms: i64)
    ensures
        is_live(c, now_ms, ttl_ms) <==> now_ms < c.at_ms + ttl_ms,
        earlier_ms <= now_ms && is_live(c, now_ms, ttl_ms) ==> is_live(c, earlier_ms, ttl_ms),
        is_live(c, now_ms, CHALLENGE_TTL_MS) <==> now_ms - c.at_ms < 120_000,
        CHALLENGE_LEN == 32,
{
}

/// A challenge can be used exactly if it was issued, and less than its time ago.
pub proof fn a_challenge_is_used_in_time(
    issued: Seq<IssuedModel>,
    challenge: Seq<u8>,
    now_ms: i64,
    ttl_ms: i64,
)
    ensures
        is_usable(issued, challenge, now_ms, ttl_ms) <==> exists|i: int|
            0 <= i < issued.len() && (#[trigger] issued[i]).challenge == challenge && now_ms
                - issued[i].at_ms < ttl_ms,
{
    let p = |c: IssuedModel| c.challenge == challenge && is_live(c, now_ms, ttl_ms);
    if exists|i: int|
        0 <= i < issued.len() && (#[trigger] issued[i]).challenge == challenge && now_ms
            - issued[i].at_ms < ttl_ms {
        let i = choose|i: int|
            0 <= i < issued.len() && (#[trigger] issued[i]).challenge == challenge && now_ms
                - issued[i].at_ms < ttl_ms;
        assert(p(issued[i]));
        assert(any(issued, p));
    }
}

/// A challenge that was issued can be used, and that changes nothing for any other.
pub proof fn a_challenge_that_is_issued_can_be_used(
    issued: Seq<IssuedModel>,
    challenge: Seq<u8>,
    other: Seq<u8>,
    at_ms: i64,
    now_ms: i64,
    ttl_ms: i64,
)
    ensures
        ({
            let after = put::<Issued>(issued, IssuedModel { challenge, at_ms });
            &&& now_ms - at_ms < ttl_ms ==> is_usable(after, challenge, now_ms, ttl_ms)
            &&& other != challenge ==> (is_usable(after, other, now_ms, ttl_ms) <==> is_usable(
                issued,
                other,
                now_ms,
                ttl_ms,
            ))
        }),
{
    let m = IssuedModel { challenge, at_ms };
    let after = put::<Issued>(issued, m);
    let at = if exists|i: int| stands_at::<Issued>(issued, m, i) {
        choose|i: int| stands_at::<Issued>(issued, m, i)
    } else {
        issued.len() as int
    };
    assert(0 <= at < after.len() && after[at] == m);
    a_challenge_is_used_in_time(after, challenge, now_ms, ttl_ms);
    a_challenge_is_used_in_time(after, other, now_ms, ttl_ms);
    a_challenge_is_used_in_time(issued, other, now_ms, ttl_ms);
    if other != challenge {
        if is_usable(after, other, now_ms, ttl_ms) {
            let i = choose|i: int|
                0 <= i < after.len() && (#[trigger] after[i]).challenge == other && now_ms
                    - after[i].at_ms < ttl_ms;
            assert(issued[i] == after[i]);
        }
        if is_usable(issued, other, now_ms, ttl_ms) {
            let i = choose|i: int|
                0 <= i < issued.len() && (#[trigger] issued[i]).challenge == other && now_ms
                    - issued[i].at_ms < ttl_ms;
            if i == at {
                assert(Issued::key(issued[i]) == Issued::key(m));
            }
            assert(after[i] == issued[i]);
        }
    }
}

/// Handing a challenge in takes that one away, and leaves every other.
pub proof fn a_challenge_is_spent_alone(
    issued: Seq<IssuedModel>,
    challenge: Seq<u8>,
    now_ms: i64,
    ttl_ms: i64,
    c: IssuedModel,
)
    ensures
        spent(issued, challenge, now_ms, ttl_ms).contains(c) <==> issued.contains(c)
            && !(c.challenge == challenge && now_ms - c.at_ms < ttl_ms),
{
    let keep = |c: IssuedModel| !(c.challenge == challenge && is_live(c, now_ms, ttl_ms));
    those_are_of_them(issued, keep);
}

// ---------------------------------------------------------------------------
// Authorization
// ---------------------------------------------------------------------------

/// A caller signs thirty-two fixed bytes, how long the challenge is, the challenge, and the
/// body: each can be read back from its place.
pub proof fn what_a_caller_signs(challenge: Seq<u8>, body: Seq<u8>)
    requires
        challenge.len() <= u32::MAX,
    ensures
        ({
            let m = auth_message(challenge, body);
            let n = challenge.len() as int;
            &&& m.len() == 36 + n + body.len()
            &&& m.subrange(0, 32) == ascii("freenet-bitcoin/service-auth/v1\0"@)
            &&& le32(m, 32) == n
            &&& m.subrange(36, 36 + n) == challenge
            &&& m.subrange(36 + n, m.len() as int) == body
        }),
{
    reveal_strlit("freenet-bitcoin/service-auth/v1\0");
    let head = ascii("freenet-bitcoin/service-auth/v1\0"@);
    assert(head.len() == 32);
    le32_roundtrip(challenge.len() as u32);
    let m = auth_message(challenge, body);
    let n = challenge.len() as int;
    let size = crate::bytes::le32_bytes(challenge.len() as u32);
    assert(m[32] == size[0] && m[33] == size[1] && m[34] == size[2] && m[35] == size[3]);
    assert(m.subrange(0, 32) =~= head);
    assert(m.subrange(36, 36 + n) =~= challenge);
    assert(m.subrange(36 + n, m.len() as int) =~= body);
}

/// A caller is known by the first sixteen bytes of a hash of its key.
pub proof fn a_fingerprint_is_half_a_hash(key: Seq<u8>)
    requires
        blake3_of(ascii("freenet-bitcoin/ghostkey-fp/v1"@) + key).len() == 32,
    ensures
        ({
            let hash = blake3_of(ascii("freenet-bitcoin/ghostkey-fp/v1"@) + key);
            &&& fingerprint_of(key) == base58_of(hash.subrange(0, 16))
        }),
{
}

/// An open bridge serves everyone, and takes no challenge for it.
pub proof fn an_open_bridge_serves_everyone(
    auth: AuthModel,
    body: Seq<u8>,
    issued: Seq<IssuedModel>,
    now_ms: i64,
)
    ensures
        is_entitled(AuthPolicy::Open, auth, body, issued, now_ms),
        left_over(AuthPolicy::Open, auth, issued, now_ms) == issued,
{
}

/// Where a Ghost Key is asked for, a caller is served exactly if it hands in a challenge
/// issued less than two minutes ago, shows a certificate that holds under the master key,
/// and has signed the challenge and this very body with the certified key.
pub proof fn who_is_served(
    master: Option<String>,
    pem: Seq<char>,
    challenge: Seq<u8>,
    signature: Seq<u8>,
    body: Seq<u8>,
    issued: Seq<IssuedModel>,
    now_ms: i64,
)
    ensures
        ({
            let policy = AuthPolicy::GhostKey { master_verifying_key_b64: master };
            let auth = AuthModel::GhostKey(pem, challenge, signature);
            let certified = match master {
                None => certified_key_of(pem, None),
                Some(text) => if master_key_of(text@) is Some {
                    certified_key_of(pem, Some(master_key_of(text@)->Some_0))
                } else {
                    None
                },
            };
            &&& is_entitled(policy, auth, body, issued, now_ms) <==> {
                &&& exists|i: int|
                    0 <= i < issued.len() && (#[trigger] issued[i]).challenge == challenge && now_ms
                        - issued[i].at_ms < 120_000
                &&& can_be_checked(pem)
                &&& certified is Some
                &&& signature.len() == 64
                &&& ed25519_accepts(certified->Some_0, auth_message(challenge, body), signature)
            }
            &&& is_entitled(policy, auth, body, issued, now_ms) ==> caller_key(policy, auth, body)
                == certified
            &&& !is_entitled(policy, AuthModel::Open, body, issued, now_ms)
        }),
{
    a_challenge_is_used_in_time(issued, challenge, now_ms, CHALLENGE_TTL_MS);
}

/// An authorization is good for one request: the same one is refused at any later time, as
/// one whose challenge is stale, and so is any other with that challenge.
pub proof fn an_authorization_is_good_once(
    master: Option<String>,
    pem: Seq<char>,
    challenge: Seq<u8>,
    signature: Seq<u8>,
    other_pem: Seq<char>,
    other_signature: Seq<u8>,
    body: Seq<u8>,
    issued: Seq<IssuedModel>,
    now_ms: i64,
    later_ms: i64,
    e: BridgeError,
)
    requires
        now_ms <= later_ms,
    ensures
        ({
            let policy = AuthPolicy::GhostKey { master_verifying_key_b64: master };
            let auth = AuthModel::GhostKey(pem, challenge, signature);
            let again = AuthModel::GhostKey(other_pem, challenge, other_signature);
            let rest = left_over(policy, auth, issued, now_ms);
            &&& !is_entitled(policy, again, body, rest, later_ms)
            &&& is_refusal(policy, again, rest, later_ms, e) <==> e == BridgeError::StaleChallenge
        }),
{
    crate::auth::a_challenge_is_spent_at_once(
        issued,
        challenge,
        now_ms,
        later_ms,
        CHALLENGE_TTL_MS,
    );
}

/// A caller who is refused with a live challenge learns only that a valid key is needed: the
/// answer is the same whatever is wrong with the certificate or the signature.
pub proof fn a_refusal_says_nothing_of_the_certificate(
    policy: AuthPolicy,
    pem: Seq<char>,
    other_pem: Seq<char>,
    challenge: Seq<u8>,
    signature: Seq<u8>,
    other_signature: Seq<u8>,
    issued: Seq<IssuedModel>,
    now_ms: i64,
    e: BridgeError,
    f: BridgeError,
)
    requires
        is_refusal(policy, AuthModel::GhostKey(pem, challenge, signature), issued, now_ms, e),
        is_refusal(
            policy,
            AuthModel::GhostKey(other_pem, challenge, other_signature),
            issued,
            now_ms,
            f,
        ),
    ensures
        is_usable(issued, challenge, now_ms, CHALLENGE_TTL_MS) ==> {
            &&& e is NotAuthorized && f is NotAuthorized
            &&& e->NotAuthorized_detail@
                == "a valid Ghost Key is required for this bridge's service"@
            &&& f->NotAuthorized_detail@ == e->NotAuthorized_detail@
        },
        !is_usable(issued, challenge, now_ms, CHALLENGE_TTL_MS) ==> e is StaleChallenge
            && f is StaleChallenge,
{
}

// ---------------------------------------------------------------------------
// What is served
// ---------------------------------------------------------------------------

/// A network's tip contract is the first that is given for it.
pub proof fn a_tip_contract_is_the_first_given(
    ids: Seq<(BitcoinNetwork, String)>,
    net: BitcoinNetwork,
    i: int,
)
    requires
        0 <= i <= ids.len(),
        forall|j: int| 0 <= j < i ==> (#[trigger] ids[j]).0 != net,
        i < ids.len() ==> ids[i].0 == net,
    ensures
        tip_contract(ids, net) == if i < ids.len() {
            Some(ids[i].1@)
        } else {
            None
        },
    decreases ids.len(),
{
    if ids.len() > 0 && i > 0 {
        assert(ids[0].0 != net);
        let rest = ids.subrange(1, ids.len() as int);
        assert forall|j: int| 0 <= j < i - 1 implies (#[trigger] rest[j]).0 != net by {
            assert(rest[j] == ids[j + 1]);
        }
        if i < ids.len() {
            assert(rest[i - 1] == ids[i]);
        }
        a_tip_contract_is_the_first_given(rest, net, i - 1);
    }
}

/// A network is served exactly if an observer follows it, and the first that does answers
/// for it.
pub proof fn a_network_is_served_by_its_first_observer(
    v: Seq<Observer>,
    net: BitcoinNetwork,
    i: int,
    j: int,
)
    ensures
        observes(v, net, i) && observes(v, net, j) ==> i == j,
        observes(v, net, i) ==> serves(v, net) && v[i].cfg.network == net,
        0 <= i < v.len() && v[i].cfg.network == net ==> serves(v, net),
        (forall|k: int| 0 <= k < v.len() ==> (#[trigger] v[k]).cfg.network != net) ==> !serves(
            v,
            net,
        ),
{
    if observes(v, net, i) && observes(v, net, j) {
        if i < j {
            assert(v[i].cfg.network != net);
        } else if j < i {
            assert(v[j].cfg.network != net);
        }
    }
}

/// A status gives the network's height and state as the node gave them, the bridge's key,
/// and what it asks of callers.
pub proof fn a_status_says_what_the_node_said(
    me: ServiceState,
    s: BridgeStatus,
    net: BitcoinNetwork,
    tip_height: u32,
    downloading: bool,
)
    requires
        me.describes(s, net, tip_height, downloading),
    ensures
        s.bridge == me.bridge,
        s.network == net,
        s.tip_height == tip_height,
        s.initial_block_download == downloading,
        s.accepted_auth@.len() == 1,
        me.auth is Open ==> s.accepted_auth@[0]@ == "none"@,
        !(me.auth is Open) ==> s.accepted_auth@[0]@ == "ghostkey"@,
        s.tip_contract_id is Some <==> tip_contract(me.tip_contract_ids@, net) is Some,
        s.tip_contract_id matches Some(t) ==> Some(t@) == tip_contract(me.tip_contract_ids@, net),
{
}

/// Every node that answered has its status.
pub proof fn every_node_that_answered_has_its_status(
    me: ServiceState,
    r: Seq<BridgeStatus>,
    nodes: Seq<Option<(u32, bool)>>,
    n: int,
    i: int,
) -> (j: int)
    requires
        0 <= i < n <= nodes.len(),
        nodes[i] is Some,
        me.are_statuses(r, nodes, n),
    ensures
        0 <= j < r.len(),
        me.describes(
            r[j],
            me.observers@[i].cfg.network,
            nodes[i]->Some_0.0,
            nodes[i]->Some_0.1,
        ),
    decreases n,
{
    if i == n - 1 {
        r.len() - 1
    } else {
        let before = if nodes[n - 1] is Some {
            r.take(r.len() - 1)
        } else {
            r
        };
        let j = every_node_that_answered_has_its_status(me, before, nodes, n - 1, i);
        assert(r[j] == before[j]);
        j
    }
}

/// Every status is that of a node that answered.
pub proof fn every_status_is_of_a_node_that_answered(
    me: ServiceState,
    r: Seq<BridgeStatus>,
    nodes: Seq<Option<(u32, bool)>>,
    n: int,
    j: int,
) -> (i: int)
    requires
        0 <= n <= nodes.len(),
        0 <= j < r.len(),
        me.are_statuses(r, nodes, n),
    ensures
        0 <= i < n,
        nodes[i] is Some,
        me.describes(
            r[j],
            me.observers@[i].cfg.network,
            nodes[i]->Some_0.0,
            nodes[i]->Some_0.1,
        ),
    decreases n,
{
    if nodes[n - 1] is Some && j == r.len() - 1 {
        n - 1
    } else {
        let before = if nodes[n - 1] is Some {
            r.take(r.len() - 1)
        } else {
            r
        };
        assert(before[j] == r[j]);
        every_status_is_of_a_node_that_answered(me, before, nodes, n - 1, j)
    }
}

/// There are as many statuses as nodes that answered: one more for each.
pub proof fn statuses_are_as_many_as_answers(
    me: ServiceState,
    r: Seq<BridgeStatus>,
    nodes: Seq<Option<(u32, bool)>>,
    n: int,
)
    requires
        0 <= n <= nodes.len(),
        me.are_statuses(r, nodes, n),
    ensures
        r.len() == nodes.take(n).filter(|a: Option<(u32, bool)>| a is Some).len(),
    decreases n,
{
    let some = |a: Option<(u32, bool)>| a is Some;
    let all = nodes.take(n);
    reveal(Seq::filter);
    if n > 0 {
        assert(all.drop_last() =~= nodes.take(n - 1));
        assert(all.last() == nodes[n - 1]);
        let before = if nodes[n - 1] is Some {
            r.take(r.len() - 1)
        } else {
            r
        };
        statuses_are_as_many_as_answers(me, before, nodes, n - 1);
    }
}

/// A watch starts at the height that the caller gave, and never above the tip.
pub proof fn a_requested_watch_starts_no_later_than_the_tip(w: WatchModel, tip: u32)
    ensures
        starts_at(w, tip) <= tip,
        w.scan_from_height is None ==> starts_at(w, tip) == tip,
        w.scan_from_height matches Some(h) ==> starts_at(w, tip) <= h && (starts_at(w, tip) == h
            || starts_at(w, tip) == tip),
{
}

/// Observations of a script appear in the contract for that script on that network, which
/// trusts this bridge and no other, and asks for work wherever the network has any.
pub proof fn where_a_script_is_observed(net: BitcoinNetwork, script: Seq<u8>, bridge: BridgeId)
    ensures
        contract_of(net, script, bridge).network == net,
        contract_of(net, script, bridge).script_pubkey == script,
        contract_of(net, script, bridge).trusted_bridges == seq![bridge],
        contract_of(BitcoinNetwork::Bitcoin, script, bridge).pow_floor == PowFloor(0x1900_ffff),
        !(net is Bitcoin) ==> contract_of(net, script, bridge).pow_floor == PowFloor(0x207f_ffff),
{
}

/// A caller ends the watches of one script on one network, and none of those that the
/// operator shows: every other stays as it is.
pub proof fn a_caller_ends_its_own_watch_alone(s: StoreModel, w: WatchModel, r: (WatchedModel, i64))
    ensures
        unwatched(s, w).watched.contains(r) <==> s.watched.contains(r) && (r.0.network != w.network
            || r.0.script_pubkey != w.script_pubkey || r.0.is_public_demo),
        unwatched(s, w) == (StoreModel { watched: unwatched(s, w).watched, ..s }),
{
    let keep = |r: (WatchedModel, i64)|
        !(r.0.network == w.network && r.0.script_pubkey == w.script_pubkey && !r.0.is_public_demo);
    those_are_of_them(s.watched, keep);
}

/// What an operator asks of callers has one name each.
pub proof fn each_policy_has_its_name(p: AuthPolicy)
    ensures
        p is Open <==> policy_name(p) == "none"@,
        p is GhostKey <==> policy_name(p) == "ghostkey"@,
{
    reveal_strlit("none");
    reveal_strlit("ghostkey");
    assert("none"@.len() != "ghostkey"@.len());
}

/// What an error says holds what it is about.
pub proof fn what_an_error_says(detail: String, height: u32, seconds: u32)
    ensures
        (BridgeError::NotAuthorized { detail }).text() == "not authorized: "@ + detail@,
        (BridgeError::RejectedByNode { reason: detail }).text() == "node rejected: "@ + detail@,
        (BridgeError::Internal { detail }).text() == "bridge error: "@ + detail@,
        (BridgeError::NotSynced { tip_height: height }).text()
            == "bridge still syncing (at height "@ + decimal_text(height as nat) + ")"@,
        (BridgeError::RateLimited { retry_after_s: seconds }).text() == "rate limited, retry in "@
            + decimal_text(seconds as nat) + "s"@,
        BridgeError::StaleChallenge.text() == "challenge expired or already used"@,
        BridgeError::UnsupportedNetwork.text() == "network not served by this bridge"@,
{
}

} // verus!
