//! The bridge's request service.
//!
//! Requests are answered point to point, and nothing about them is published: a contract
//! that listed the scripts somebody wants would tell everyone who cares about what.

use vstd::prelude::*;

use crate::auth::{
    authorize, is_entitled, is_live, is_refusal, left_over, new_challenge, Challenges, Issued,
    IssuedModel, CHALLENGE_LEN, CHALLENGE_TTL_MS,
};
use crate::bridge_protocol::{
    BridgeError, BridgeStatus, BroadcastRequest, RequestBody, RequestModel, ServiceRequest,
    ServiceResponse, WatchModel, WatchRequest,
};
use crate::bytes::copy_all;
use crate::cbor::bytes_of;
use crate::config::AuthPolicy;
use crate::freenet::{address_instance_id, instance_id_b58};
use crate::observer::Observer;
use crate::outside::{base58_of, blake3_of};
use crate::spv::PowFloor;
use crate::store::{watch_added, Store, StoreModel, WatchedModel, WatchedScript};
use crate::table::{put, those};
use crate::types::{BitcoinNetwork, BridgeId, ParamsModel, Txid};
use crate::wire::{address_params_item, to_cbor, Record};

verus! {

/// What the service goes by.
#[derive(Debug)]
pub struct ServiceState {
    pub bridge: BridgeId,
    pub auth: AuthPolicy,
    /// One for each network that is served.
    pub observers: Vec<Observer>,
    /// The hash of the address contract's code, from which callers derive addresses.
    pub address_code_hash: Option<[u8; 32]>,
    /// The address of each network's tip contract.
    pub tip_contract_ids: Vec<(BitcoinNetwork, String)>,
}

/// What has to be done before a request can be answered.
#[derive(Debug)]
pub enum Next {
    /// Nothing.
    Answer(ServiceResponse),
    /// Read the tip of the first network, and whether its node is catching up.
    ReadStatus,
    /// Read the tip of the network.
    ReadTip(WatchRequest),
    /// Hand the transaction to the network's node.
    Relay(BroadcastRequest),
}

/// Whether `i` is the first observer of a network.
pub open spec fn observes(v: Seq<Observer>, net: BitcoinNetwork, i: int) -> bool {
    &&& 0 <= i < v.len()
    &&& v[i].cfg.network == net
    &&& forall|j: int| 0 <= j < i ==> (#[trigger] v[j]).cfg.network != net
}

/// Whether a network is served.
pub open spec fn serves(v: Seq<Observer>, net: BitcoinNetwork) -> bool {
    exists|i: int| 0 <= i < v.len() && (#[trigger] v[i]).cfg.network == net
}

/// The address of a network's tip contract, if it is known.
pub open spec fn tip_contract(ids: Seq<(BitcoinNetwork, String)>, net: BitcoinNetwork) -> Option<
    Seq<char>,
>
    decreases ids.len(),
{
    if ids.len() == 0 {
        None
    } else if ids[0].0 == net {
        Some(ids[0].1@)
    } else {
        tip_contract(ids.subrange(1, ids.len() as int), net)
    }
}

/// The name of a policy, as callers are told it.
pub open spec fn policy_name(p: AuthPolicy) -> Seq<char> {
    match p {
        AuthPolicy::Open => "none"@,
        AuthPolicy::GhostKey { .. } => "ghostkey"@,
    }
}

impl ServiceState {
    /// Whether a status is that of a network, at this height.
    pub open spec fn describes(
        self,
        s: BridgeStatus,
        net: BitcoinNetwork,
        tip_height: u32,
        downloading: bool,
    ) -> bool {
        &&& s.bridge == self.bridge
        &&& s.network == net
        &&& s.tip_height == tip_height
        &&& s.initial_block_download == downloading
        &&& s.tip_block_time == 0
        &&& s.accepted_auth@.len() == 1
        &&& s.accepted_auth@[0]@ == policy_name(self.auth)
        &&& match s.tip_contract_id {
            Some(t) => tip_contract(self.tip_contract_ids@, net) == Some(t@),
            None => tip_contract(self.tip_contract_ids@, net) is None,
        }
    }

    pub fn observer(&self, net: BitcoinNetwork) -> (r: Option<&Observer>)
        ensures
            r is Some <==> serves(self.observers@, net),
            r matches Some(o) ==> exists|i: int|
                #[trigger] observes(self.observers@, net, i) && *o == self.observers@[i],
    {
        let n: usize = self.observers.len();
        for i in 0..n
            invariant
                n == self.observers@.len(),
                forall|j: int| 0 <= j < i ==> (#[trigger] self.observers@[j]).cfg.network != net,
        {
            if self.observers[i].network() == net {
                assert(observes(self.observers@, net, i as int));
                return Some(&self.observers[i]);
            }
        }
        None
    }

    fn tip_contract_id(&self, net: BitcoinNetwork) -> (r: Option<String>)
        ensures
            match r {
                Some(t) => tip_contract(self.tip_contract_ids@, net) == Some(t@),
                None => tip_contract(self.tip_contract_ids@, net) is None,
            },
    {
        let ghost ids = self.tip_contract_ids@;
        let n: usize = self.tip_contract_ids.len();
        assert(ids.subrange(0, n as int) =~= ids);
        for i in 0..n
            invariant
                ids == self.tip_contract_ids@,
                n == ids.len(),
                tip_contract(ids, net) == tip_contract(ids.subrange(i as int, n as int), net),
        {
            let e = &self.tip_contract_ids[i];
            proof {
                let rest = ids.subrange(i as int, n as int);
                assert(rest[0] == ids[i as int]);
                assert(rest.subrange(1, rest.len() as int) =~= ids.subrange(i + 1, n as int));
            }
            if e.0 == net {
                return Some(e.1.as_str().to_owned());
            }
        }
        assert(ids.subrange(n as int, n as int).len() == 0);
        None
    }

    /// What the bridge says of itself and one of its networks.
    pub fn describe(&self, net: BitcoinNetwork, tip_height: u32, downloading: bool) -> (r:
        BridgeStatus)
        ensures
            self.describes(r, net, tip_height, downloading),
    {
        let name = match self.auth {
            AuthPolicy::Open => "none".to_owned(),
            AuthPolicy::GhostKey { .. } => "ghostkey".to_owned(),
        };
        let mut accepted_auth: Vec<String> = Vec::new();
        accepted_auth.push(name);
        BridgeStatus {
            bridge: self.bridge,
            network: net,
            tip_height,
            initial_block_download: downloading,
            tip_block_time: 0,
            accepted_auth,
            tip_contract_id: self.tip_contract_id(net),
        }
    }

    /// What anyone may know of the bridge: its networks, as far as their nodes answer. For
    /// each observer `nodes` holds the height of the tip and whether the node is catching
    /// up, if both could be read.
    pub fn status(&self, nodes: &Vec<Option<(u32, bool)>>) -> (r: Vec<BridgeStatus>)
        requires
            nodes@.len() == self.observers@.len(),
        ensures
            self.are_statuses(r@, nodes@, nodes@.len() as int),
    {
        let mut r: Vec<BridgeStatus> = Vec::new();
        let n: usize = nodes.len();
        for i in 0..n
            invariant
                n == nodes@.len(),
                nodes@.len() == self.observers@.len(),
                self.are_statuses(r@, nodes@, i as int),
        {
            match nodes[i] {
                Some((height, downloading)) => {
                    let s = self.describe(self.observers[i].network(), height, downloading);
                    let ghost before = r@;
                    r.push(s);
                    assert(r@.take(r@.len() - 1) =~= before);
                },
                None => {},
            }
        }
        r
    }

    /// Whether statuses are those of the first `n` observers whose nodes answered.
    pub open spec fn are_statuses(
        self,
        r: Seq<BridgeStatus>,
        nodes: Seq<Option<(u32, bool)>>,
        n: int,
    ) -> bool
        decreases n,
    {
        if n <= 0 {
            r.len() == 0
        } else {
            match nodes[n - 1] {
                None => self.are_statuses(r, nodes, n - 1),
                Some((height, downloading)) => r.len() > 0 && self.describes(
                    r.last(),
                    self.observers@[n - 1].cfg.network,
                    height,
                    downloading,
                ) && self.are_statuses(r.take(r.len() - 1), nodes, n - 1),
            }
        }
    }

    /// Take a request in: what is to be done next, or the answer.
    ///
    /// The status is public, and is read without any credential: otherwise nobody could
    /// find out what the bridge is before being entitled to it. Any other request is
    /// checked over the very bytes of its body.
    pub fn begin(
        &self,
        store: &mut Store,
        challenges: &mut Challenges,
        req: ServiceRequest,
        now_ms: i64,
    ) -> (r: Next)
        ensures
            ({
                let body = req.body@;
                let bytes = bytes_of(req.body.item());
                let entitled = is_entitled(
                    self.auth,
                    req.auth@,
                    bytes,
                    old(challenges)@,
                    now_ms,
                );
                &&& final(challenges)@ == (if body is Status {
                    old(challenges)@
                } else {
                    left_over(self.auth, req.auth@, old(challenges)@, now_ms)
                })
                &&& final(store)@ == (match body {
                    RequestModel::Unwatch(w) if entitled => unwatched(old(store)@, w),
                    _ => old(store)@,
                })
                &&& match body {
                    RequestModel::Status => if self.observers@.len() == 0 {
                        r == Next::Answer(ServiceResponse::Error(BridgeError::UnsupportedNetwork))
                    } else {
                        r is ReadStatus
                    },
                    _ if !entitled => r matches Next::Answer(ServiceResponse::Error(e))
                        && is_refusal(self.auth, req.auth@, old(challenges)@, now_ms, e),
                    RequestModel::Unwatch(_) => r == Next::Answer(ServiceResponse::Unwatched),
                    RequestModel::Watch(w) => if serves(self.observers@, w.network) {
                        r matches Next::ReadTip(x) && x@ == w
                    } else {
                        r == Next::Answer(ServiceResponse::Error(BridgeError::UnsupportedNetwork))
                    },
                    RequestModel::Broadcast(net, raw) => if serves(self.observers@, net) {
                        r matches Next::Relay(b) && b.network == net && b.raw_tx@ == raw
                    } else {
                        r == Next::Answer(ServiceResponse::Error(BridgeError::UnsupportedNetwork))
                    },
                }
            }),
    {
        let body_cbor = match req.body {
            RequestBody::Status => {
                return if self.observers.len() == 0 {
                    Next::Answer(ServiceResponse::Error(BridgeError::UnsupportedNetwork))
                } else {
                    Next::ReadStatus
                };
            },
            _ => to_cbor(&req.body).unwrap(),
        };
        match authorize(&self.auth, &req.auth, &body_cbor, challenges, now_ms) {
            Ok(_) => {},
            Err(e) => {
                return Next::Answer(ServiceResponse::Error(e));
            },
        }
        match req.body {
            RequestBody::Watch(w) => match self.observer(w.network) {
                Some(_) => Next::ReadTip(w),
                None => Next::Answer(ServiceResponse::Error(BridgeError::UnsupportedNetwork)),
            },
            RequestBody::Unwatch(w) => {
                store.remove_watch(w.network, &w.script_pubkey);
                Next::Answer(ServiceResponse::Unwatched)
            },
            RequestBody::Broadcast(b) => match self.observer(b.network) {
                Some(_) => Next::Relay(b),
                None => Next::Answer(ServiceResponse::Error(BridgeError::UnsupportedNetwork)),
            },
            RequestBody::Status => Next::ReadStatus,
        }
    }

    /// Answer a status request, with what the first network's node said: a node that does
    /// not answer counts as one that has nothing and is catching up.
    pub fn status_reply(&self, tip_height: Option<u32>, downloading: Option<bool>) -> (r:
        ServiceResponse)
        ensures
            if self.observers@.len() == 0 {
                r == ServiceResponse::Error(BridgeError::UnsupportedNetwork)
            } else {
                r matches ServiceResponse::Status(s) && self.describes(
                    s,
                    self.observers@[0].cfg.network,
                    (match tip_height {
                        Some(h) => h,
                        None => 0,
                    }),
                    (match downloading {
                        Some(d) => d,
                        None => true,
                    }),
                )
            },
    {
        if self.observers.len() == 0 {
            return ServiceResponse::Error(BridgeError::UnsupportedNetwork);
        }
        let height: u32 = match tip_height {
            Some(h) => h,
            None => 0,
        };
        let d = match downloading {
            Some(d) => d,
            None => true,
        };
        ServiceResponse::Status(self.describe(self.observers[0].network(), height, d))
    }

    /// Answer a request to watch a script, once the tip of its network has been read. What
    /// was asked for starts at the height that the caller gave, or at the tip; a height
    /// above the tip would blind the bridge to what comes before it.
    pub fn watch_reply(
        &self,
        store: &mut Store,
        w: &WatchRequest,
        tip_height: Result<u32, String>,
        now_ms: i64,
    ) -> (r: ServiceResponse)
        ensures
            match tip_height {
                Err(e) => {
                    &&& final(store)@ == old(store)@
                    &&& r == if serves(self.observers@, w.network) {
                        ServiceResponse::Error(BridgeError::Internal { detail: e })
                    } else {
                        ServiceResponse::Error(BridgeError::UnsupportedNetwork)
                    }
                },
                Ok(tip) => if !serves(self.observers@, w.network) {
                    &&& final(store)@ == old(store)@
                    &&& r == ServiceResponse::Error(BridgeError::UnsupportedNetwork)
                } else {
                    &&& final(store)@ == (StoreModel {
                        watched: watch_added(
                            old(store)@.watched,
                            WatchedModel {
                                network: w.network,
                                script_pubkey: w.script_pubkey@,
                                scan_from_height: starts_at(w@, tip),
                                is_public_demo: false,
                            },
                            now_ms,
                        ),
                        ..old(store)@
                    })
                    &&& r matches ServiceResponse::Watching {
                        contract_id,
                        scan_from_height,
                        already_active,
                    }
                    &&& scan_from_height == starts_at(w@, tip)
                    &&& already_active == old(store)@.is_watched(w.network, w.script_pubkey@)
                    &&& contract_id@ == (match self.address_code_hash {
                        Some(h) => base58_of(
                            blake3_of(
                                h@ + bytes_of(
                                    address_params_item(
                                        contract_of(w.network, w.script_pubkey@, self.bridge),
                                    ),
                                ),
                            ),
                        ),
                        None => Seq::<char>::empty(),
                    })
                },
            },
    {
        let obs = match self.observer(w.network) {
            Some(o) => o,
            None => {
                return ServiceResponse::Error(BridgeError::UnsupportedNetwork);
            },
        };
        let tip: u32 = match tip_height {
            Ok(t) => t,
            Err(e) => {
                return ServiceResponse::Error(BridgeError::Internal { detail: e });
            },
        };
        let from: u32 = match w.scan_from_height {
            Some(h) => if h < tip {
                h
            } else {
                tip
            },
            None => tip,
        };
        let already = store.add_watch(
            &WatchedScript {
                network: w.network,
                script_pubkey: copy_all(&w.script_pubkey),
                scan_from_height: from,
                is_public_demo: false,
            },
            now_ms,
        );
        let contract_id = match self.address_code_hash {
            Some(h) => {
                let params = obs.address_params(&w.script_pubkey, self.bridge);
                instance_id_b58(&address_instance_id(&h, &params))
            },
            None => String::new(),
        };
        ServiceResponse::Watching {
            contract_id,
            scan_from_height: from,
            already_active: already,
        }
    }
}

/// The height from which a script is watched.
pub open spec fn starts_at(w: WatchModel, tip: u32) -> u32 {
    match w.scan_from_height {
        Some(h) if h < tip => h,
        _ => tip,
    }
}

/// The parameters of the contract in which a bridge publishes a script's activity.
pub open spec fn contract_of(net: BitcoinNetwork, script: Seq<u8>, bridge: BridgeId) -> ParamsModel {
    ParamsModel {
        network: net,
        script_pubkey: script,
        trusted_bridges: seq![bridge],
        pow_floor: PowFloor(
            if net is Bitcoin {
                0x1900_ffffu32
            } else {
                0x207f_ffffu32
            },
        ),
    }
}

/// A bridge's records once a script is no longer watched. The operator's own demo scripts
/// stay.
pub open spec fn unwatched(s: StoreModel, w: WatchModel) -> StoreModel {
    StoreModel {
        watched: those(
            s.watched,
            |r: (WatchedModel, i64)|
                !(r.0.network == w.network && r.0.script_pubkey == w.script_pubkey
                    && !r.0.is_public_demo),
        ),
        ..s
    }
}

/// Answer a request to relay a transaction, with what the node said.
pub fn relay_reply(outcome: Result<(Txid, bool), String>) -> (r: ServiceResponse)
    ensures
        r == (match outcome {
            Ok((txid, already_known)) => ServiceResponse::Broadcast { txid, already_known },
            Err(reason) => ServiceResponse::Error(BridgeError::RejectedByNode { reason }),
        }),
{
    match outcome {
        Ok((txid, already_known)) => ServiceResponse::Broadcast { txid, already_known },
        Err(reason) => ServiceResponse::Error(BridgeError::RejectedByNode { reason }),
    }
}

/// Issue a challenge, and forget those whose time is over.
pub fn challenge(challenges: &mut Challenges, now_ms: i64) -> (r: Vec<u8>)
    ensures
        r@.len() == CHALLENGE_LEN,
        final(challenges)@ == put::<Issued>(
            those(old(challenges)@, |c: IssuedModel| is_live(c, now_ms, CHALLENGE_TTL_MS)),
            IssuedModel { challenge: r@, at_ms: now_ms },
        ),
{
    let c = new_challenge();
    challenges.purge_expired_challenges(now_ms, CHALLENGE_TTL_MS);
    challenges.issue_challenge(&c, now_ms);
    c
}

/// The HTTP status that an answer is sent with.
pub fn status_code(resp: &ServiceResponse) -> (r: u16)
    ensures
        r == (match *resp {
            ServiceResponse::Error(e) => match e {
                BridgeError::NotAuthorized { .. } => 403u16,
                BridgeError::StaleChallenge => 401,
                BridgeError::RateLimited { .. } => 429,
                BridgeError::Internal { .. } => 500,
                _ => 400,
            },
            _ => 200,
        }),
{
    match resp {
        ServiceResponse::Error(e) => match e {
            BridgeError::NotAuthorized { .. } => 403,
            BridgeError::StaleChallenge => 401,
            BridgeError::RateLimited { .. } => 429,
            BridgeError::Internal { .. } => 500,
            _ => 400,
        },
        _ => 200,
    }
}

/// No request ends the watch on a demo script of the operator's.
pub proof fn no_user_ends_what_the_operator_shows(s: StoreModel, w: WatchModel, i: int)
    requires
        0 <= i < s.watched.len(),
        s.watched[i].0.is_public_demo,
    ensures
        unwatched(s, w).watched.contains(s.watched[i]),
{
    let p = |r: (WatchedModel, i64)|
        !(r.0.network == w.network && r.0.script_pubkey == w.script_pubkey && !r.0.is_public_demo);
    crate::table::those_are_of_them(s.watched, p);
}

} // verus!
