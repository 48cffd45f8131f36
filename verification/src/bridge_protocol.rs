//! The request protocol between a client and a bridge operator's service.
//!
//! Requests are point-to-point and leave no trace in any contract: a public list of the
//! scripts that somebody cares about would be a record of who watches what. Whether a
//! caller may ask a bridge for work is the operator's policy, and lives here; whether a
//! bridge said something about Bitcoin is a matter of signatures, and lives in
//! [`crate::signing`].

use vstd::prelude::*;

use crate::bytes::{le32_bytes, le32_roundtrip, push_all, push_le32};
use crate::text::{ascii, ascii_bytes, decimal, decimal_text, join, join3};
use crate::types::{BitcoinNetwork, BridgeId, Txid};

verus! {

/// How a caller claims to be entitled to a bridge's service.
#[derive(Clone, PartialEq, Eq, Debug)]
pub enum ServiceAuth {
    /// The bridge serves anyone.
    Open,
    /// The caller holds a Ghost Key and has signed this very request with it.
    GhostKey(GhostKeyAuth),
}

/// A Ghost Key eligibility proof over one specific request.
#[derive(Clone, PartialEq, Eq, Debug)]
pub struct GhostKeyAuth {
    /// The certificate, PEM-armoured, as its holder stores it.
    pub certificate_pem: String,
    /// The nonce that the bridge issued: single-use and short-lived.
    pub challenge: Vec<u8>,
    /// Signature by the ghost key over [`auth_signing_input`].
    pub signature: Vec<u8>,
}

/// Ask a bridge to start, or keep, synchronizing an output script.
#[derive(Clone, PartialEq, Eq, Debug)]
pub struct WatchRequest {
    pub network: BitcoinNetwork,
    /// Canonical `scriptPubKey` bytes.
    pub script_pubkey: Vec<u8>,
    /// A hint that nothing happened before this height.
    pub scan_from_height: Option<u32>,
}

/// Ask a bridge to relay a signed Bitcoin transaction.
#[derive(Clone, PartialEq, Eq, Debug)]
pub struct BroadcastRequest {
    pub network: BitcoinNetwork,
    pub raw_tx: Vec<u8>,
}

/// The body of a service request: what a Ghost Key signature covers.
#[derive(Clone, PartialEq, Eq, Debug)]
pub enum RequestBody {
    Watch(WatchRequest),
    Unwatch(WatchRequest),
    Broadcast(BroadcastRequest),
    /// Public: anyone may ask how fresh a bridge is and which key it signs with.
    Status,
}

/// A complete request as sent to a bridge.
#[derive(Clone, PartialEq, Eq, Debug)]
pub struct ServiceRequest {
    pub body: RequestBody,
    pub auth: ServiceAuth,
}

/// A bridge's public self-description, free of anything about who uses it.
#[derive(Clone, PartialEq, Eq, Debug)]
pub struct BridgeStatus {
    pub bridge: BridgeId,
    pub network: BitcoinNetwork,
    pub tip_height: u32,
    /// Whether the node is still catching up; while it is, an absence of payments means
    /// nothing.
    pub initial_block_download: bool,
    /// Header timestamp of the tip block.
    pub tip_block_time: u32,
    /// The authorization schemes this operator accepts.
    pub accepted_auth: Vec<String>,
    /// The instance id of this network's tip contract.
    pub tip_contract_id: Option<String>,
}

#[derive(Clone, PartialEq, Eq, Debug)]
pub enum ServiceResponse {
    /// The script is being synchronized; observations will appear at `contract_id`.
    Watching {
        contract_id: String,
        scan_from_height: u32,
        /// Whether this bridge was watching the script before. Not a count: that would
        /// tell how many others are interested.
        already_active: bool,
    },
    Unwatched,
    /// The node took the transaction, or had it already.
    Broadcast { txid: Txid, already_known: bool },
    Status(BridgeStatus),
    /// A challenge to sign.
    Challenge { challenge: Vec<u8>, expires_in_s: u32 },
    Error(BridgeError),
}

#[derive(Clone, PartialEq, Eq, Debug)]
pub enum BridgeError {
    /// The caller is not entitled to this service. The detail does not tell a missing
    /// certificate from a bad one.
    NotAuthorized { detail: String },
    /// The challenge was unknown, already used, or expired.
    StaleChallenge,
    /// The bridge is up but cannot answer usefully yet.
    NotSynced { tip_height: u32 },
    /// The node rejected the transaction, for this reason.
    RejectedByNode { reason: String },
    UnsupportedNetwork,
    RateLimited { retry_after_s: u32 },
    Internal { detail: String },
}

/// The bytes that a Ghost Key signs to authorize a request.
pub open spec fn auth_message(challenge: Seq<u8>, body: Seq<u8>) -> Seq<u8> {
    ascii("freenet-bitcoin/service-auth/v1\0"@) + le32_bytes(challenge.len() as u32) + challenge
        + body
}

/// An authorization covers one challenge and one request: no byte can move between the
/// two, and no other challenge or request has the same message.
pub proof fn auth_message_is_injective(
    c1: Seq<u8>,
    b1: Seq<u8>,
    c2: Seq<u8>,
    b2: Seq<u8>,
)
    requires
        c1.len() <= u32::MAX,
        c2.len() <= u32::MAX,
        auth_message(c1, b1) == auth_message(c2, b2),
    ensures
        c1 == c2,
        b1 == b2,
{
    let d = ascii("freenet-bitcoin/service-auth/v1\0"@).len() as int;
    let x = auth_message(c1, b1);
    let y = auth_message(c2, b2);
    le32_roundtrip(c1.len() as u32);
    le32_roundtrip(c2.len() as u32);
    assert(x.subrange(d, d + 4) =~= le32_bytes(c1.len() as u32));
    assert(y.subrange(d, d + 4) =~= le32_bytes(c2.len() as u32));
    assert(c1.len() == c2.len());
    let n = c1.len() as int;
    assert(x.subrange(d + 4, d + 4 + n) =~= c1);
    assert(y.subrange(d + 4, d + 4 + n) =~= c2);
    assert(x.skip(d + 4 + n) =~= b1);
    assert(y.skip(d + 4 + n) =~= b2);
}

/// The exact bytes a Ghost Key signs when authorizing a service request.
pub fn auth_signing_input(challenge: &[u8], request_body_cbor: &[u8]) -> (r: Vec<u8>)
    ensures
        r@ == auth_message(challenge@, request_body_cbor@),
{
    proof {
        reveal_strlit("freenet-bitcoin/service-auth/v1\0");
    }
    let mut v: Vec<u8> = ascii_bytes("freenet-bitcoin/service-auth/v1\0");
    assert(challenge.len() == challenge@.len());
    push_le32(&mut v, challenge.len() as u32);
    push_all(&mut v, challenge);
    push_all(&mut v, request_body_cbor);
    v
}

impl BridgeError {
    pub open spec fn text(self) -> Seq<char> {
        match self {
            BridgeError::NotAuthorized { detail } => "not authorized: "@ + detail@,
            BridgeError::StaleChallenge => "challenge expired or already used"@,
            BridgeError::NotSynced { tip_height } => "bridge still syncing (at height "@
                + decimal_text(tip_height as nat) + ")"@,
            BridgeError::RejectedByNode { reason } => "node rejected: "@ + reason@,
            BridgeError::UnsupportedNetwork => "network not served by this bridge"@,
            BridgeError::RateLimited { retry_after_s } => "rate limited, retry in "@
                + decimal_text(retry_after_s as nat) + "s"@,
            BridgeError::Internal { detail } => "bridge error: "@ + detail@,
        }
    }

    /// What the error says.
    pub fn message(&self) -> (r: String)
        ensures
            r@ == self.text(),
    {
        match self {
            BridgeError::NotAuthorized { detail } => join("not authorized: ", detail),
            BridgeError::StaleChallenge => "challenge expired or already used".to_owned(),
            BridgeError::NotSynced { tip_height } => join3(
                "bridge still syncing (at height ",
                &decimal(*tip_height as u64),
                ")",
            ),
            BridgeError::RejectedByNode { reason } => join("node rejected: ", reason),
            BridgeError::UnsupportedNetwork => "network not served by this bridge".to_owned(),
            BridgeError::RateLimited { retry_after_s } => join3(
                "rate limited, retry in ",
                &decimal(*retry_after_s as u64),
                "s",
            ),
            BridgeError::Internal { detail } => join("bridge error: ", detail),
        }
    }
}

/// A [`WatchRequest`] as a mathematical value.
pub struct WatchModel {
    pub network: BitcoinNetwork,
    pub script_pubkey: Seq<u8>,
    pub scan_from_height: Option<u32>,
}

impl View for WatchRequest {
    type V = WatchModel;

    open spec fn view(&self) -> WatchModel {
        WatchModel {
            network: self.network,
            script_pubkey: self.script_pubkey@,
            scan_from_height: self.scan_from_height,
        }
    }
}

/// A [`RequestBody`] as a mathematical value.
pub enum RequestModel {
    Watch(WatchModel),
    Unwatch(WatchModel),
    Broadcast(BitcoinNetwork, Seq<u8>),
    Status,
}

impl View for RequestBody {
    type V = RequestModel;

    open spec fn view(&self) -> RequestModel {
        match self {
            RequestBody::Watch(w) => RequestModel::Watch(w@),
            RequestBody::Unwatch(w) => RequestModel::Unwatch(w@),
            RequestBody::Broadcast(b) => RequestModel::Broadcast(b.network, b.raw_tx@),
            RequestBody::Status => RequestModel::Status,
        }
    }
}

/// A [`ServiceAuth`] as a mathematical value.
pub enum AuthModel {
    Open,
    GhostKey(Seq<char>, Seq<u8>, Seq<u8>),
}

impl View for ServiceAuth {
    type V = AuthModel;

    open spec fn view(&self) -> AuthModel {
        match self {
            ServiceAuth::Open => AuthModel::Open,
            ServiceAuth::GhostKey(g) => AuthModel::GhostKey(
                g.certificate_pem@,
                g.challenge@,
                g.signature@,
            ),
        }
    }
}

} // verus!
