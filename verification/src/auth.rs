//! Whether a caller may ask this bridge for work.
//!
//! That is the operator's policy, and nothing that is decided here is ever published:
//! evidence of who is interested in which address must not reach the network. Whether a
//! bridge has said something about Bitcoin is another question, which signatures answer.

use vstd::prelude::*;

use crate::bridge_protocol::{
    auth_message, auth_message_is_injective, auth_signing_input, AuthModel, BridgeError,
    GhostKeyAuth, ServiceAuth,
};
use crate::bytes::{copy_all, copy_range, push_all, same_bytes};
use crate::config::AuthPolicy;
use crate::outside::{
    base58_encode, base58_of, blake3_hash, blake3_of, can_be_checked, certificate_signature,
    certified_key, certified_key_of,
    ed25519_accepts, ed25519_check, master_key, master_key_of, random32,
};
use crate::table::{any, put, those, those_are_of_them, Row, Table};
use crate::text::{ascii, ascii_bytes};

verus! {

/// How long a challenge can be used, in milliseconds: long enough for a slow signer, short
/// enough to show that the caller is acting now.
pub const CHALLENGE_TTL_MS: i64 = 120_000;

/// How many bytes a challenge has.
pub const CHALLENGE_LEN: usize = 32;

/// What the bridge concluded about a caller.
#[derive(Clone, PartialEq, Eq, Debug)]
pub enum Authorized {
    /// The operator serves everyone.
    Open,
    /// The caller holds a Ghost Key, known by this fingerprint. It never leaves the bridge.
    GhostKey { fingerprint: String },
}

/// A challenge that nobody can predict.
pub fn new_challenge() -> (r: Vec<u8>)
    ensures
        r@.len() == CHALLENGE_LEN,
{
    let b = random32();
    copy_all(&b)
}

/// What a key is known by.
pub open spec fn fingerprint_of(key: Seq<u8>) -> Seq<char> {
    base58_of(blake3_of(ascii("freenet-bitcoin/ghostkey-fp/v1"@) + key).take(16))
}

/// The fingerprint of a ghost key.
pub fn fingerprint(key: &[u8; 32]) -> (r: String)
    ensures
        r@ == fingerprint_of(key@),
{
    proof {
        reveal_strlit("freenet-bitcoin/ghostkey-fp/v1");
    }
    let mut input = ascii_bytes("freenet-bitcoin/ghostkey-fp/v1");
    push_all(&mut input, key);
    let hash = blake3_hash(&input);
    let head = copy_range(&hash, 0, 16);
    assert(head@ =~= hash@.take(16));
    base58_encode(&head)
}

// ---------------------------------------------------------------------------
// Challenges
// ---------------------------------------------------------------------------

/// A challenge that was issued.
#[derive(Debug)]
pub struct Issued {
    pub challenge: Vec<u8>,
    pub at_ms: i64,
}

/// An [`Issued`] as a mathematical value.
pub struct IssuedModel {
    pub challenge: Seq<u8>,
    pub at_ms: i64,
}

impl Row for Issued {
    type M = IssuedModel;

    type K = Seq<u8>;

    open spec fn model(&self) -> IssuedModel {
        IssuedModel { challenge: self.challenge@, at_ms: self.at_ms }
    }

    open spec fn key(m: IssuedModel) -> Seq<u8> {
        m.challenge
    }

    fn same_key(&self, other: &Self) -> (r: bool) {
        same_bytes(&self.challenge, &other.challenge)
    }
}

/// The challenges that are out. Each can be used once, and for a while.
pub struct Challenges {
    pub rows: Table<Issued>,
}

impl View for Challenges {
    type V = Seq<IssuedModel>;

    open spec fn view(&self) -> Seq<IssuedModel> {
        self.rows@
    }
}

/// Whether a challenge can still be used.
pub open spec fn is_live(c: IssuedModel, now_ms: i64, ttl_ms: i64) -> bool {
    now_ms - c.at_ms < ttl_ms
}

/// Whether this very challenge is out and can still be used.
pub open spec fn is_usable(
    issued: Seq<IssuedModel>,
    challenge: Seq<u8>,
    now_ms: i64,
    ttl_ms: i64,
) -> bool {
    any(issued, |c: IssuedModel| c.challenge == challenge && is_live(c, now_ms, ttl_ms))
}

/// The challenges that are out once one has been handed in.
pub open spec fn spent(
    issued: Seq<IssuedModel>,
    challenge: Seq<u8>,
    now_ms: i64,
    ttl_ms: i64,
) -> Seq<IssuedModel> {
    those(issued, |c: IssuedModel| !(c.challenge == challenge && is_live(c, now_ms, ttl_ms)))
}

fn live(at_ms: i64, now_ms: i64, ttl_ms: i64) -> (r: bool)
    ensures
        r == (now_ms - at_ms < ttl_ms),
{
    (now_ms as i128) - (at_ms as i128) < ttl_ms as i128
}

impl Challenges {
    pub fn new() -> (r: Self)
        ensures
            r@ == Seq::<IssuedModel>::empty(),
    {
        Challenges { rows: Table::new() }
    }

    pub fn issue_challenge(&mut self, challenge: &[u8], now_ms: i64)
        ensures
            final(self)@ == put::<Issued>(
                old(self)@,
                IssuedModel { challenge: challenge@, at_ms: now_ms },
            ),
    {
        self.rows.put(Issued { challenge: copy_all(challenge), at_ms: now_ms });
    }

    /// Hand a challenge in. Says whether it could be used; afterwards it cannot.
    pub fn consume_challenge(&mut self, challenge: &[u8], now_ms: i64, ttl_ms: i64) -> (r: bool)
        ensures
            r == is_usable(old(self)@, challenge@, now_ms, ttl_ms),
            final(self)@ == spent(old(self)@, challenge@, now_ms, ttl_ms),
    {
        let ghost rows = self@;
        let ghost used = |c: IssuedModel|
            c.challenge == challenge@ && is_live(c, now_ms, ttl_ms);
        let ghost keep = |c: IssuedModel|
            !(c.challenge == challenge@ && is_live(c, now_ms, ttl_ms));
        let found = self.rows.any(
            |c: &Issued| -> (b: bool)
                ensures
                    b == used(c.model())
            { same_bytes(&c.challenge, challenge) && live(c.at_ms, now_ms, ttl_ms) },
            Ghost(used),
        );
        self.rows.retain(
            |c: &Issued| -> (b: bool)
                ensures
                    b == keep(c.model())
            { !(same_bytes(&c.challenge, challenge) && live(c.at_ms, now_ms, ttl_ms)) },
            Ghost(keep),
        );
        found
    }

    /// Forget the challenges whose time is over.
    pub fn purge_expired_challenges(&mut self, now_ms: i64, ttl_ms: i64)
        ensures
            final(self)@ == those(old(self)@, |c: IssuedModel| is_live(c, now_ms, ttl_ms)),
    {
        let ghost keep = |c: IssuedModel| is_live(c, now_ms, ttl_ms);
        self.rows.retain(
            |c: &Issued| -> (b: bool)
                ensures
                    b == keep(c.model())
            { live(c.at_ms, now_ms, ttl_ms) },
            Ghost(keep),
        );
    }
}

/// A challenge can be used once: handed in again at any time, it is refused.
pub proof fn a_challenge_is_spent_at_once(
    issued: Seq<IssuedModel>,
    challenge: Seq<u8>,
    now_ms: i64,
    later_ms: i64,
    ttl_ms: i64,
)
    requires
        later_ms >= now_ms,
    ensures
        !is_usable(spent(issued, challenge, now_ms, ttl_ms), challenge, later_ms, ttl_ms),
{
    let left = spent(issued, challenge, now_ms, ttl_ms);
    let keep = |c: IssuedModel| !(c.challenge == challenge && is_live(c, now_ms, ttl_ms));
    those_are_of_them(issued, keep);
    let p = |c: IssuedModel| c.challenge == challenge && is_live(c, later_ms, ttl_ms);
    if any(left, p) {
        let i = choose|i: int| 0 <= i < left.len() && p(#[trigger] left[i]);
        assert(those(issued, keep).contains(left[i]));
    }
}

// ---------------------------------------------------------------------------
// Authorization
// ---------------------------------------------------------------------------

/// The key that a caller has shown to be certified, if there is one. A certificate whose
/// signature cannot be checked shows none.
pub open spec fn shown_key(pem: Seq<char>, master: Option<Seq<char>>) -> Option<Seq<u8>> {
    if !can_be_checked(pem) {
        None
    } else {
        certified_under(pem, master)
    }
}

/// The key that a certificate vouches for under a master key, if it does.
pub open spec fn certified_under(pem: Seq<char>, master: Option<Seq<char>>) -> Option<Seq<u8>> {
    match master {
        None => certified_key_of(pem, None),
        Some(text) => match master_key_of(text) {
            None => None,
            Some(m) => certified_key_of(pem, Some(m)),
        },
    }
}

/// The key by which a caller has shown to be entitled: one that a certificate vouches for,
/// and that has signed this challenge and this request. A certificate alone is no secret.
pub open spec fn proven_key(
    pem: Seq<char>,
    master: Option<Seq<char>>,
    challenge: Seq<u8>,
    body: Seq<u8>,
    signature: Seq<u8>,
) -> Option<Seq<u8>> {
    match shown_key(pem, master) {
        Some(key) => if signature.len() == 64 && ed25519_accepts(
            key,
            auth_message(challenge, body),
            signature,
        ) {
            Some(key)
        } else {
            None
        },
        None => None,
    }
}

/// The one thing that a caller without a good Ghost Key is told. It does not say what is
/// wrong, which would tell a prober which certificates there are.
pub open spec fn denied(e: BridgeError) -> bool {
    e matches BridgeError::NotAuthorized { detail } && detail@
        == "a valid Ghost Key is required for this bridge's service"@
}

fn deny() -> (r: BridgeError)
    ensures
        denied(r),
{
    BridgeError::NotAuthorized {
        detail: "a valid Ghost Key is required for this bridge's service".to_owned(),
    }
}

fn text_of(t: Option<&String>) -> (r: Option<&str>)
    ensures
        match (t, r) {
            (Some(a), Some(b)) => a@ == b@,
            (None, None) => true,
            _ => false,
        },
{
    match t {
        Some(s) => Some(s.as_str()),
        None => None,
    }
}

/// The master key of a policy as a value.
pub open spec fn master_of(master: Option<String>) -> Option<Seq<char>> {
    match master {
        Some(m) => Some(m@),
        None => None,
    }
}

/// The key by which the caller of a request is entitled to it, if a key is called for.
pub open spec fn caller_key(policy: AuthPolicy, auth: AuthModel, body: Seq<u8>) -> Option<Seq<u8>> {
    match (policy, auth) {
        (
            AuthPolicy::GhostKey { master_verifying_key_b64 },
            AuthModel::GhostKey(pem, challenge, signature),
        ) => proven_key(pem, master_of(master_verifying_key_b64), challenge, body, signature),
        _ => None,
    }
}

/// Whether a caller is entitled to a request: anyone is if the service is open, and
/// otherwise whoever proves to hold a Ghost Key, under a challenge that is still good.
pub open spec fn is_entitled(
    policy: AuthPolicy,
    auth: AuthModel,
    body: Seq<u8>,
    issued: Seq<IssuedModel>,
    now_ms: i64,
) -> bool {
    policy is Open || (auth matches AuthModel::GhostKey(_, challenge, _) && is_usable(
        issued,
        challenge,
        now_ms,
        CHALLENGE_TTL_MS,
    ) && caller_key(policy, auth, body) is Some)
}

/// What a caller who is not entitled is told.
pub open spec fn is_refusal(
    policy: AuthPolicy,
    auth: AuthModel,
    issued: Seq<IssuedModel>,
    now_ms: i64,
    e: BridgeError,
) -> bool {
    match auth {
        AuthModel::Open => e matches BridgeError::NotAuthorized { detail } && detail@
            == "this bridge serves Ghost Key holders"@,
        AuthModel::GhostKey(_, challenge, _) => if is_usable(
            issued,
            challenge,
            now_ms,
            CHALLENGE_TTL_MS,
        ) {
            denied(e)
        } else {
            e == BridgeError::StaleChallenge
        },
    }
}

/// The challenges that are left after a request: the one it names is spent, whatever comes
/// of it, if the service asks for one.
pub open spec fn left_over(
    policy: AuthPolicy,
    auth: AuthModel,
    issued: Seq<IssuedModel>,
    now_ms: i64,
) -> Seq<IssuedModel> {
    match (policy, auth) {
        (AuthPolicy::GhostKey { .. }, AuthModel::GhostKey(_, challenge, _)) => spent(
            issued,
            challenge,
            now_ms,
            CHALLENGE_TTL_MS,
        ),
        _ => issued,
    }
}

/// Decide whether a request is authorized under this operator's policy.
///
/// `request_body_cbor` is the encoded body that the signature must cover, so that an
/// authorization which was seen for one request is none for another. The challenge is
/// spent before anything else is looked at, whatever comes of it.
pub fn authorize(
    policy: &AuthPolicy,
    auth: &ServiceAuth,
    request_body_cbor: &[u8],
    challenges: &mut Challenges,
    now_ms: i64,
) -> (r: Result<Authorized, BridgeError>)
    ensures
        final(challenges)@ == left_over(*policy, auth@, old(challenges)@, now_ms),
        r is Ok <==> is_entitled(*policy, auth@, request_body_cbor@, old(challenges)@, now_ms),
        match r {
            Ok(Authorized::Open) => policy is Open,
            Ok(Authorized::GhostKey { fingerprint }) => {
                &&& policy is GhostKey
                &&& fingerprint@ == fingerprint_of(
                    caller_key(*policy, auth@, request_body_cbor@)->Some_0,
                )
            },
            Err(e) => is_refusal(*policy, auth@, old(challenges)@, now_ms, e),
        },
{
    match policy {
        AuthPolicy::Open => Ok(Authorized::Open),
        AuthPolicy::GhostKey { master_verifying_key_b64 } => match auth {
            ServiceAuth::Open => Err(
                BridgeError::NotAuthorized {
                    detail: "this bridge serves Ghost Key holders".to_owned(),
                },
            ),
            ServiceAuth::GhostKey(gk) => {
                if !challenges.consume_challenge(&gk.challenge, now_ms, CHALLENGE_TTL_MS) {
                    return Err(BridgeError::StaleChallenge);
                }
                verify_ghost_key(
                    gk,
                    text_of(master_verifying_key_b64.as_ref()),
                    request_body_cbor,
                )
            },
        },
    }
}

fn verify_ghost_key(gk: &GhostKeyAuth, master: Option<&str>, request_body_cbor: &[u8]) -> (r: Result<
    Authorized,
    BridgeError,
>)
    ensures
        ({
            let key = proven_key(
                gk.certificate_pem@,
                (match master {
                    Some(m) => Some(m@),
                    None => None,
                }),
                gk.challenge@,
                request_body_cbor@,
                gk.signature@,
            );
            match r {
                Ok(Authorized::GhostKey { fingerprint }) => key is Some && fingerprint@
                    == fingerprint_of(key->Some_0),
                Ok(Authorized::Open) => false,
                Err(e) => key is None && denied(e),
            }
        }),
{
    let checkable = match certificate_signature(&gk.certificate_pem) {
        None => false,
        Some(s) => s.len() > 0 && s.len() as u64 <= u32::MAX as u64,
    };
    if !checkable {
        return Err(deny());
    }
    let key = match master {
        None => certified_key(&gk.certificate_pem, None),
        Some(text) => match master_key(text) {
            None => None,
            Some(m) => certified_key(&gk.certificate_pem, Some(m)),
        },
    };
    let key = match key {
        None => {
            return Err(deny());
        },
        Some(k) => k,
    };
    if gk.signature.len() != 64 {
        return Err(deny());
    }
    let mut signature = [0u8; 64];
    for i in 0..64usize
        invariant
            gk.signature@.len() == 64,
            signature@.len() == 64,
            forall|j: int| 0 <= j < i ==> signature@[j] == gk.signature@[j],
    {
        signature[i] = gk.signature[i];
    }
    assert(signature@ =~= gk.signature@);
    let input = auth_signing_input(&gk.challenge, request_body_cbor);
    match ed25519_check(&key, &input, &signature) {
        Some(_) => Err(deny()),
        None => Ok(Authorized::GhostKey { fingerprint: fingerprint(&key) }),
    }
}

/// What a caller signed for one request and challenge is a signature over no other request
/// or challenge: an authorization that was seen cannot be used for something else, unless
/// signatures can be forged.
pub proof fn an_authorization_covers_one_request(
    challenge: Seq<u8>,
    body: Seq<u8>,
    other_challenge: Seq<u8>,
    other_body: Seq<u8>,
)
    requires
        challenge.len() <= u32::MAX,
        other_challenge.len() <= u32::MAX,
        (challenge, body) != (other_challenge, other_body),
    ensures
        auth_message(challenge, body) != auth_message(other_challenge, other_body),
{
    if auth_message(challenge, body) == auth_message(other_challenge, other_body) {
        auth_message_is_injective(challenge, body, other_challenge, other_body);
    }
}

} // verus!
