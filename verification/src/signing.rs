//! Bridge signatures over Bitcoin observations.
//!
//! A bridge signature answers one question: did this bridge assert this? Who asked the
//! bridge to look, and whether they were entitled to, is no part of it.

use vstd::prelude::*;

use crate::bytes::{copy_all, push_all, same32};
use crate::claims::{BodyModel, Claim, ClaimBody, ClaimModel, TipEntryBody};
use crate::outside::{
    base58_of, blake3_hash, blake3_of, ed25519_accepts, ed25519_check, ed25519_check_key,
    ed25519_key_fault, ed25519_public, ed25519_public_of, ed25519_sign, ed25519_signature_fault,
    ed25519_signature_of,
};
use crate::records::{
    body_bytes, body_from, body_from_cbor, body_to_cbor, tip_bytes, tip_from, tip_from_cbor,
    tip_to_cbor,
};
use crate::sorted::Copied;
use crate::spv::{proof_fault, proof_holds, proof_is_sound_and_complete, verify_spv_proof};
use crate::text::{ascii, ascii_bytes, join, join3};
use crate::types::{
    BitcoinAddressParameters, BitcoinTipParameters, BridgeId, ParamsModel, TipParamsModel,
};

verus! {

broadcast use vstd::array::group_array_axioms;

/// The bytes that a claim's signature is over.
pub open spec fn claim_message(body: Seq<u8>) -> Seq<u8> {
    ascii("freenet-bitcoin/claim/v1\0"@) + body
}

/// The bytes that a tip entry's signature is over.
pub open spec fn tip_message(body: Seq<u8>) -> Seq<u8> {
    ascii("freenet-bitcoin/tip/v1\0"@) + body
}

/// Nothing is both what a claim signs and what a tip entry signs, so neither signature
/// stands for the other.
pub proof fn claim_and_tip_messages_differ(a: Seq<u8>, b: Seq<u8>)
    ensures
        claim_message(a) != tip_message(b),
{
    reveal_strlit("freenet-bitcoin/claim/v1\0");
    reveal_strlit("freenet-bitcoin/tip/v1\0");
    assert(claim_message(a)[16] == 'c' as u8);
    assert(tip_message(b)[16] == 't' as u8);
}

/// Different bodies are signed as different messages.
pub proof fn claim_message_is_injective(a: Seq<u8>, b: Seq<u8>)
    requires
        claim_message(a) == claim_message(b),
    ensures
        a == b,
{
    let d = ascii("freenet-bitcoin/claim/v1\0"@);
    assert(claim_message(a).skip(d.len() as int) =~= a);
    assert(claim_message(b).skip(d.len() as int) =~= b);
}

/// The bytes a signature is over: its domain, then the body.
pub fn signing_input(domain: Vec<u8>, body: &[u8]) -> (r: Vec<u8>)
    ensures
        r@ == domain@ + body@,
{
    let mut v = domain;
    push_all(&mut v, body);
    v
}

/// What tells a claim from anything else that is signed.
pub fn claim_domain() -> (r: Vec<u8>)
    ensures
        r@ == ascii("freenet-bitcoin/claim/v1\0"@),
{
    proof {
        reveal_strlit("freenet-bitcoin/claim/v1\0");
    }
    ascii_bytes("freenet-bitcoin/claim/v1\0")
}

/// What tells a tip entry from anything else that is signed.
pub fn tip_domain() -> (r: Vec<u8>)
    ensures
        r@ == ascii("freenet-bitcoin/tip/v1\0"@),
{
    proof {
        reveal_strlit("freenet-bitcoin/tip/v1\0");
    }
    ascii_bytes("freenet-bitcoin/tip/v1\0")
}

fn array64(b: &Vec<u8>) -> (r: [u8; 64])
    requires
        b@.len() == 64,
    ensures
        r@ == b@,
{
    let mut r = [0u8; 64];
    for i in 0..64usize
        invariant
            b@.len() == 64,
            forall|j: int| 0 <= j < i ==> r@[j] == b@[j],
    {
        r[i] = b[i];
    }
    assert(r@ =~= b@);
    r
}

/// Bytes that a bridge signed, whose bridge, and the signature. Claims and tip entries
/// are both of this shape.
#[verifier::ext_equal]
pub struct SignedModel {
    pub body_cbor: Seq<u8>,
    pub bridge: BridgeId,
    pub signature: Seq<u8>,
}

/// Why the signature of `s` over `message` is refused. `what` names the thing signed.
pub open spec fn signature_fault(
    s: SignedModel,
    trusted: Seq<BridgeId>,
    message: Seq<u8>,
    who: Seq<char>,
    what: Seq<char>,
) -> Option<Seq<char>> {
    if !trusted.contains(s.bridge) {
        Some(who + " signed by untrusted bridge "@ + base58_of(s.bridge.0@))
    } else {
        match ed25519_key_fault(s.bridge.0@) {
            Some(e) => Some("bridge key invalid: "@ + e),
            None => if s.signature.len() != 64 {
                Some(what + " signature must be 64 bytes"@)
            } else {
                match ed25519_signature_fault(s.bridge.0@, message, s.signature) {
                    Some(e) => Some(what + " signature invalid: "@ + e),
                    None => None,
                }
            },
        }
    }
}

fn check_signature(
    bridge: &BridgeId,
    signature: &Vec<u8>,
    trusted: bool,
    message: &Vec<u8>,
    who: &str,
    what: &str,
    Ghost(s): Ghost<SignedModel>,
    Ghost(bridges): Ghost<Seq<BridgeId>>,
) -> (r: Result<(), String>)
    requires
        s.bridge == *bridge,
        s.signature == signature@,
        trusted == bridges.contains(*bridge),
    ensures
        match r {
            Ok(_) => signature_fault(s, bridges, message@, who@, what@) is None,
            Err(e) => signature_fault(s, bridges, message@, who@, what@) == Some(e@),
        },
{
    if !trusted {
        return Err(join3(who, " signed by untrusted bridge ", &bridge.to_bs58()));
    }
    match ed25519_check_key(&bridge.0) {
        Some(e) => {
            return Err(join("bridge key invalid: ", &e));
        },
        None => {},
    }
    if signature.len() != 64 {
        return Err(join(what, " signature must be 64 bytes"));
    }
    let sig = array64(signature);
    match ed25519_check(&bridge.0, message, &sig) {
        Some(e) => Err(join3(what, " signature invalid: ", &e)),
        None => Ok(()),
    }
}

// ---------------------------------------------------------------------------
// Claims
// ---------------------------------------------------------------------------

/// A [`ClaimBody`] together with the bridge signature over it.
///
/// The encoding of the body is kept as it was signed, so no verification depends on
/// encoding it again.
#[derive(PartialEq, Eq, Debug)]
pub struct SignedClaim {
    /// The encoding of a [`ClaimBody`], exactly as signed.
    pub body_cbor: Vec<u8>,
    pub bridge: BridgeId,
    pub signature: Vec<u8>,
}

impl View for SignedClaim {
    type V = SignedModel;

    open spec fn view(&self) -> SignedModel {
        SignedModel {
            body_cbor: self.body_cbor@,
            bridge: self.bridge,
            signature: self.signature@,
        }
    }
}

impl Copied for SignedClaim {
    fn copied(&self) -> (r: Self) {
        SignedClaim {
            body_cbor: copy_all(&self.body_cbor),
            bridge: self.bridge,
            signature: copy_all(&self.signature),
        }
    }
}

impl Clone for SignedClaim {
    fn clone(&self) -> (r: Self)
        ensures
            r@ == self@,
    {
        self.copied()
    }
}

/// Whether `c` is `body`, written down and validly signed under its own key.
pub open spec fn attests(c: SignedModel, body: BodyModel) -> bool {
    &&& body_from(c.body_cbor) is Ok
    &&& body_from(c.body_cbor)->Ok_0 == body
    &&& c.signature.len() == 64
    &&& ed25519_accepts(c.bridge.0@, claim_message(c.body_cbor), c.signature)
}

/// Why the evidence that a claim carries is refused, if it carries any.
pub open spec fn evidence_fault(body: BodyModel, p: ParamsModel) -> Option<Seq<char>> {
    match body.claim {
        ClaimModel::ConfirmedOutput { outpoint, value_sats, anchor, spv } => match proof_fault(
            spv,
            outpoint.txid,
            outpoint.vout,
            p.script_pubkey,
            value_sats,
            anchor.hash,
            p.pow_floor,
        ) {
            Some(e) => Some("bitcoin evidence rejected: "@ + e.text()),
            None => None,
        },
        _ => None,
    }
}

/// What verifying a signed claim against a contract's parameters comes to.
pub open spec fn claim_verdict(c: SignedModel, p: ParamsModel) -> Result<BodyModel, Seq<char>> {
    match signature_fault(
        c,
        p.trusted_bridges,
        claim_message(c.body_cbor),
        "claim"@,
        "claim"@,
    ) {
        Some(e) => Err(e),
        None => match body_from(c.body_cbor) {
            Err(e) => Err(e),
            Ok(body) => if body.network != p.network {
                Err(
                    "claim is for network "@ + body.network.variant() + " but this contract is "@
                        + p.network.variant(),
                )
            } else if body.script_id.0@ != p.script_id() {
                Err("claim script_id does not match this contract instance"@)
            } else {
                match evidence_fault(body, p) {
                    Some(e) => Err(e),
                    None => Ok(body),
                }
            },
        },
    }
}

/// Whether a claim names the contract it is checked against.
pub open spec fn belongs(body: BodyModel, p: ParamsModel) -> bool {
    body.network == p.network && body.script_id.0@ == p.script_id()
}

/// What a bridge signs for a contract that trusts it is accepted there, and says what
/// was signed. Where it confirms a payment, the evidence must hold.
pub proof fn a_signed_claim_verifies(c: SignedModel, body: BodyModel, p: ParamsModel)
    requires
        attests(c, body),
        p.trusted_bridges.contains(c.bridge),
        belongs(body, p),
        evidence_fault(body, p) is None,
    ensures
        claim_verdict(c, p) is Ok,
        claim_verdict(c, p)->Ok_0 == body,
{
}

/// An accepted claim was signed by a trusted bridge over these very bytes, and is about
/// this script on this network.
pub proof fn an_accepted_claim_belongs_here(c: SignedModel, p: ParamsModel)
    requires
        claim_verdict(c, p) is Ok,
    ensures
        p.trusted_bridges.contains(c.bridge),
        attests(c, claim_verdict(c, p)->Ok_0),
        belongs(claim_verdict(c, p)->Ok_0, p),
{
}

/// Not even a trusted bridge confirms a payment without a transaction that makes it: an
/// accepted confirmation carries evidence that holds for this script and that amount.
pub proof fn an_accepted_confirmation_is_evidenced(c: SignedModel, p: ParamsModel)
    requires
        claim_verdict(c, p) is Ok,
        claim_verdict(c, p)->Ok_0.claim is ConfirmedOutput,
    ensures
        ({
            let claim = claim_verdict(c, p)->Ok_0.claim;
            proof_holds(
                claim->ConfirmedOutput_spv,
                claim->ConfirmedOutput_outpoint.txid,
                claim->ConfirmedOutput_outpoint.vout,
                p.script_pubkey,
                claim->ConfirmedOutput_value_sats,
                claim->ConfirmedOutput_anchor.hash,
                p.pow_floor,
            )
        }),
{
    let claim = claim_verdict(c, p)->Ok_0.claim;
    proof_is_sound_and_complete(
        claim->ConfirmedOutput_spv,
        claim->ConfirmedOutput_outpoint.txid,
        claim->ConfirmedOutput_outpoint.vout,
        p.script_pubkey,
        claim->ConfirmedOutput_value_sats,
        claim->ConfirmedOutput_anchor.hash,
        p.pow_floor,
    );
}

/// The bytes that a claim's digest is the BLAKE3 hash of.
pub open spec fn claim_digest_input(c: SignedModel) -> Seq<u8> {
    ascii("freenet-bitcoin/claim-digest/v1"@) + c.bridge.0@ + c.body_cbor + c.signature
}

/// The digest of a signed claim.
pub open spec fn claim_digest(c: SignedModel) -> Seq<u8> {
    blake3_of(claim_digest_input(c))
}

/// Two claims with signatures of full length that hash the same bytes are the same
/// claim.
pub proof fn digest_input_is_injective(a: SignedModel, b: SignedModel)
    requires
        a.signature.len() == 64,
        b.signature.len() == 64,
        claim_digest_input(a) == claim_digest_input(b),
    ensures
        a == b,
{
    let x = claim_digest_input(a);
    let y = claim_digest_input(b);
    let d = ascii("freenet-bitcoin/claim-digest/v1"@).len() as int;
    let n = x.len() as int;
    assert(x.subrange(d, d + 32) =~= a.bridge.0@);
    assert(y.subrange(d, d + 32) =~= b.bridge.0@);
    assert(x.subrange(d + 32, n - 64) =~= a.body_cbor);
    assert(y.subrange(d + 32, n - 64) =~= b.body_cbor);
    assert(x.subrange(n - 64, n) =~= a.signature);
    assert(y.subrange(n - 64, n) =~= b.signature);
    assert(a.bridge.0 =~= b.bridge.0);
}

impl SignedClaim {
    /// Sign a claim with the secret seed of a bridge.
    pub fn sign(key: &[u8; 32], body: &ClaimBody) -> (r: Result<Self, String>)
        ensures
            r is Ok,
            r->Ok_0.bridge.0@ == ed25519_public_of(key@),
            r->Ok_0.body_cbor@ == body_bytes(body@),
            r->Ok_0.signature@ == ed25519_signature_of(key@, claim_message(body_bytes(body@))),
            attests(r->Ok_0@, body@),
    {
        let body_cbor = match body_to_cbor(body) {
            Ok(b) => b,
            Err(e) => {
                return Err(e);
            },
        };
        let message = signing_input(claim_domain(), &body_cbor);
        let signature = ed25519_sign(key, &message);
        Ok(
            SignedClaim {
                body_cbor,
                bridge: BridgeId(ed25519_public(key)),
                signature: copy_all(&signature),
            },
        )
    }

    /// Decode the body without checking the signature.
    pub fn body(&self) -> (r: Result<ClaimBody, String>)
        ensures
            match r {
                Ok(b) => body_from(self@.body_cbor) is Ok && body_from(self@.body_cbor)->Ok_0 == b@,
                Err(e) => body_from(self@.body_cbor) is Err && body_from(self@.body_cbor)->Err_0
                    == e@,
            },
    {
        body_from_cbor(&self.body_cbor)
    }

    /// Verify the signature, that the claim belongs to this contract instance, and the
    /// evidence it carries, returning the decoded body.
    pub fn verify(&self, params: &BitcoinAddressParameters) -> (r: Result<ClaimBody, String>)
        ensures
            match r {
                Ok(b) => claim_verdict(self@, params@) is Ok && claim_verdict(self@, params@)->Ok_0
                    == b@,
                Err(e) => claim_verdict(self@, params@) is Err && claim_verdict(
                    self@,
                    params@,
                )->Err_0 == e@,
            },
    {
        let message = signing_input(claim_domain(), &self.body_cbor);
        match check_signature(
            &self.bridge,
            &self.signature,
            params.trusts(&self.bridge),
            &message,
            "claim",
            "claim",
            Ghost(self@),
            Ghost(params@.trusted_bridges),
        ) {
            Err(e) => {
                return Err(e);
            },
            Ok(_) => {},
        }
        let body = match self.body() {
            Err(e) => {
                return Err(e);
            },
            Ok(body) => body,
        };
        if body.network != params.network {
            let head = join3(
                "claim is for network ",
                body.network.variant_str(),
                " but this contract is ",
            );
            return Err(join(&head, params.network.variant_str()));
        }
        let expected = params.script_id();
        if !same32(&body.script_id.0, &expected.0) {
            return Err("claim script_id does not match this contract instance".to_owned());
        }
        match &body.claim {
            Claim::ConfirmedOutput { outpoint, value_sats, anchor, spv } => {
                proof {
                    proof_is_sound_and_complete(
                        spv@,
                        outpoint.txid,
                        outpoint.vout,
                        params@.script_pubkey,
                        *value_sats,
                        anchor.hash,
                        params.pow_floor,
                    );
                }
                match verify_spv_proof(
                    spv,
                    &outpoint.txid,
                    outpoint.vout,
                    &params.script_pubkey,
                    *value_sats,
                    &anchor.hash,
                    params.pow_floor,
                ) {
                    Err(e) => {
                        return Err(join("bitcoin evidence rejected: ", &e.message()));
                    },
                    Ok(_) => {},
                }
            },
            _ => {},
        }
        Ok(body)
    }

    /// A stable 32-byte identity for this claim.
    pub fn digest(&self) -> (r: [u8; 32])
        ensures
            r@ == claim_digest(self@),
    {
        proof {
            reveal_strlit("freenet-bitcoin/claim-digest/v1");
        }
        let mut input: Vec<u8> = ascii_bytes("freenet-bitcoin/claim-digest/v1");
        push_all(&mut input, &self.bridge.0);
        push_all(&mut input, &self.body_cbor);
        push_all(&mut input, &self.signature);
        blake3_hash(&input)
    }
}

// ---------------------------------------------------------------------------
// Tip entries
// ---------------------------------------------------------------------------

/// A [`TipEntryBody`] together with the bridge signature over it.
#[derive(PartialEq, Eq, Debug)]
pub struct SignedTipEntry {
    pub body_cbor: Vec<u8>,
    pub bridge: BridgeId,
    pub signature: Vec<u8>,
}

impl View for SignedTipEntry {
    type V = SignedModel;

    open spec fn view(&self) -> SignedModel {
        SignedModel {
            body_cbor: self.body_cbor@,
            bridge: self.bridge,
            signature: self.signature@,
        }
    }
}

impl Copied for SignedTipEntry {
    fn copied(&self) -> (r: Self) {
        SignedTipEntry {
            body_cbor: copy_all(&self.body_cbor),
            bridge: self.bridge,
            signature: copy_all(&self.signature),
        }
    }
}

impl Clone for SignedTipEntry {
    fn clone(&self) -> (r: Self)
        ensures
            r@ == self@,
    {
        self.copied()
    }
}

/// What verifying a signed tip entry against a contract's parameters comes to.
pub open spec fn tip_verdict(c: SignedModel, p: TipParamsModel) -> Result<
    TipEntryBody,
    Seq<char>,
> {
    match signature_fault(
        c,
        p.trusted_bridges,
        tip_message(c.body_cbor),
        "tip entry"@,
        "tip"@,
    ) {
        Some(e) => Err(e),
        None => match tip_from(c.body_cbor) {
            Err(e) => Err(e),
            Ok(body) => if body.network != p.network {
                Err(
                    "tip entry is for network "@ + body.network.variant()
                        + " but this contract is "@ + p.network.variant(),
                )
            } else {
                Ok(body)
            },
        },
    }
}

/// Whether `c` is `body`, written down and validly signed under its own key.
pub open spec fn attests_tip(c: SignedModel, body: TipEntryBody) -> bool {
    &&& tip_from(c.body_cbor) is Ok
    &&& tip_from(c.body_cbor)->Ok_0 == body
    &&& c.signature.len() == 64
    &&& ed25519_accepts(c.bridge.0@, tip_message(c.body_cbor), c.signature)
}

/// What a bridge signs for a tip contract that trusts it is accepted there.
pub proof fn a_signed_tip_verifies(c: SignedModel, body: TipEntryBody, p: TipParamsModel)
    requires
        attests_tip(c, body),
        p.trusted_bridges.contains(c.bridge),
        body.network == p.network,
    ensures
        tip_verdict(c, p) is Ok,
        tip_verdict(c, p)->Ok_0 == body,
{
}

/// The digest of a signed tip entry.
pub open spec fn tip_digest(c: SignedModel) -> Seq<u8> {
    blake3_of(
        ascii("freenet-bitcoin/tip-digest/v1"@) + c.bridge.0@ + c.body_cbor + c.signature,
    )
}

impl SignedTipEntry {
    /// Sign a tip entry with the secret seed of a bridge.
    pub fn sign(key: &[u8; 32], body: &TipEntryBody) -> (r: Result<Self, String>)
        ensures
            r is Ok,
            r->Ok_0.bridge.0@ == ed25519_public_of(key@),
            r->Ok_0.body_cbor@ == tip_bytes(*body),
            r->Ok_0.signature@ == ed25519_signature_of(key@, tip_message(tip_bytes(*body))),
            attests_tip(r->Ok_0@, *body),
    {
        let body_cbor = match tip_to_cbor(body) {
            Ok(b) => b,
            Err(e) => {
                return Err(e);
            },
        };
        let message = signing_input(tip_domain(), &body_cbor);
        let signature = ed25519_sign(key, &message);
        Ok(
            SignedTipEntry {
                body_cbor,
                bridge: BridgeId(ed25519_public(key)),
                signature: copy_all(&signature),
            },
        )
    }

    /// Decode the body without checking the signature.
    pub fn body(&self) -> (r: Result<TipEntryBody, String>)
        ensures
            match r {
                Ok(b) => tip_from(self@.body_cbor) is Ok && tip_from(self@.body_cbor)->Ok_0 == b,
                Err(e) => tip_from(self@.body_cbor) is Err && tip_from(self@.body_cbor)->Err_0
                    == e@,
            },
    {
        tip_from_cbor(&self.body_cbor)
    }

    pub fn verify(&self, params: &BitcoinTipParameters) -> (r: Result<TipEntryBody, String>)
        ensures
            match r {
                Ok(b) => tip_verdict(self@, params@) is Ok && tip_verdict(self@, params@)->Ok_0
                    == b,
                Err(e) => tip_verdict(self@, params@) is Err && tip_verdict(self@, params@)->Err_0
                    == e@,
            },
    {
        let message = signing_input(tip_domain(), &self.body_cbor);
        match check_signature(
            &self.bridge,
            &self.signature,
            params.trusts(&self.bridge),
            &message,
            "tip entry",
            "tip",
            Ghost(self@),
            Ghost(params@.trusted_bridges),
        ) {
            Err(e) => {
                return Err(e);
            },
            Ok(_) => {},
        }
        let body = match self.body() {
            Err(e) => {
                return Err(e);
            },
            Ok(body) => body,
        };
        if body.network != params.network {
            let head = join3(
                "tip entry is for network ",
                body.network.variant_str(),
                " but this contract is ",
            );
            return Err(join(&head, params.network.variant_str()));
        }
        Ok(body)
    }

    pub fn digest(&self) -> (r: [u8; 32])
        ensures
            r@ == tip_digest(self@),
    {
        proof {
            reveal_strlit("freenet-bitcoin/tip-digest/v1");
        }
        let mut input: Vec<u8> = ascii_bytes("freenet-bitcoin/tip-digest/v1");
        push_all(&mut input, &self.bridge.0);
        push_all(&mut input, &self.body_cbor);
        push_all(&mut input, &self.signature);
        blake3_hash(&input)
    }
}

} // verus!
