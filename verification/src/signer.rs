//! The key that a bridge signs its observations with.
//!
//! It is not a Bitcoin key, and can move no money. Whoever takes it can sign false
//! claims, which the evidence in each claim then refutes.

use vstd::prelude::*;

use crate::bytes::array32;
use crate::outside::{ed25519_public, ed25519_public_of, random32};
use crate::types::BridgeId;

verus! {

pub struct Signer {
    seed: [u8; 32],
}

impl Signer {
    /// The secret seed.
    pub closed spec fn seed(self) -> Seq<u8> {
        self.seed@
    }

    pub fn from_seed(seed: [u8; 32]) -> (r: Self)
        ensures
            r.seed() == seed@,
    {
        Signer { seed }
    }

    /// The key that a key file holds: its first 32 bytes. A file that is too short is no
    /// reason to make a new key, which would change who the bridge is.
    pub fn from_file(raw: &[u8]) -> (r: Option<Self>)
        ensures
            r is Some <==> raw@.len() >= 32,
            r matches Some(s) ==> s.seed() == raw@.take(32),
    {
        if raw.len() < 32 {
            return None;
        }
        let seed = array32(raw, 0);
        assert(seed@ =~= raw@.take(32));
        Some(Signer { seed })
    }

    /// A new key. Nothing is promised of it but that it was drawn at random.
    pub fn generate() -> Self {
        Signer { seed: random32() }
    }

    pub fn key(&self) -> (r: &[u8; 32])
        ensures
            r@ == self.seed(),
    {
        &self.seed
    }

    /// What applications trust this bridge by.
    pub fn bridge_id(&self) -> (r: BridgeId)
        ensures
            r.0@ == ed25519_public_of(self.seed()),
    {
        BridgeId(ed25519_public(&self.seed))
    }
}

} // verus!
