//! What an operator decides.

use vstd::prelude::*;

use crate::text::join3;
use crate::types::BitcoinNetwork;

verus! {

/// How one network is followed.
#[derive(Clone, Debug)]
pub struct NetworkConfig {
    pub network: BitcoinNetwork,
    /// The node's RPC endpoint.
    pub rpc_url: String,
    /// The node's cookie file, which is preferred over a password.
    pub rpc_cookie_path: Option<String>,
    pub rpc_user: Option<String>,
    pub rpc_password: Option<String>,
    /// The deepest confirmation that an application of this bridge can prove.
    pub deep_confirmations: u32,
    /// How far back to look for a fork.
    pub max_reorg_depth: u32,
    /// Scripts that are synchronized whoever asks: public demo data.
    pub always_watch: Vec<String>,
    /// How many blocks of history demo scripts get.
    pub demo_backfill_blocks: u32,
}

/// Whom a bridge serves.
#[derive(Clone, Debug)]
pub enum AuthPolicy {
    Open,
    /// Holders of a Ghost Key, certified under this master key or the published one.
    GhostKey { master_verifying_key_b64: Option<String> },
}

/// How a bridge is set up.
#[derive(Clone, Debug)]
pub struct BridgeConfig {
    pub signing_key_path: String,
    pub database_path: String,
    /// The Freenet node's WebSocket.
    pub freenet_ws: String,
    /// Where the compiled contracts are.
    pub contract_dir: String,
    pub networks: Vec<NetworkConfig>,
}

pub fn default_demo_backfill() -> (r: u32)
    ensures
        r == 144,
{
    144
}

pub fn default_deep_confirmations() -> (r: u32)
    ensures
        r == 6,
{
    6
}

pub fn default_reorg_depth() -> (r: u32)
    ensures
        r == 100,
{
    100
}

pub fn default_freenet_ws() -> (r: String)
    ensures
        r@ == "ws://127.0.0.1:7509/v1/contract/command?encodingProtocol=native"@,
{
    "ws://127.0.0.1:7509/v1/contract/command?encodingProtocol=native".to_owned()
}

/// Whether the `i`th is the first network configured for `n`.
pub open spec fn first_for(networks: Seq<NetworkConfig>, n: BitcoinNetwork, i: int) -> bool {
    &&& 0 <= i < networks.len()
    &&& networks[i].network == n
    &&& forall|j: int| 0 <= j < i ==> (#[trigger] networks[j]).network != n
}

impl BridgeConfig {
    /// A bridge with no networks would do nothing, and is refused rather than left idle.
    pub fn check(&self) -> (r: Result<(), String>)
        ensures
            r is Ok <==> self.networks@.len() > 0,
            r matches Err(e) ==> e@
                == "configuration lists no networks; the bridge would do nothing"@,
    {
        if self.networks.is_empty() {
            Err("configuration lists no networks; the bridge would do nothing".to_owned())
        } else {
            Ok(())
        }
    }

    pub fn network(&self, n: BitcoinNetwork) -> (r: Option<&NetworkConfig>)
        ensures
            match r {
                Some(c) => exists|i: int|
                    #[trigger] first_for(self.networks@, n, i) && self.networks@[i] == *c,
                None => forall|i: int|
                    0 <= i < self.networks@.len() ==> (#[trigger] self.networks@[i]).network != n,
            },
    {
        for i in 0..self.networks.len()
            invariant
                forall|j: int| 0 <= j < i ==> (#[trigger] self.networks@[j]).network != n,
        {
            if self.networks[i].network == n {
                assert(first_for(self.networks@, n, i as int));
                return Some(&self.networks[i]);
            }
        }
        None
    }
}

/// How to log in to a node.
#[derive(PartialEq, Eq, Debug)]
pub enum RpcAuth {
    Cookie(String),
    UserPass(String, String),
}

impl NetworkConfig {
    /// A cookie file if there is one, else a user and password.
    pub fn rpc_auth(&self) -> (r: Result<RpcAuth, String>)
        ensures
            match r {
                Ok(RpcAuth::Cookie(p)) => self.rpc_cookie_path is Some && p@
                    == self.rpc_cookie_path->Some_0@,
                Ok(RpcAuth::UserPass(u, w)) => self.rpc_cookie_path is None && self.rpc_user is Some
                    && self.rpc_password is Some && u@ == self.rpc_user->Some_0@ && w@
                    == self.rpc_password->Some_0@,
                Err(e) => self.rpc_cookie_path is None && (self.rpc_user is None
                    || self.rpc_password is None) && e@ == "network "@ + self.network.variant()
                    + " has neither a cookie path nor rpc_user/rpc_password"@,
            },
    {
        match (&self.rpc_cookie_path, &self.rpc_user, &self.rpc_password) {
            (Some(p), _, _) => Ok(RpcAuth::Cookie(p.clone())),
            (None, Some(u), Some(w)) => Ok(RpcAuth::UserPass(u.clone(), w.clone())),
            _ => Err(
                join3(
                    "network ",
                    self.network.variant_str(),
                    " has neither a cookie path nor rpc_user/rpc_password",
                ),
            ),
        }
    }
}

} // verus!
