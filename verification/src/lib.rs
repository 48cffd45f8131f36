//! Bitcoin observations on Freenet.
//!
//! A bridge follows the Bitcoin chain and publishes what it sees, signed, in Freenet
//! contracts: one for each output script, and one for each network's recent blocks. Anyone
//! may run a bridge. Whose word an application takes is a matter of the contract's
//! parameters.
//!
//! # What a bridge is trusted for
//!
//! A bridge says which blocks are on Bitcoin, at which heights, and where the tip is, and
//! nothing here checks that against the network. A claim that an output was paid carries
//! evidence besides: the transaction, its place in a block, and the work behind the block.
//! So a bridge cannot misreport what a transaction paid, or to whom.
//!
//! # Reorgs
//!
//! The chain that counts may change, and contracts may only ever grow together. So nothing
//! is ever edited: a contract holds a set of claims, each stamped with the chain position
//! it was made at, and what is so is derived by folding them. A reorg adds a newer claim.
//!
//! # Layout
//!
//! - The wire format: [`cbor`], [`wire`], [`records`], [`digest`], [`signing`]. What is
//!   written where is in [`format_laws`] and [`record_laws`].
//! - Evidence: [`transaction`], [`spv`], [`claims`], [`fold`], with their laws in
//!   [`spv_laws`] and [`fold_laws`].
//! - Contract states: [`address_state`] and [`tip_state`]. Which claims and blocks a state
//!   holds is in [`state_laws`], and how states merge in [`convergence`] and
//!   [`tip_convergence`].
//! - The bridge's records: [`table`], [`store`], with the laws in [`store_laws`].
//! - Following the chain: [`chain`], [`observer`], [`round`], with the laws in
//!   [`chain_laws`], [`observer_laws`] and [`round_laws`].
//! - Publishing: [`freenet`], [`generation`], [`migrate`], with the laws in
//!   [`publish_laws`].
//! - Requests: [`inbox`] and [`session`] for those that come by contract, with the laws in
//!   [`inbox_laws`] and [`request_laws`]; [`bridge_protocol`], [`auth`] and [`service`] for
//!   those that come by HTTP, with the laws in [`service_laws`].
//! - Reading back: [`report`], with the laws in [`report_laws`].
//! - What other crates are relied on for: [`outside`].

pub mod address_state;
pub mod auth;
pub mod bridge_protocol;
pub mod bytes;
pub mod cbor;
pub mod chain;
pub mod chain_laws;
pub mod claims;
pub mod config;
pub mod convergence;
pub mod digest;
pub mod fold;
pub mod fold_laws;
pub mod format_laws;
pub mod freenet;
pub mod generation;
pub mod inbox;
pub mod inbox_laws;
pub mod migrate;
pub mod observer;
pub mod observer_laws;
pub mod outside;
pub mod publish_laws;
pub mod record_laws;
pub mod records;
pub mod report;
pub mod report_laws;
pub mod request_laws;
pub mod round;
pub mod round_laws;
pub mod service;
pub mod service_laws;
pub mod session;
pub mod signer;
pub mod signing;
pub mod sorted;
pub mod spv;
pub mod spv_laws;
pub mod state_laws;
pub mod store;
pub mod store_laws;
pub mod sums;
pub mod table;
pub mod text;
pub mod tip_convergence;
pub mod tip_state;
pub mod transaction;
pub mod types;
pub mod wire;

pub use address_state::{BitcoinAddressStateV1, ClaimSetV1};
pub use bridge_protocol::{
    auth_signing_input, BridgeError, BridgeStatus, BroadcastRequest, GhostKeyAuth, RequestBody,
    ServiceAuth, ServiceRequest, ServiceResponse, WatchRequest,
};
pub use claims::{Claim, ClaimBody, TipEntryBody, TIP_RETAIN};
pub use fold::{
    claim_precedence, confirmations, fold_claims_by_outpoint, fold_outpoint_status, OutpointStatus,
};
pub use signing::{SignedClaim, SignedTipEntry};
pub use sorted::{ClaimKey, SortedMap};
pub use spv::{BlockHeader, PowFloor, SpvError, SpvProof, SpvVerified};
pub use tip_state::BitcoinTipStateV1;
pub use types::{
    BitcoinAddressParameters, BitcoinNetwork, BitcoinTipParameters, BlockAnchor, BlockHash,
    BridgeId, OutPoint, ScriptId, Txid,
};
pub use wire::{from_cbor, to_cbor};
