//! What a bridge asserts about a script, and what a reader concludes from it.
//!
//! Nothing is ever edited. A claim stands beside the claims before it, stamped with
//! the asserting bridge's own chain position, and a reorg adds a newer claim. Status
//! is derived by folding the set: the highest `as_of` wins for each outpoint, and two
//! claims at one height resolve to whichever grants a payee less.

use vstd::prelude::*;

use crate::spv::{ProofModel, SpvProof};
use crate::types::{BitcoinNetwork, BlockAnchor, BlockHash, OutPoint, ScriptId};

verus! {

/// The payload a bridge signs when asserting something about one script.
#[derive(PartialEq, Eq, Debug)]
pub struct ClaimBody {
    /// Binds this claim to exactly one contract instance.
    pub script_id: ScriptId,
    pub network: BitcoinNetwork,
    /// The bridge's own best-chain tip at the moment it made this assertion, which is
    /// what orders competing assertions.
    pub as_of: BlockAnchor,
    pub claim: Claim,
}

/// What a bridge is asserting.
#[derive(PartialEq, Eq, Debug)]
pub enum Claim {
    /// An output paying this script is in the mempool and in no block.
    MempoolOutput { outpoint: OutPoint, value_sats: u64 },
    /// An output paying this script is in the block named by `anchor`, which is on
    /// the bridge's best chain as of `as_of`.
    ConfirmedOutput { outpoint: OutPoint, value_sats: u64, anchor: BlockAnchor, spv: SpvProof },
    /// The bridge asserted this outpoint before and no longer sees it.
    Retracted { outpoint: OutPoint },
    /// The bridge has scanned this script's activity up to `as_of` and published what
    /// it found.
    ScannedTo,
}

/// A [`Claim`] as a mathematical value.
#[verifier::ext_equal]
pub enum ClaimModel {
    MempoolOutput { outpoint: OutPoint, value_sats: u64 },
    ConfirmedOutput { outpoint: OutPoint, value_sats: u64, anchor: BlockAnchor, spv: ProofModel },
    Retracted { outpoint: OutPoint },
    ScannedTo,
}

/// A [`ClaimBody`] as a mathematical value.
#[verifier::ext_equal]
pub struct BodyModel {
    pub script_id: ScriptId,
    pub network: BitcoinNetwork,
    pub as_of: BlockAnchor,
    pub claim: ClaimModel,
}

impl View for Claim {
    type V = ClaimModel;

    open spec fn view(&self) -> ClaimModel {
        match *self {
            Claim::MempoolOutput { outpoint, value_sats } => ClaimModel::MempoolOutput {
                outpoint,
                value_sats,
            },
            Claim::ConfirmedOutput { outpoint, value_sats, anchor, spv } => {
                ClaimModel::ConfirmedOutput { outpoint, value_sats, anchor, spv: spv@ }
            },
            Claim::Retracted { outpoint } => ClaimModel::Retracted { outpoint },
            Claim::ScannedTo => ClaimModel::ScannedTo,
        }
    }
}

impl View for ClaimBody {
    type V = BodyModel;

    open spec fn view(&self) -> BodyModel {
        BodyModel {
            script_id: self.script_id,
            network: self.network,
            as_of: self.as_of,
            claim: self.claim@,
        }
    }
}

impl ClaimModel {
    pub open spec fn outpoint(self) -> Option<OutPoint> {
        match self {
            ClaimModel::MempoolOutput { outpoint, .. } => Some(outpoint),
            ClaimModel::ConfirmedOutput { outpoint, .. } => Some(outpoint),
            ClaimModel::Retracted { outpoint } => Some(outpoint),
            ClaimModel::ScannedTo => None,
        }
    }

    pub open spec fn value_sats(self) -> Option<u64> {
        match self {
            ClaimModel::MempoolOutput { value_sats, .. } => Some(value_sats),
            ClaimModel::ConfirmedOutput { value_sats, .. } => Some(value_sats),
            ClaimModel::Retracted { .. } => None,
            ClaimModel::ScannedTo => None,
        }
    }
}

impl Claim {
    /// The outpoint this claim is about. A watermark is about none.
    pub fn outpoint(&self) -> (r: Option<OutPoint>)
        ensures
            r == self@.outpoint(),
    {
        match self {
            Claim::MempoolOutput { outpoint, .. } => Some(*outpoint),
            Claim::ConfirmedOutput { outpoint, .. } => Some(*outpoint),
            Claim::Retracted { outpoint } => Some(*outpoint),
            Claim::ScannedTo => None,
        }
    }

    /// The amount this claim names, if it names one.
    pub fn value_sats(&self) -> (r: Option<u64>)
        ensures
            r == self@.value_sats(),
    {
        match self {
            Claim::MempoolOutput { value_sats, .. } => Some(*value_sats),
            Claim::ConfirmedOutput { value_sats, .. } => Some(*value_sats),
            Claim::Retracted { .. } => None,
            Claim::ScannedTo => None,
        }
    }

    pub fn is_watermark(&self) -> (r: bool)
        ensures
            r == (self@ is ScannedTo),
    {
        match self {
            Claim::ScannedTo => true,
            _ => false,
        }
    }
}

impl Clone for Claim {
    fn clone(&self) -> (r: Self)
        ensures
            r@ == self@,
    {
        match self {
            Claim::MempoolOutput { outpoint, value_sats } => Claim::MempoolOutput {
                outpoint: *outpoint,
                value_sats: *value_sats,
            },
            Claim::ConfirmedOutput { outpoint, value_sats, anchor, spv } => Claim::ConfirmedOutput {
                outpoint: *outpoint,
                value_sats: *value_sats,
                anchor: *anchor,
                spv: spv.clone(),
            },
            Claim::Retracted { outpoint } => Claim::Retracted { outpoint: *outpoint },
            Claim::ScannedTo => Claim::ScannedTo,
        }
    }
}

impl Clone for ClaimBody {
    fn clone(&self) -> (r: Self)
        ensures
            r@ == self@,
    {
        ClaimBody {
            script_id: self.script_id,
            network: self.network,
            as_of: self.as_of,
            claim: self.claim.clone(),
        }
    }
}

/// A bridge's signed summary of one block, for the per-network tip contract.
#[derive(Clone, Copy, PartialEq, Eq, Debug)]
pub struct TipEntryBody {
    pub network: BitcoinNetwork,
    pub anchor: BlockAnchor,
    pub prev_hash: BlockHash,
    /// The block header's own timestamp.
    pub block_time: u32,
    pub tx_count: u32,
    /// Median time past.
    pub median_time: u32,
}

/// The number of recent block summaries a tip contract retains.
pub const TIP_RETAIN: usize = 64;

} // verus!
