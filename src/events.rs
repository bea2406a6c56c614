//! The records that the host publishes when a project changes.
use vstd::prelude::*;

use crate::types::Address;

verus! {

/// Published when a project is registered.
#[derive(Clone, Copy, Debug, PartialEq, Eq, Structural)]
pub struct ProjectCreated {
    pub project_id: u64,
    pub creator: Address,
    /// The first accepted asset, in which the goal is denominated.
    pub token: Address,
    pub goal: i128,
}

/// Published when a deposit is accepted.
#[derive(Clone, Copy, Debug, PartialEq, Eq, Structural)]
pub struct ProjectFunded {
    pub project_id: u64,
    pub donator: Address,
    pub amount: i128,
}

/// Published when a proof is verified and the escrow released.
#[derive(Clone, Copy, Debug, PartialEq, Eq)]
pub struct ProjectVerified {
    pub project_id: u64,
    pub oracle: Address,
    pub proof_hash: [u8; 32],
}

/// Published when a project expires.
#[derive(Clone, Copy, Debug, PartialEq, Eq, Structural)]
pub struct ProjectExpired {
    pub project_id: u64,
    pub deadline: u64,
}

} // verus!
