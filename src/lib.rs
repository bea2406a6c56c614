//! Escrow for funding projects: a role registry, a project lifecycle and a
//! per-asset ledger, combined behind one state value.
use vstd::prelude::*;

pub mod assoc;
pub mod events;
pub mod protocol;
pub mod rbac;
pub mod release;
pub mod storage;
pub mod types;

pub use protocol::PifpProtocol;
pub use rbac::Role;
pub use types::{Address, Project, ProjectBalances, ProjectStatus, ProjectView, TokenBalance};

verus! {

/// Why an operation was refused. A refused operation changes nothing.
#[derive(Clone, Copy, Debug, PartialEq, Eq, Structural, PartialOrd, Ord)]
pub enum Error {
    /// No project has the given id, or the project has expired.
    ProjectNotFound,
    /// Reserved for milestone-based releases.
    MilestoneNotFound,
    /// The project's escrow was already released.
    MilestoneAlreadyReleased,
    /// Reserved for partial releases.
    InsufficientBalance,
    /// Bad registration parameters, or removal of a project's last asset.
    InvalidMilestones,
    /// The caller's role does not allow the operation.
    NotAuthorized,
    /// The submitted proof does not match the project's commitment.
    GoalMismatch,
    /// A `SuperAdmin` already exists.
    AlreadyInitialized,
    /// Reserved for role lookups that must succeed.
    RoleNotFound,
    /// The project does not accept the asset.
    TokenNotAccepted,
    /// A deposit of zero or less.
    ZeroAmount,
    /// The project already accepts the largest number of assets.
    TooManyTokens,
    /// The project already accepts the asset.
    TokenAlreadyAccepted,
    /// Expiry was requested at or before the project's deadline.
    DeadlineNotReached,
    /// Expiry was requested for a project that is no longer funding.
    InvalidTransition,
}

} // verus!
