//! Records of the matching-pool and protocol-registry contracts.
use vstd::prelude::*;

verus! {

/// Cap configuration and live state of a matching-pool round.
#[derive(Clone, Copy, Debug, PartialEq, Eq, Structural)]
pub struct CapData {
    /// Per contributor and project; 0 means uncapped.
    pub per_contributor_cap: i128,
    /// Across all projects of the round; 0 means uncapped.
    pub round_contribution_cap: i128,
    /// Running sum of all recorded contributions.
    pub total_contributions: i128,
}

/// Errors of the protocol registry.
#[derive(Clone, Copy, Debug, PartialEq, Eq, Structural)]
pub enum RegistryError {
    NotInitialized,
    AlreadyInitialized,
    Unauthorized,
    ModuleNotFound,
    ModuleAlreadyRegistered,
    ModuleInactive,
    ContractPaused,
    /// A register or update with a version not above the recorded one.
    VersionNotIncremented,
}

} // verus!
