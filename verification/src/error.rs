use vstd::prelude::*;

use crate::felt::FieldElement;

verus! {

/// Every way a migration run can fail. Each variant carries enough context —
/// a tag, an offending value, a class hash or a call index — to diagnose the
/// failure and re-run the migration from scratch.
#[derive(Clone, PartialEq, Eq, Debug)]
pub enum MigrationError {
    /// A local permission grant names a grantee tag whose resource does not
    /// exist in the diff, so no address can be resolved for it. Raised before
    /// any call of the permission phase is submitted.
    OrphanSelectorAddress(String),
    /// A configured initialization argument could not be parsed as a numeric
    /// field element; carries the offending value. Raised before any call of
    /// the initialization phase is submitted.
    InitArgParse(String),
    /// The world is not deployed and the diff carries no class to deploy.
    MissingWorldClass,
    /// The configured world seed cannot be packed into a deployment salt:
    /// it is not ASCII or does not fit in 31 bytes.
    InvalidWorldSeed(String),
    /// Declaring the artifact with this compiled-class hash failed for a
    /// reason other than "already declared". The remaining declarations are
    /// not attempted.
    Declaration(FieldElement),
    /// The factory deployment of the world's contract with this class hash
    /// failed — distinct from an execution error so a caller can decide how
    /// to treat "already deployed".
    Deployment(FieldElement),
    /// A batched or sequential call failed: the index of the failing call
    /// within its batch, and how many calls before it had already been
    /// committed (always zero for an atomic batch).
    Execution { failed: usize, committed: usize },
    /// The submitter could not sign a transaction; surfaced verbatim.
    Signing,
}

impl MigrationError {
    /// True of the errors that are configuration errors: they are raised
    /// before any network operation of their phase.
    pub open spec fn is_configuration(&self) -> bool {
        match *self {
            MigrationError::OrphanSelectorAddress(_) => true,
            MigrationError::InitArgParse(_) => true,
            MigrationError::MissingWorldClass => true,
            MigrationError::InvalidWorldSeed(_) => true,
            _ => false,
        }
    }
}

} // verus!
