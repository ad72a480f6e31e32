use vstd::prelude::*;

verus! {

/// The ways in which an operation of the ledger can fail. Every failure is
/// fatal for the epoch operation that met it.
#[derive(Clone, Copy, Debug, PartialEq, Eq, Structural)]
pub enum AuditError {
    /// A serial number is already held by the blockchain or the organization.
    DuplicateSerialNumber,
    /// The values of a split do not add up to the value of the transaction.
    SplitSumMismatch,
    /// An inclusion proof failed while a Merkle root was being built.
    InvalidMerkleWitness,
    /// The serial numbers or roots of an organization are not all on the blockchain.
    SubsetViolation,
    /// The claimed occurrence vector disagrees with the counted one.
    OccurrenceMismatch,
    /// A statement does not hold, or its proof was not accepted.
    ProofFailure,
    /// The run configuration is missing or malformed.
    ConfigError,
}

impl AuditError {
    /// A short description of the failure.
    pub fn message(&self) -> (text: &'static str)
        ensures
            text@ == match *self {
                AuditError::DuplicateSerialNumber => "serial number already spent"@,
                AuditError::SplitSumMismatch => "split values do not sum to the transaction value"@,
                AuditError::InvalidMerkleWitness => "merkle inclusion proof rejected"@,
                AuditError::SubsetViolation => "serial numbers or roots missing from the blockchain"@,
                AuditError::OccurrenceMismatch => "occurrence vector does not match"@,
                AuditError::ProofFailure => "proof failed to verify"@,
                AuditError::ConfigError => "run configuration missing or malformed"@,
            },
    {
        match self {
            AuditError::DuplicateSerialNumber => "serial number already spent",
            AuditError::SplitSumMismatch => "split values do not sum to the transaction value",
            AuditError::InvalidMerkleWitness => "merkle inclusion proof rejected",
            AuditError::SubsetViolation => "serial numbers or roots missing from the blockchain",
            AuditError::OccurrenceMismatch => "occurrence vector does not match",
            AuditError::ProofFailure => "proof failed to verify",
            AuditError::ConfigError => "run configuration missing or malformed",
        }
    }
}

} // verus!
