use crate::error::AuditError;
use crate::org::all_contained;
use crate::org::validate_transaction_roots;
use crate::org::validate_transaction_serial_numbers;
use vstd::prelude::*;

verus! {

/// The statement that what an organization holds is on the blockchain: its
/// spent serial numbers among the serial numbers, and its cached roots among
/// the roots. Every collection is lowered to the least significant 64 bits of
/// its field elements.
#[derive(Debug)]
pub struct BlockchainValidatorCircuit {
    pub blockchain_sns: Vec<u64>,
    pub blockchain_roots: Vec<u64>,
    pub transaction_root_cache: Vec<u64>,
    pub spent_serial_numbers: Vec<u64>,
}

impl BlockchainValidatorCircuit {
    /// Whether both collections of the organization lie within the blockchain.
    pub open spec fn holds(&self) -> bool {
        &&& all_contained(self.spent_serial_numbers@, self.blockchain_sns@)
        &&& all_contained(self.transaction_root_cache@, self.blockchain_roots@)
    }

    pub fn new(
        blockchain_sns: Vec<u64>,
        blockchain_roots: Vec<u64>,
        transaction_root_cache: Vec<u64>,
        spent_serial_numbers: Vec<u64>,
    ) -> (circuit: Self)
        ensures
            circuit.blockchain_sns == blockchain_sns,
            circuit.blockchain_roots == blockchain_roots,
            circuit.transaction_root_cache == transaction_root_cache,
            circuit.spent_serial_numbers == spent_serial_numbers,
    {
        BlockchainValidatorCircuit {
            blockchain_sns,
            blockchain_roots,
            transaction_root_cache,
            spent_serial_numbers,
        }
    }

    /// Checks the statement on the witness: a serial number or a root that is
    /// missing from the blockchain is a subset violation.
    pub fn generate_constraints(self) -> (done: Result<(), AuditError>)
        ensures
            done is Ok <==> self.holds(),
            done matches Err(e) ==> e == AuditError::SubsetViolation,
    {
        if !validate_transaction_serial_numbers(self.blockchain_sns, self.spent_serial_numbers) {
            return Err(AuditError::SubsetViolation);
        }
        if !validate_transaction_roots(self.blockchain_roots, self.transaction_root_cache) {
            return Err(AuditError::SubsetViolation);
        }
        Ok(())
    }
}

} // verus!
