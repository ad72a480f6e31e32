use crate::error::AuditError;
use vstd::prelude::*;

verus! {

/// The statement that an epoch's balances are consistent: the initial
/// balance and the net change add up to the final balance. All three values
/// are witnesses.
#[derive(Clone, Copy, Debug, PartialEq, Eq)]
pub struct EpochBalanceCircuit {
    pub initial_balance: i32,
    pub epoch_delta: i32,
    pub final_balance: i32,
}

impl EpochBalanceCircuit {
    /// Whether the balances are consistent, over the integers.
    pub open spec fn holds(&self) -> bool {
        self.initial_balance + self.epoch_delta == self.final_balance
    }

    pub fn new(initial_balance: i32, epoch_delta: i32, final_balance: i32) -> (circuit: Self)
        ensures
            circuit.initial_balance == initial_balance,
            circuit.epoch_delta == epoch_delta,
            circuit.final_balance == final_balance,
    {
        EpochBalanceCircuit { initial_balance, epoch_delta, final_balance }
    }

    /// Checks the statement on the witness. The sum is taken over the
    /// integers, so a sum outside the 32-bit range equals no final balance.
    pub fn generate_constraints(&self) -> (done: Result<(), AuditError>)
        ensures
            done is Ok <==> self.holds(),
            done matches Err(e) ==> e == AuditError::ProofFailure,
    {
        let sum: i64 = self.initial_balance as i64 + self.epoch_delta as i64;
        if sum == self.final_balance as i64 {
            Ok(())
        } else {
            Err(AuditError::ProofFailure)
        }
    }
}

} // verus!
