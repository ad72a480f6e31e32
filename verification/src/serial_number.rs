use crate::field::FieldElement;
use crate::hash::hash_to_field;
use crate::hash::hash_to_field_spec;
use vstd::prelude::*;

verus! {

/// The serial number of a transaction: the hash into the field of a secret
/// nonce that the spender sampled. The nonce itself is not kept.
#[derive(Clone, Copy, Debug, PartialEq, Eq)]
pub struct TransactionSerialNumber {
    value: FieldElement,
}

impl TransactionSerialNumber {
    pub closed spec fn spec_sn(&self) -> FieldElement {
        self.value
    }

    /// The serial number that the nonce `p` determines.
    pub fn new(p: FieldElement) -> (serial: Self)
        ensures
            serial.sn()@ == hash_to_field_spec(p),
            serial.sn().is_canonical(),
    {
        TransactionSerialNumber { value: hash_to_field(&p) }
    }

    #[verifier::when_used_as_spec(spec_sn)]
    pub fn sn(&self) -> (value: FieldElement)
        ensures
            value == self.sn(),
    {
        self.value
    }
}

} // verus!
