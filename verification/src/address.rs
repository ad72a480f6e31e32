use crate::field::FieldElement;
use crate::hash::hash_to_field;
use crate::hash::hash_to_field_spec;
use vstd::prelude::*;

verus! {

/// A pair of keys. The public key is the hash of the secret key into the
/// field, and both are kept: the secret key is a leaf of each transaction
/// root that the address takes part in.
#[derive(Clone, Copy, Debug, PartialEq, Eq)]
pub struct Address {
    public_key: FieldElement,
    secret_key: FieldElement,
}

impl Address {
    pub closed spec fn spec_public_key(&self) -> FieldElement {
        self.public_key
    }

    pub closed spec fn spec_secret_key(&self) -> FieldElement {
        self.secret_key
    }

    /// The public key of every address is derived from its secret key.
    #[verifier::type_invariant]
    pub open spec fn is_derived(self) -> bool {
        &&& self.public_key()@ == hash_to_field_spec(self.secret_key())
        &&& self.public_key().is_canonical()
        &&& self.secret_key().is_canonical()
    }

    /// Two derived addresses with one secret key are one address.
    pub proof fn lemma_same_secret(a: Address, b: Address)
        requires
            a.is_derived(),
            b.is_derived(),
            a.secret_key() == b.secret_key(),
        ensures
            a == b,
    {
        FieldElement::lemma_view_injective(a.public_key, b.public_key);
    }

    /// The address of a secret key.
    pub fn new(secret_key: &FieldElement) -> (address: Self)
        ensures
            address.secret_key() == *secret_key,
            address.public_key()@ == hash_to_field_spec(*secret_key),
            address.is_derived(),
    {
        proof {
            use_type_invariant(secret_key);
        }
        Address { public_key: hash_to_field(secret_key), secret_key: *secret_key }
    }

    #[verifier::when_used_as_spec(spec_public_key)]
    pub fn public_key(&self) -> (key: FieldElement)
        ensures
            key == self.public_key(),
    {
        self.public_key
    }

    #[verifier::when_used_as_spec(spec_secret_key)]
    pub fn secret_key(&self) -> (key: FieldElement)
        ensures
            key == self.secret_key(),
    {
        self.secret_key
    }
}

} // verus!
