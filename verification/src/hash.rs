use crate::field::le_value;
use crate::field::modulus;
use crate::field::FieldElement;
use rs_merkle::algorithms::Sha256;
use rs_merkle::Hasher;
use vstd::prelude::*;

verus! {

/// The SHA-256 digest of a byte string.
pub uninterp spec fn sha256_digest(data: Seq<u8>) -> Seq<u8>;

/// Calls `Hasher::hash` of rs_merkle's `Sha256`, which feeds the data to
/// SHA-256 and returns the 32 bytes of the digest.
#[verifier::external_body]
pub(crate) fn sha256(data: &[u8]) -> (digest: [u8; 32])
    ensures
        digest@ == sha256_digest(data@),
{
    Sha256::hash(data)
}

/// The field element that an element hashes to: the SHA-256 digest of its 32
/// little-endian bytes, read as a little-endian integer and reduced modulo
/// the field order.
pub open spec fn hash_to_field_spec(input: FieldElement) -> nat {
    le_value(sha256_digest(input.le_bytes())) % modulus()
}

/// Hashes a field element into the field.
pub fn hash_to_field(input: &FieldElement) -> (hashed: FieldElement)
    ensures
        hashed@ == hash_to_field_spec(*input),
        hashed.is_canonical(),
{
    let bytes = input.to_bytes_le();
    let digest = sha256(bytes.as_slice());
    FieldElement::from_le_bytes_mod_order(digest.as_slice())
}

} // verus!
