use crate::blockchain::Blockchain;
use crate::error::AuditError;
use crate::field::low64;
use crate::field::FieldElement;
use crate::merkle::MerkleTreeGadget;
use dusk_bls12_381::BlsScalar;
use dusk_poseidon::Domain;
use vstd::prelude::*;

verus! {

/// The Poseidon hash of one scalar of BLS12-381: for the four limbs from
/// which the scalar is made, the four limbs of each scalar of the output.
pub uninterp spec fn poseidon_digest(raw: Seq<u64>) -> Seq<Seq<u64>>;

/// The limbs that a sequence of scalars holds.
pub open spec fn limb_views(scalars: Seq<[u64; 4]>) -> Seq<Seq<u64>> {
    scalars.map_values(|s: [u64; 4]| s@)
}

/// Makes a scalar with `BlsScalar::from_raw` of dusk-bls12_381, hashes it
/// alone with `Hash::digest` of dusk-poseidon in the domain `Other`, and
/// returns the `internal_repr` of each scalar of the output.
#[verifier::external_body]
fn poseidon_hash(raw: [u64; 4]) -> (scalars: Vec<[u64; 4]>)
    ensures
        limb_views(scalars@) == poseidon_digest(raw@),
{
    let input = BlsScalar::from_raw(raw);
    let output = dusk_poseidon::Hash::digest(Domain::Other, &[input]);
    output.iter().map(|scalar| *scalar.internal_repr()).collect()
}

/// The sum of the first limbs of the scalars.
pub open spec fn first_limb_sum(scalars: Seq<Seq<u64>>) -> nat
    decreases scalars.len(),
{
    if scalars.len() == 0 {
        0
    } else {
        first_limb_sum(scalars.drop_last()) + scalars.last()[0] as nat
    }
}

/// The challenge that a sequence of scalars folds to: the sum of their first
/// limbs, of which the least significant 32 bits are kept.
pub open spec fn folded(scalars: Seq<Seq<u64>>) -> u32 {
    (first_limb_sum(scalars) % 0x1_0000_0000) as u32
}

/// The challenge derived from the roots: the checked Merkle root over them
/// is lowered to its least significant 64 bits, four copies of which make
/// the scalar that is hashed and folded. There is none where the roots have
/// no checked Merkle root.
pub open spec fn alpha_spec(roots: Seq<FieldElement>) -> Option<u32> {
    match MerkleTreeGadget::checked_root_spec(roots) {
        Some(root) => {
            let base = low64(root);
            Some(folded(poseidon_digest(seq![base, base, base, base])))
        },
        None => None,
    }
}

/// The challenge depends on the contents of the blockchain alone:
/// blockchains that hold the same map from serial number to root give the
/// same challenge, in whatever order their entries came.
pub proof fn lemma_alpha_determined_by_contents(a: Blockchain, b: Blockchain)
    requires
        a.wf(),
        b.wf(),
        a@ == b@,
    ensures
        alpha_spec(a.values_spec()) == alpha_spec(b.values_spec()),
{
    Blockchain::lemma_contents_determine_entries(a, b);
}

/// Folds scalars into a challenge: their first limbs are summed with
/// wrapping 64-bit addition and the sum is truncated to 32 bits.
pub fn convert_scalars_to_single_u32(scalars: &Vec<[u64; 4]>) -> (alpha: u32)
    ensures
        alpha == folded(limb_views(scalars@)),
{
    let mut total: u64 = 0;
    let mut i: usize = 0;
    while i < scalars.len()
        invariant
            i <= scalars.len(),
            total as nat == first_limb_sum(limb_views(scalars@.take(i as int)))
                % 0x1_0000_0000_0000_0000,
        decreases scalars.len() - i,
    {
        let repr = &scalars[i];
        proof {
            assert(limb_views(scalars@.take(i + 1)).drop_last() =~= limb_views(
                scalars@.take(i as int),
            ));
            assert(limb_views(scalars@.take(i + 1)).last() == scalars@[i as int]@);
        }
        total = total.wrapping_add(repr[0]);
        i += 1;
    }
    proof {
        assert(scalars@.take(scalars.len() as int) =~= scalars@);
    }
    (total % 0x1_0000_0000) as u32
}

/// Derives the challenge of the asset proof from the roots of the blockchain.
/// The roots become the leaves of a Merkle tree; each is checked for
/// inclusion, and the root of the tree is hashed and folded.
pub fn generate_alpha(blockchain_merkle_roots: Vec<FieldElement>) -> (alpha: Result<
    u32,
    AuditError,
>)
    ensures
        match alpha {
            Ok(a) => alpha_spec(blockchain_merkle_roots@) == Some(a),
            Err(e) => e == AuditError::InvalidMerkleWitness && alpha_spec(blockchain_merkle_roots@)
                is None,
        },
{
    let root = match MerkleTreeGadget::checked_root(&blockchain_merkle_roots) {
        Ok(root) => root,
        Err(e) => {
            return Err(e);
        },
    };
    let base = root.low_u64();
    let input = [base, base, base, base];
    proof {
        assert(input@ =~= seq![base, base, base, base]);
    }
    let hash = poseidon_hash(input);
    Ok(convert_scalars_to_single_u32(&hash))
}

} // verus!
