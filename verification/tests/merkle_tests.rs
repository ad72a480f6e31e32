use ducat::error::AuditError;
use ducat::field::FieldElement;
use ducat::fiat_transform::{convert_scalars_to_single_u32, generate_alpha};
use ducat::merkle::MerkleTreeGadget;

fn leaves_of(values: &[u64]) -> Vec<FieldElement> {
    values.iter().map(|v| FieldElement::from_u64(*v)).collect()
}

#[test]
fn root_of_one_leaf_is_its_reduced_hash() {
    let root = MerkleTreeGadget::create_root_hash(&leaves_of(&[5])).unwrap();
    let expected: [u8; 32] = [
        166, 231, 97, 119, 47, 101, 199, 15, 194, 22, 157, 145, 25, 239, 83, 115, 65, 185, 150,
        184, 146, 184, 158, 200, 190, 216, 60, 26, 60, 169, 161, 43,
    ];
    assert_eq!(root.to_bytes_le(), expected);
}

#[test]
fn root_of_two_and_three_leaves() {
    let two = MerkleTreeGadget::create_root_hash(&leaves_of(&[1, 2])).unwrap();
    let expected_two: [u8; 32] = [
        51, 127, 228, 48, 168, 204, 216, 248, 246, 215, 133, 141, 136, 55, 209, 200, 71, 126,
        180, 211, 110, 125, 205, 233, 88, 69, 234, 118, 5, 189, 63, 6,
    ];
    assert_eq!(two.to_bytes_le(), expected_two);
    let three = MerkleTreeGadget::create_root_hash(&leaves_of(&[1, 2, 3])).unwrap();
    let expected_three: [u8; 32] = [
        62, 147, 127, 185, 55, 193, 141, 15, 176, 217, 191, 34, 37, 132, 110, 168, 6, 239, 120,
        251, 148, 180, 117, 72, 110, 68, 160, 156, 118, 123, 185, 3,
    ];
    assert_eq!(three.to_bytes_le(), expected_three);
}

#[test]
fn root_depends_on_leaf_order() {
    let forward = MerkleTreeGadget::create_root_hash(&leaves_of(&[1, 2, 3, 4])).unwrap();
    let again = MerkleTreeGadget::create_root_hash(&leaves_of(&[1, 2, 3, 4])).unwrap();
    let swapped = MerkleTreeGadget::create_root_hash(&leaves_of(&[2, 1, 3, 4])).unwrap();
    assert_eq!(forward, again);
    assert_ne!(forward, swapped);
}

#[test]
fn empty_tree_has_no_root() {
    assert!(MerkleTreeGadget::create_root_hash(&vec![]).is_none());
    assert!(!MerkleTreeGadget::generate_proof_and_validate(&vec![], vec![]));
    assert_eq!(
        MerkleTreeGadget::checked_root(&vec![]),
        Err(AuditError::InvalidMerkleWitness)
    );
}

#[test]
fn every_single_leaf_validates() {
    let leaves = leaves_of(&[10, 20, 30, 40, 50, 60, 70]);
    for idx in 0..leaves.len() {
        assert!(MerkleTreeGadget::generate_proof_and_validate(&leaves, vec![idx]));
    }
    assert!(MerkleTreeGadget::generate_proof_and_validate(&leaves, vec![0, 3, 6]));
}

#[test]
fn prove_and_verify_is_repeatable() {
    let leaves = leaves_of(&[3, 1, 4, 1, 5, 9, 2, 6]);
    let first = MerkleTreeGadget::generate_proof_and_validate(&leaves, vec![2, 5]);
    let second = MerkleTreeGadget::generate_proof_and_validate(&leaves, vec![2, 5]);
    assert_eq!(first, second);
    assert!(first);
}

#[test]
fn position_outside_the_tree_does_not_validate() {
    let leaves = leaves_of(&[1, 2, 3]);
    assert!(!MerkleTreeGadget::generate_proof_and_validate(&leaves, vec![3]));
    assert!(!MerkleTreeGadget::generate_proof_and_validate(&leaves, vec![0, 17]));
}

#[test]
fn hash_leaves_hashes_each_leaf() {
    let hashes = MerkleTreeGadget::hash_leaves(&leaves_of(&[0, 5]));
    assert_eq!(hashes.len(), 2);
    let expected_zero: [u8; 32] = [
        102, 104, 122, 173, 248, 98, 189, 119, 108, 143, 193, 139, 142, 159, 142, 32, 8, 151, 20,
        133, 110, 226, 51, 179, 144, 42, 89, 29, 13, 95, 41, 37,
    ];
    assert_eq!(hashes[0], expected_zero);
    assert_ne!(hashes[1], hashes[0]);
}

#[test]
fn checked_root_agrees_with_root() {
    let leaves = leaves_of(&[7, 8, 9]);
    assert_eq!(
        MerkleTreeGadget::checked_root(&leaves).unwrap(),
        MerkleTreeGadget::create_root_hash(&leaves).unwrap()
    );
}

#[test]
fn scalars_fold_by_wrapping_sum_of_first_limbs() {
    assert_eq!(convert_scalars_to_single_u32(&vec![]), 0);
    assert_eq!(convert_scalars_to_single_u32(&vec![[1, 9, 9, 9], [2, 9, 9, 9]]), 3);
    assert_eq!(convert_scalars_to_single_u32(&vec![[u64::MAX, 0, 0, 0], [2, 0, 0, 0]]), 1);
    assert_eq!(convert_scalars_to_single_u32(&vec![[0x1_0000_0005, 0, 0, 0]]), 5);
    assert_eq!(
        convert_scalars_to_single_u32(&vec![[0xffff_ffff, 0, 0, 0], [1, 0, 0, 0]]),
        0
    );
}

#[test]
fn alpha_is_stable_for_the_same_roots() {
    let roots = leaves_of(&[11, 22, 33]);
    let first = generate_alpha(roots.clone()).unwrap();
    let second = generate_alpha(roots).unwrap();
    assert_eq!(first, second);
    let other = generate_alpha(leaves_of(&[11, 22, 34])).unwrap();
    assert_ne!(first, other);
}

#[test]
fn alpha_needs_a_root() {
    assert_eq!(generate_alpha(vec![]), Err(AuditError::InvalidMerkleWitness));
}

#[test]
fn alpha_is_the_folded_poseidon_hash_of_the_root() {
    let roots = leaves_of(&[11, 22, 33]);
    let base = MerkleTreeGadget::checked_root(&roots).unwrap().low_u64();
    let input = dusk_bls12_381::BlsScalar::from_raw([base, base, base, base]);
    let output = dusk_poseidon::Hash::digest(dusk_poseidon::Domain::Other, &[input]);
    let mut total: u64 = 0;
    for scalar in output.iter() {
        total = total.wrapping_add(scalar.internal_repr()[0]);
    }
    let alpha = generate_alpha(roots).unwrap();
    assert_eq!(alpha, total as u32);
    assert_ne!(alpha, base as u32);
}

#[test]
fn merkle_tree_stands_on_the_hashed_leaves() {
    let leaves = leaves_of(&[1, 2, 3]);
    let tree = MerkleTreeGadget::create_merkle_tree(&leaves);
    let top = tree.root().unwrap();
    let root = MerkleTreeGadget::create_root_hash(&leaves).unwrap();
    assert_eq!(ducat::field::FieldElement::from_le_bytes_mod_order(&top), root);
    assert!(MerkleTreeGadget::create_merkle_tree(&vec![]).root().is_none());
}
