use ducat::asset_proof::{
    check_general_reciprocal, count_occurrences, distinct_sorted, occurrence_vector, AssetProof,
};
use ducat::blockchain_validator::BlockchainValidatorCircuit;
use ducat::epoch_circuit::EpochBalanceCircuit;
use ducat::error::AuditError;
use ducat::field::FieldElement;

#[test]
fn counts_public_serials_that_are_secret() {
    let counts = count_occurrences(vec![5, 3, 5, 9, 5, 3, 1], vec![3, 5, 5, 8]);
    assert_eq!(counts.len(), 2);
    assert_eq!(counts.get(&5), Some(&3));
    assert_eq!(counts.get(&3), Some(&2));
    assert_eq!(counts.get(&9), None);
    assert_eq!(counts.get(&8), None);
    assert!(count_occurrences(vec![], vec![1]).is_empty());
    assert!(count_occurrences(vec![1], vec![]).is_empty());
}

#[test]
fn distinct_serials_come_out_ascending() {
    assert_eq!(distinct_sorted(&vec![9, 3, 9, 1, 3, 3, 0]), vec![0, 1, 3, 9]);
    assert_eq!(distinct_sorted(&vec![]), Vec::<u64>::new());
    assert_eq!(distinct_sorted(&vec![u64::MAX, 0, u64::MAX]), vec![0, u64::MAX]);
}

#[test]
fn occurrence_vector_follows_canonical_order() {
    assert_eq!(occurrence_vector(&vec![5, 3, 5, 9, 5, 3, 1], &vec![5, 3]), vec![2, 3]);
    assert_eq!(occurrence_vector(&vec![5, 3, 5, 9, 5, 3, 1], &vec![3, 5, 3]), vec![2, 3]);
    assert_eq!(occurrence_vector(&vec![5, 3, 5], &vec![4, 5]), vec![2]);
    assert_eq!(occurrence_vector(&vec![], &vec![4, 5]), Vec::<u32>::new());
}

#[test]
fn reciprocal_identity_holds_away_from_zero() {
    let seven = FieldElement::from_u64(7);
    let three = FieldElement::from_u64(3);
    let zero = FieldElement::from_u64(0);
    assert_eq!(check_general_reciprocal(&seven, &three), (true, three));
    assert_eq!(check_general_reciprocal(&seven, &zero), (true, zero));
    assert_eq!(check_general_reciprocal(&zero, &three), (false, three));
    assert_eq!(check_general_reciprocal(&zero, &zero), (false, zero));
    let wide = FieldElement::from_u128(u64::MAX as u128 + u32::MAX as u128);
    assert_eq!(check_general_reciprocal(&wide, &seven), (true, seven));
}

#[test]
fn asset_statement_holds() {
    let statement = AssetProof::new(17, vec![1, 2], vec![4, 8, 8, 15], vec![8, 4]);
    assert_eq!(statement.alpha, 17);
    assert_eq!(statement.generate_constraints(), Ok(()));
    let empty = AssetProof::new(0, vec![], vec![1, 2], vec![]);
    assert_eq!(empty.generate_constraints(), Ok(()));
}

#[test]
fn asset_statement_reports_subset_violation() {
    let statement = AssetProof::new(17, vec![1], vec![4, 8], vec![8, 5]);
    assert_eq!(statement.generate_constraints(), Err(AuditError::SubsetViolation));
}

#[test]
fn asset_statement_reports_zero_denominator() {
    let statement = AssetProof::new(0, vec![1, 1], vec![0, 8], vec![8, 0]);
    assert_eq!(statement.generate_constraints(), Err(AuditError::ProofFailure));
    let shifted = AssetProof::new(1, vec![1, 1], vec![0, 8], vec![8, 0]);
    assert_eq!(shifted.generate_constraints(), Ok(()));
}

#[test]
fn asset_statement_reports_occurrence_mismatch() {
    let wrong_count = AssetProof::new(17, vec![1, 1], vec![4, 8, 8, 15], vec![8, 4]);
    assert_eq!(wrong_count.generate_constraints(), Err(AuditError::OccurrenceMismatch));
    let wrong_order = AssetProof::new(17, vec![2, 1], vec![4, 8, 8, 15], vec![8, 4]);
    assert_eq!(wrong_order.generate_constraints(), Err(AuditError::OccurrenceMismatch));
    let too_short = AssetProof::new(17, vec![1], vec![4, 8, 8, 15], vec![8, 4]);
    assert_eq!(too_short.generate_constraints(), Err(AuditError::OccurrenceMismatch));
}

#[test]
fn epoch_statement_is_integer_arithmetic() {
    assert_eq!(EpochBalanceCircuit::new(20, -7, 13).generate_constraints(), Ok(()));
    assert_eq!(
        EpochBalanceCircuit::new(20, -7, 14).generate_constraints(),
        Err(AuditError::ProofFailure)
    );
    assert_eq!(
        EpochBalanceCircuit::new(i32::MAX, 1, i32::MIN).generate_constraints(),
        Err(AuditError::ProofFailure)
    );
    assert_eq!(EpochBalanceCircuit::new(i32::MIN, i32::MAX, -1).generate_constraints(), Ok(()));
}

#[test]
fn blockchain_validator_statement() {
    let holds = BlockchainValidatorCircuit::new(vec![1, 2, 3], vec![10, 20], vec![20], vec![3, 1]);
    assert_eq!(holds.generate_constraints(), Ok(()));
    let missing_serial =
        BlockchainValidatorCircuit::new(vec![1, 2, 3], vec![10, 20], vec![20], vec![4]);
    assert_eq!(missing_serial.generate_constraints(), Err(AuditError::SubsetViolation));
    let missing_root =
        BlockchainValidatorCircuit::new(vec![1, 2, 3], vec![10, 20], vec![30], vec![1]);
    assert_eq!(missing_root.generate_constraints(), Err(AuditError::SubsetViolation));
}
