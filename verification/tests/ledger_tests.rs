use ducat::address::Address;
use ducat::blockchain::Blockchain;
use ducat::error::AuditError;
use ducat::field::FieldElement;
use ducat::fiat_transform::generate_alpha;
use ducat::network::{ComponentsReport, Network};
use ducat::org::{validate_transaction_roots, validate_transaction_serial_numbers, Organization};
use ducat::transaction::Transaction;

fn fe(value: u64) -> FieldElement {
    FieldElement::from_u64(value)
}

fn org_a() -> Organization {
    Organization::new("A".to_string(), 20, Organization::create_known_addresses(5, 0))
}

fn org_b() -> Organization {
    Organization::new("B".to_string(), 30, Organization::create_known_addresses(5, 10))
}

fn transfer_two_to_eleven(nonce: u64) -> Transaction {
    Transaction::new(fe(1000), 7, fe(2), fe(11), fe(nonce))
}

fn both_verified() -> ComponentsReport {
    ComponentsReport { epoch_proof_verified: true, blockchain_proof_verified: true }
}

fn two_org_network() -> Network {
    let mut network = Network::new();
    network.add_organization(org_a());
    network.add_organization(org_b());
    network
}

#[test]
fn blockchain_append_inserts_new_serial() {
    let mut chain = Blockchain::new();
    assert_eq!(chain.len(), 0);
    assert!(!chain.contains(&fe(5)));
    assert_eq!(chain.append_transaction(fe(100), fe(5)), Ok(()));
    assert!(chain.contains(&fe(5)));
    assert_eq!(chain.keys(), vec![fe(5)]);
    assert_eq!(chain.values(), vec![fe(100)]);
    assert_eq!(chain.len(), 1);
}

#[test]
fn blockchain_rejects_double_spend() {
    let mut chain = Blockchain::new();
    assert_eq!(chain.append_transaction(fe(100), fe(5)), Ok(()));
    assert_eq!(
        chain.append_transaction(fe(200), fe(5)),
        Err(AuditError::DuplicateSerialNumber)
    );
    assert_eq!(chain.inner(), vec![(fe(5), fe(100))]);
}

#[test]
fn blockchain_contents_do_not_depend_on_insertion_order() {
    let mut first = Blockchain::new();
    let mut second = Blockchain::default();
    for (sn, root) in [(9u64, 90u64), (2, 20), (5, 50), (7, 70)] {
        first.append_transaction(fe(root), fe(sn)).unwrap();
    }
    for (sn, root) in [(7u64, 70u64), (5, 50), (9, 90), (2, 20)] {
        second.append_transaction(fe(root), fe(sn)).unwrap();
    }
    assert_eq!(first.keys(), vec![fe(2), fe(5), fe(7), fe(9)]);
    assert_eq!(first.values(), vec![fe(20), fe(50), fe(70), fe(90)]);
    assert_eq!(first.inner(), second.inner());
    assert_eq!(first.clone().inner(), first.inner());
    assert_eq!(
        generate_alpha(first.values()).unwrap(),
        generate_alpha(second.values()).unwrap()
    );
}

#[test]
fn transaction_getters_and_leaves() {
    let t = Transaction::new(fe(1000), -3, fe(2), fe(11), fe(42));
    assert_eq!(t.transaction_id(), fe(1000));
    assert_eq!(t.value(), -3);
    assert_eq!(t.sender_address(), Address::new(&fe(2)));
    assert_eq!(t.receiver_address(), Address::new(&fe(11)));
    assert_eq!(t.value_as_field_element(), fe(0xffff_ffff_ffff_fffd));
    let leaves = t.to_vec();
    assert_eq!(
        leaves,
        vec![
            fe(1000),
            fe(0xffff_ffff_ffff_fffd),
            Address::new(&fe(2)).public_key(),
            fe(2),
            Address::new(&fe(11)).public_key(),
            fe(11),
            t.serial_number(),
        ]
    );
}

#[test]
fn transaction_root_is_repeatable() {
    let t = transfer_two_to_eleven(42);
    let same = transfer_two_to_eleven(42);
    let other = transfer_two_to_eleven(43);
    assert_eq!(t.root(), t.root());
    assert_eq!(t.root(), same.root());
    assert_ne!(t.root().unwrap(), other.root().unwrap());
    assert_eq!(
        t.root().unwrap(),
        ducat::merkle::MerkleTreeGadget::create_root_hash(&t.to_vec()).unwrap()
    );
}

#[test]
fn split_sums() {
    let t = Transaction::new(fe(1), 10, fe(2), fe(11), fe(42));
    let receivers = vec![Address::new(&fe(11)), Address::new(&fe(12))];
    let parts = t.split_transaction(vec![3, 7], receivers.clone(), fe(2)).unwrap();
    assert_eq!(parts.len(), 2);
    assert_eq!(parts[0].value(), 3);
    assert_eq!(parts[1].value(), 7);
    assert_eq!(parts[0].value() + parts[1].value(), t.value());
    assert_eq!(parts[0].sender_address(), t.sender_address());
    assert_eq!(parts[1].sender_address(), t.sender_address());
    assert_eq!(parts[0].receiver_address(), receivers[0]);
    assert_eq!(parts[1].receiver_address(), receivers[1]);
    assert_ne!(parts[0].serial_number(), parts[1].serial_number());
    assert_ne!(parts[0].serial_number(), t.serial_number());
    assert_ne!(parts[0].transaction_id(), parts[1].transaction_id());
    assert_eq!(t.value(), 10);
    assert_eq!(
        t.split_transaction(vec![3, 6], receivers, fe(2)),
        Err(AuditError::SplitSumMismatch)
    );
}

#[test]
fn split_with_given_randomness_is_exact() {
    let t = Transaction::new(fe(1), 5, fe(2), fe(11), fe(42));
    let receivers = vec![Address::new(&fe(13)), Address::new(&fe(14)), Address::new(&fe(13))];
    let parts = t
        .split_with(&vec![9, -6, 2], &receivers, &fe(2), &vec![fe(70), fe(71), fe(72)], &vec![
            fe(80),
            fe(81),
            fe(82),
        ])
        .unwrap();
    assert_eq!(parts, vec![
        Transaction::new(fe(70), 9, fe(2), fe(13), fe(80)),
        Transaction::new(fe(71), -6, fe(2), fe(14), fe(81)),
        Transaction::new(fe(72), 2, fe(2), fe(13), fe(82)),
    ]);
    assert_eq!(
        t.split_with(&vec![], &vec![], &fe(2), &vec![], &vec![]),
        Err(AuditError::SplitSumMismatch)
    );
    let nothing = Transaction::new(fe(1), 0, fe(2), fe(11), fe(42));
    assert_eq!(nothing.split_with(&vec![], &vec![], &fe(2), &vec![], &vec![]), Ok(vec![]));
    let large = Transaction::new(fe(1), -2, fe(2), fe(11), fe(42));
    assert_eq!(
        large
            .split_with(
                &vec![i32::MAX, i32::MAX, 0],
                &receivers,
                &fe(2),
                &vec![fe(70), fe(71), fe(72)],
                &vec![fe(80), fe(81), fe(82)]
            )
            .unwrap_err(),
        AuditError::SplitSumMismatch
    );
}

#[test]
fn organization_starts_an_epoch_balanced() {
    let org = org_a();
    assert_eq!(org.identifier(), "A".to_string());
    assert_eq!(org.initial_balance(), 20);
    assert_eq!(org.final_balance(), 20);
    assert_eq!(org.delta(), 0);
    assert_eq!(org.serial_numbers(), vec![]);
    assert_eq!(org.transaction_roots(), vec![]);
    let known = org.known_addresses();
    assert_eq!(known.len(), 5);
    for (i, address) in known.iter().enumerate() {
        assert_eq!(*address, Address::new(&fe(i as u64)));
        assert!(org.has_address(address.public_key()));
    }
    assert!(!org.has_address(Address::new(&fe(5)).public_key()));
    assert!(!org.has_address(fe(0)));
}

#[test]
fn organization_registers_addresses_and_serial_numbers() {
    let mut org = org_a();
    org.add_address_public_key(fe(77));
    assert_eq!(org.known_addresses().len(), 6);
    assert!(org.has_address(Address::new(&fe(77)).public_key()));
    assert_eq!(org.add_serial_number(fe(9)), Ok(()));
    assert!(org.has_serial_number(fe(9)));
    assert!(!org.has_serial_number(fe(8)));
    assert_eq!(org.add_serial_number(fe(9)), Err(AuditError::DuplicateSerialNumber));
    assert_eq!(org.serial_numbers(), vec![fe(9)]);
    org.add_root(fe(3));
    org.add_root(fe(3));
    assert_eq!(org.transaction_roots(), vec![fe(3), fe(3)]);
}

#[test]
fn organization_balance_arithmetic() {
    let mut org = org_a();
    org.update_delta(5);
    org.update_delta(-12);
    assert_eq!(org.delta(), -7);
    org.transfer_delta_to_balance();
    assert_eq!(org.final_balance(), 13);
    assert_eq!(org.final_balance(), org.initial_balance() + org.delta());
    org.update_balance(4);
    assert_eq!(org.final_balance(), 17);
    org.clear_delta();
    assert_eq!(org.delta(), 0);
    assert_eq!(org.final_balance(), 17);
    org.clear_final_balance();
    assert_eq!(org.final_balance(), 0);
    assert_eq!(org.initial_balance(), 20);
}

#[test]
fn clean_is_idempotent() {
    let mut org = org_a();
    org.update_delta(9);
    org.transfer_delta_to_balance();
    org.add_serial_number(fe(1)).unwrap();
    org.clean_deltas_and_balances_at_epoch_end();
    let once = (org.initial_balance(), org.final_balance(), org.delta(), org.serial_numbers());
    org.clean_deltas_and_balances_at_epoch_end();
    let twice = (org.initial_balance(), org.final_balance(), org.delta(), org.serial_numbers());
    assert_eq!(once, twice);
    assert_eq!(once, (20, 0, 0, vec![fe(1)]));
}

#[test]
fn absorb_records_each_owned_side() {
    let t = transfer_two_to_eleven(42);
    let root = t.root().unwrap();
    let mut sender = org_a();
    assert!(sender.is_involved(&t));
    assert_eq!(sender.absorb(&t, root), Ok(()));
    assert_eq!(sender.delta(), -7);
    assert_eq!(sender.serial_numbers(), vec![t.serial_number()]);
    assert_eq!(sender.transaction_roots(), vec![root]);
    assert_eq!(sender.absorb(&t, root), Err(AuditError::DuplicateSerialNumber));
    assert_eq!(sender.delta(), -7);
    assert_eq!(sender.serial_numbers(), vec![t.serial_number()]);
    let mut bystander =
        Organization::new("C".to_string(), 1, Organization::create_known_addresses(3, 100));
    assert!(!bystander.is_involved(&t));
    bystander.add_serial_number(t.serial_number()).unwrap();
    assert_eq!(bystander.absorb(&t, root), Ok(()));
    assert_eq!(bystander.delta(), 0);
    assert_eq!(bystander.transaction_roots(), vec![]);
    assert_eq!(bystander.serial_numbers(), vec![t.serial_number()]);
}

#[test]
fn two_orgs_one_transaction() {
    let mut network = two_org_network();
    assert_eq!(network.organization_count(), 2);
    let t = transfer_two_to_eleven(42);
    let root = t.root().unwrap();
    assert_eq!(network.forward_transaction(t), Ok(()));
    let orgs = network.organizations();
    assert_eq!(orgs[0].delta(), -7);
    assert_eq!(orgs[1].delta(), 7);
    assert_eq!(orgs[0].serial_numbers(), vec![t.serial_number()]);
    assert_eq!(orgs[1].serial_numbers(), vec![t.serial_number()]);
    assert_eq!(orgs[0].transaction_roots(), vec![root]);
    assert_eq!(orgs[1].transaction_roots(), vec![root]);
    assert_eq!(network.blockchain().inner(), vec![(t.serial_number(), root)]);
    network.transfer_delta_to_organization_balance();
    let orgs = network.organizations();
    assert_eq!(orgs[0].final_balance(), 13);
    assert_eq!(orgs[1].final_balance(), 37);
    let reports = vec![both_verified(), both_verified()];
    assert_eq!(network.validate_all_epoch_deltas_and_final_balances(&reports), Ok(()));
    assert_eq!(network.validate_all_assets(&vec![true, true]), Ok(()));
    network.clean_deltas_and_balances_at_epoch_end();
    let orgs = network.organizations();
    assert_eq!((orgs[0].delta(), orgs[0].final_balance()), (0, 0));
    assert_eq!((orgs[1].delta(), orgs[1].final_balance()), (0, 0));
}

#[test]
fn double_spend_rejected() {
    let mut network = two_org_network();
    network.forward_transaction(transfer_two_to_eleven(42)).unwrap();
    let again = Transaction::new(fe(1001), 3, fe(3), fe(12), fe(42));
    assert_eq!(network.forward_transaction(again), Err(AuditError::DuplicateSerialNumber));
    assert_eq!(network.blockchain().len(), 1);
    let orgs = network.organizations();
    assert_eq!(orgs[0].delta(), -7);
    assert_eq!(orgs[1].delta(), 7);
    assert_eq!(orgs[0].serial_numbers().len(), 1);
}

#[test]
fn double_spend_on_the_blockchain_keeps_what_organizations_absorbed() {
    let mut network = Network::new();
    network.forward_transaction(transfer_two_to_eleven(42)).unwrap();
    network.add_organization(org_a());
    let again = Transaction::new(fe(1001), 3, fe(3), fe(12), fe(42));
    assert_eq!(network.forward_transaction(again), Err(AuditError::DuplicateSerialNumber));
    let orgs = network.organizations();
    assert_eq!(orgs[0].delta(), -3);
    assert_eq!(orgs[0].serial_numbers(), vec![again.serial_number()]);
    assert_eq!(network.blockchain().len(), 1);
}

#[test]
fn self_transfer_nets_zero() {
    let mut network = two_org_network();
    let t = Transaction::new(fe(1000), 7, fe(2), fe(4), fe(42));
    let root = t.root().unwrap();
    assert_eq!(network.forward_transaction(t), Ok(()));
    let orgs = network.organizations();
    assert_eq!(orgs[0].delta(), 0);
    assert_eq!(orgs[0].serial_numbers(), vec![t.serial_number(), t.serial_number()]);
    assert_eq!(orgs[0].transaction_roots(), vec![root]);
    assert_eq!(orgs[1].delta(), 0);
    assert_eq!(orgs[1].serial_numbers(), vec![]);
    assert_eq!(orgs[1].transaction_roots(), vec![]);
}

#[test]
fn tampered_holdings_are_a_subset_violation() {
    let mut network = two_org_network();
    network.forward_transaction(transfer_two_to_eleven(42)).unwrap();
    network.transfer_delta_to_organization_balance();
    let keys = network.blockchain().keys();
    let values = network.blockchain().values();
    let mut org = network.organizations()[0].clone();
    assert_eq!(org.validate_components(keys.clone(), values.clone(), true, true), Ok(()));
    org.add_serial_number(fe(123456789)).unwrap();
    assert_eq!(
        org.validate_components(keys.clone(), values.clone(), true, true),
        Err(AuditError::SubsetViolation)
    );
    assert_eq!(
        org.validate_assets(keys.clone(), values.clone(), true),
        Err(AuditError::SubsetViolation)
    );
    let mut other = network.organizations()[1].clone();
    other.add_root(fe(5));
    assert_eq!(
        other.validate_components(keys, values, true, true),
        Err(AuditError::SubsetViolation)
    );
}

#[test]
fn validate_components_needs_both_proofs_and_the_balance() {
    let mut network = two_org_network();
    network.forward_transaction(transfer_two_to_eleven(42)).unwrap();
    let keys = network.blockchain().keys();
    let values = network.blockchain().values();
    let before_transfer = network.organizations()[0].clone();
    assert_eq!(
        before_transfer.validate_components(keys.clone(), values.clone(), true, true),
        Err(AuditError::ProofFailure)
    );
    network.transfer_delta_to_organization_balance();
    let org = network.organizations()[0].clone();
    assert_eq!(org.validate_components(keys.clone(), values.clone(), true, true), Ok(()));
    assert_eq!(
        org.validate_components(keys.clone(), values.clone(), false, true),
        Err(AuditError::ProofFailure)
    );
    assert_eq!(
        org.validate_components(keys.clone(), values.clone(), true, false),
        Err(AuditError::ProofFailure)
    );
    let report = vec![both_verified()];
    assert_eq!(
        network.validate_all_epoch_deltas_and_final_balances(&report),
        Err(AuditError::ProofFailure)
    );
    assert_eq!(network.validate_all_assets(&vec![true]), Err(AuditError::ProofFailure));
    assert_eq!(network.validate_all_assets(&vec![true, true, false]), Ok(()));
    let circuits = network.component_circuits();
    assert_eq!(circuits.len(), 2);
    assert_eq!(circuits[0].0.initial_balance, 20);
    assert_eq!(circuits[0].0.epoch_delta, -7);
    assert_eq!(circuits[0].0.final_balance, 13);
    assert_eq!(circuits[1].1.blockchain_sns, vec![keys[0].low_u64()]);
    assert_eq!(circuits[1].1.blockchain_roots, vec![values[0].low_u64()]);
    assert_eq!(circuits[1].1.spent_serial_numbers, vec![keys[0].low_u64()]);
    assert_eq!(circuits[1].1.transaction_root_cache, vec![values[0].low_u64()]);
}

#[test]
fn validate_assets_without_a_blockchain_has_no_challenge() {
    let mut network = Network::default();
    network.add_organization(org_a());
    assert_eq!(network.validate_all_assets(&vec![true]), Err(AuditError::InvalidMerkleWitness));
    assert_eq!(network.asset_proofs().unwrap_err(), AuditError::InvalidMerkleWitness);
}

#[test]
fn fiat_shamir_stability() {
    let mut first = two_org_network();
    let mut second = two_org_network();
    for nonce in [42u64, 43, 44] {
        first.forward_transaction(transfer_two_to_eleven(nonce)).unwrap();
        second.forward_transaction(transfer_two_to_eleven(nonce)).unwrap();
    }
    let alpha_first = generate_alpha(first.blockchain().values()).unwrap();
    let alpha_second = generate_alpha(second.blockchain().values()).unwrap();
    assert_eq!(alpha_first.to_le_bytes(), alpha_second.to_le_bytes());
    let statements = first.asset_proofs().unwrap();
    assert_eq!(statements.len(), 2);
    assert_eq!(statements[0].alpha, alpha_first);
    assert_eq!(statements[0].expected_occurrence_vector, vec![1, 1, 1]);
    let mut reversed = two_org_network();
    for nonce in [44u64, 43, 42] {
        reversed.forward_transaction(transfer_two_to_eleven(nonce)).unwrap();
    }
    assert_eq!(generate_alpha(reversed.blockchain().values()).unwrap(), alpha_first);
}

#[test]
fn subset_checks_on_lowered_values() {
    assert!(validate_transaction_serial_numbers(vec![1, 2, 3], vec![3, 1, 3]));
    assert!(!validate_transaction_serial_numbers(vec![1, 2, 3], vec![3, 4]));
    assert!(validate_transaction_serial_numbers(vec![], vec![]));
    assert!(!validate_transaction_serial_numbers(vec![], vec![0]));
    assert!(validate_transaction_roots(vec![5, 5, 6], vec![6, 5]));
    assert!(!validate_transaction_roots(vec![5, 5, 6], vec![7]));
    assert!(validate_transaction_roots(vec![5], vec![]));
}

#[test]
fn error_messages() {
    assert_eq!(AuditError::DuplicateSerialNumber.message(), "serial number already spent");
    assert_eq!(
        AuditError::SplitSumMismatch.message(),
        "split values do not sum to the transaction value"
    );
    assert_eq!(AuditError::InvalidMerkleWitness.message(), "merkle inclusion proof rejected");
    assert_eq!(
        AuditError::SubsetViolation.message(),
        "serial numbers or roots missing from the blockchain"
    );
    assert_eq!(AuditError::OccurrenceMismatch.message(), "occurrence vector does not match");
    assert_eq!(AuditError::ProofFailure.message(), "proof failed to verify");
    assert_eq!(AuditError::ConfigError.message(), "run configuration missing or malformed");
}

#[test]
fn cleaning_deltas_alone_carries_the_balance_forward() {
    let mut network = two_org_network();
    network.forward_transaction(transfer_two_to_eleven(42)).unwrap();
    network.transfer_delta_to_organization_balance();
    network.clean_deltas_at_epoch_end();
    let orgs = network.organizations();
    assert_eq!((orgs[0].initial_balance(), orgs[0].delta(), orgs[0].final_balance()), (20, 0, 13));
    assert_eq!((orgs[1].initial_balance(), orgs[1].delta(), orgs[1].final_balance()), (30, 0, 37));
    network.clean_deltas_at_epoch_end();
    let again = network.organizations();
    assert_eq!((again[0].delta(), again[0].final_balance()), (0, 13));
}
