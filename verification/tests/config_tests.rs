use ducat::run_config::RunConfig;

#[test]
fn test_config() {
    let config = RunConfig { org_count: 2, transaction_count: 10, addresses_per_organization: 5 };
    println!("Org Count: {}", config.org_count);
    println!("Transaction Count: {}", config.transaction_count);
    println!("Addresses per Organization: {}", config.addresses_per_organization);
    assert_eq!(config, RunConfig { org_count: 2, transaction_count: 10, addresses_per_organization: 5 });
}
