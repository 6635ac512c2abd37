use nearswap::token::{Contract, TokenError};

fn s(x: &str) -> String {
    x.to_string()
}

#[test]
fn test_basics() {
    let mut contract = Contract::new();
    contract.ft_mint(&s("alice"), 1_000_000, None);
    assert_eq!(contract.ft_balance_of(&s("alice")), 1_000_000);

    contract.register_account(&s("bob"));
    contract
        .ft_transfer(&s("alice"), &s("bob"), 1_000)
        .expect("transfer between registered accounts should go through");
    assert_eq!(contract.ft_balance_of(&s("bob")), 1_000);

    contract
        .ft_burn(&s("bob"), 500)
        .expect("burning half the balance should go through");
    assert_eq!(contract.ft_balance_of(&s("bob")), 500);
}

#[test]
fn supply_follows_mint_burn_and_not_transfer() {
    let mut contract = Contract::new();
    assert_eq!(contract.ft_total_supply(), 0);
    contract.ft_mint(&s("alice"), 1_000, None);
    contract.ft_mint(&s("alice"), 250, Some(s("more")));
    assert_eq!(contract.ft_total_supply(), 1_250);
    assert_eq!(contract.ft_balance_of(&s("alice")), 1_250);

    contract.register_account(&s("bob"));
    contract.ft_transfer(&s("alice"), &s("bob"), 200).unwrap();
    assert_eq!(contract.ft_total_supply(), 1_250);

    contract.ft_burn(&s("bob"), 150).unwrap();
    assert_eq!(contract.ft_total_supply(), 1_100);
    assert_eq!(contract.ft_balance_of(&s("bob")), 50);
}

#[test]
fn metadata_is_fixed() {
    let contract = Contract::new();
    let m = contract.ft_metadata();
    assert_eq!(m.spec, "v0.1.0");
    assert_eq!(m.name, "test token");
    assert_eq!(m.symbol, "afi-tt");
    assert!(m.icon.is_none());
    assert!(m.reference.is_none());
    assert!(m.reference_hash.is_none());
    assert_eq!(m.decimals, 24);
}

#[test]
fn token_failures_change_nothing() {
    let mut contract = Contract::new();
    contract.ft_mint(&s("alice"), 100, None);

    assert_eq!(
        contract.ft_burn(&s("ghost"), 1).unwrap_err(),
        TokenError::AccountNotRegistered
    );
    assert_eq!(
        contract.ft_burn(&s("alice"), 101).unwrap_err(),
        TokenError::InsufficientBalance
    );
    assert_eq!(
        contract.ft_transfer(&s("alice"), &s("ghost"), 1).unwrap_err(),
        TokenError::AccountNotRegistered
    );
    contract.register_account(&s("bob"));
    assert_eq!(
        contract.ft_transfer(&s("alice"), &s("bob"), 101).unwrap_err(),
        TokenError::InsufficientBalance
    );
    assert_eq!(contract.ft_balance_of(&s("alice")), 100);
    assert_eq!(contract.ft_balance_of(&s("bob")), 0);
    assert_eq!(contract.ft_total_supply(), 100);

    // registering twice is harmless.
    contract.register_account(&s("bob"));
    assert_eq!(contract.ft_balance_of(&s("bob")), 0);
}
