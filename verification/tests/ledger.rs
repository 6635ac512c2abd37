use nearswap::deposit::{AccountDeposit, NearSwap, TokenTransferMode};
use nearswap::errors::LedgerError;

fn s(x: &str) -> String {
    x.to_string()
}

#[test]
fn native_withdrawal_retains_storage_funding() {
    // storage_used = 5, storage_unit_price = 2, native_balance = 100:
    // a withdrawal of 89 succeeds and leaves 11 >= 10.
    let mut swap = NearSwap::new();
    swap.register_account(&s("alice"), 100, 5);
    let r = swap.withdraw_near_deposit(&s("alice"), 89, None, 2);
    let t = r.expect("withdrawal of 89 should be accepted");
    assert_eq!(t.amount, 89);
    assert_eq!(t.recipient, "alice");
    let d = swap.get_deposit(&s("alice")).unwrap();
    assert_eq!(d.near, 11);

    // a withdrawal of 91 fails and leaves the balance unchanged.
    let mut swap = NearSwap::new();
    swap.register_account(&s("alice"), 100, 5);
    let r = swap.withdraw_near_deposit(&s("alice"), 91, None, 2);
    assert_eq!(r.unwrap_err(), LedgerError::InsufficientNativeBalance);
    let d = swap.get_deposit(&s("alice")).unwrap();
    assert_eq!(d.near, 100);
}

#[test]
fn native_withdrawal_boundary_is_exact() {
    // 99 = 89 + 5 * 2 exactly: the check passes with nothing to spare.
    let mut swap = NearSwap::new();
    swap.register_account(&s("alice"), 99, 5);
    let r = swap.withdraw_near_deposit(&s("alice"), 89, None, 2);
    assert!(r.is_ok());
    assert_eq!(swap.get_deposit(&s("alice")).unwrap().near, 10);

    // one unit more and the request is refused.
    let mut swap = NearSwap::new();
    swap.register_account(&s("alice"), 99, 5);
    let r = swap.withdraw_near_deposit(&s("alice"), 90, None, 2);
    assert_eq!(r.unwrap_err(), LedgerError::InsufficientNativeBalance);
}

#[test]
fn deposit_notifications_accumulate_in_any_order() {
    // credits of 100 and 50 of tokenA land as 150 regardless of order.
    let msg = s("");
    let mut swap = NearSwap::new();
    swap.register_account(&s("alice"), 10, 0);
    assert_eq!(swap.ft_on_transfer(&s("tokenA"), &s("alice"), 100, &msg), Ok(0));
    assert_eq!(swap.ft_on_transfer(&s("tokenA"), &s("alice"), 50, &msg), Ok(0));
    let d = swap.get_deposit(&s("alice")).unwrap();
    assert_eq!(d.token_balance(&s("tokenA")), 150);

    let mut swap = NearSwap::new();
    swap.register_account(&s("alice"), 10, 0);
    assert_eq!(swap.ft_on_transfer(&s("tokenA"), &s("alice"), 50, &msg), Ok(0));
    assert_eq!(swap.ft_on_transfer(&s("tokenA"), &s("alice"), 100, &msg), Ok(0));
    let d = swap.get_deposit(&s("alice")).unwrap();
    assert_eq!(d.token_balance(&s("tokenA")), 150);
}

#[test]
fn credit_then_debit_restores_balance() {
    // crediting tokenA by 70 and debiting 70 returns the prior balance.
    let mut d = AccountDeposit::new(0, 0);
    d.add(&s("tokenA"), 30);
    d.add(&s("tokenA"), 70);
    assert_eq!(d.token_balance(&s("tokenA")), 100);
    assert_eq!(d.remove(&s("tokenA"), 70), Ok(()));
    assert_eq!(d.token_balance(&s("tokenA")), 30);
    assert_eq!(d.near, 0);
}

#[test]
fn debit_shortfall_leaves_record_unchanged() {
    // debiting more than the balance fails and mutates nothing.
    let mut d = AccountDeposit::new(5, 1);
    d.add(&s("tokenA"), 100);
    let r = d.remove(&s("tokenA"), 150);
    assert_eq!(r.unwrap_err(), LedgerError::InsufficientAssetBalance);
    assert_eq!(d.token_balance(&s("tokenA")), 100);
    assert_eq!(d.near, 5);

    // debiting an asset never deposited fails too, even by zero.
    let r = d.remove(&s("tokenB"), 0);
    assert_eq!(r.unwrap_err(), LedgerError::InsufficientAssetBalance);
    assert_eq!(d.token_balance(&s("tokenB")), 0);
}

#[test]
fn unregistered_account_is_rejected_everywhere() {
    // every operation on an account with no record signals the failure and
    // mutates nothing.
    let mut swap = NearSwap::new();
    assert_eq!(
        swap.get_deposit(&s("ghost")).unwrap_err(),
        LedgerError::AccountNotRegistered
    );
    assert_eq!(
        swap.deposit_near(&s("ghost"), 10).unwrap_err(),
        LedgerError::AccountNotRegistered
    );
    assert_eq!(
        swap.ft_on_transfer(&s("tokenA"), &s("ghost"), 10, &s("")).unwrap_err(),
        LedgerError::AccountNotRegistered
    );
    assert_eq!(
        swap.withdraw_near_deposit(&s("ghost"), 1, None, 1).unwrap_err(),
        LedgerError::AccountNotRegistered
    );
    assert_eq!(
        swap.withdraw_token_deposit(&s("ghost"), &s("tokenA"), 1, None, TokenTransferMode::Simple, 1)
            .unwrap_err(),
        LedgerError::AccountNotRegistered
    );
    assert_eq!(
        swap.get_deposit(&s("ghost")).unwrap_err(),
        LedgerError::AccountNotRegistered
    );
}

#[test]
fn token_withdrawal_is_atomic_under_storage_shortfall() {
    // the record is storage-underfunded (5 < 5 * 2): an asset withdrawal
    // must leave both the asset balance and the native balance unchanged.
    let msg = s("");
    let mut swap = NearSwap::new();
    swap.register_account(&s("alice"), 5, 5);
    assert_eq!(swap.ft_on_transfer(&s("tokenA"), &s("alice"), 100, &msg), Ok(0));
    let r = swap.withdraw_token_deposit(
        &s("alice"),
        &s("tokenA"),
        40,
        None,
        TokenTransferMode::Simple,
        2,
    );
    assert_eq!(r.unwrap_err(), LedgerError::StorageUnderfunded);
    let d = swap.get_deposit(&s("alice")).unwrap();
    assert_eq!(d.token_balance(&s("tokenA")), 100);
    assert_eq!(d.near, 5);
}

#[test]
fn token_withdrawal_debits_and_describes_transfer() {
    let msg = s("");
    let mut swap = NearSwap::new();
    swap.register_account(&s("alice"), 100, 5);
    assert_eq!(swap.ft_on_transfer(&s("tokenA"), &s("alice"), 100, &msg), Ok(0));

    let r = swap.withdraw_token_deposit(
        &s("alice"),
        &s("tokenA"),
        30,
        Some(s("bob")),
        TokenTransferMode::Simple,
        2,
    );
    let t = r.expect("a funded withdrawal should be accepted");
    assert_eq!(t.token, "tokenA");
    assert_eq!(t.recipient, "bob");
    assert_eq!(t.amount, 30);
    assert!(matches!(t.mode, TokenTransferMode::Simple));
    let d = swap.get_deposit(&s("alice")).unwrap();
    assert_eq!(d.token_balance(&s("tokenA")), 70);
    assert_eq!(d.near, 100);

    // the instruction-carrying mode travels with the request, and the
    // recipient defaults to the caller.
    let r = swap.withdraw_token_deposit(
        &s("alice"),
        &s("tokenA"),
        70,
        None,
        TokenTransferMode::WithInstruction(s("act")),
        2,
    );
    let t = r.unwrap();
    assert_eq!(t.recipient, "alice");
    match t.mode {
        TokenTransferMode::WithInstruction(m) => assert_eq!(m, "act"),
        TokenTransferMode::Simple => panic!("expected the instruction-carrying mode"),
    }
    let d = swap.get_deposit(&s("alice")).unwrap();
    assert_eq!(d.token_balance(&s("tokenA")), 0);

    // a further withdrawal finds the balance at zero, not absent-and-lost.
    let r = swap.withdraw_token_deposit(
        &s("alice"),
        &s("tokenA"),
        1,
        None,
        TokenTransferMode::Simple,
        2,
    );
    assert_eq!(r.unwrap_err(), LedgerError::InsufficientAssetBalance);
}

#[test]
fn native_deposit_credits_caller() {
    let mut swap = NearSwap::new();
    swap.register_account(&s("alice"), 40, 5);
    assert_eq!(swap.deposit_near(&s("alice"), 60), Ok(()));
    let d = swap.get_deposit(&s("alice")).unwrap();
    assert_eq!(d.near, 100);
    assert_eq!(d.storage_used, 5);
}

#[test]
fn registration_replaces_prior_record() {
    let msg = s("");
    let mut swap = NearSwap::new();
    swap.register_account(&s("alice"), 40, 5);
    assert_eq!(swap.ft_on_transfer(&s("tokenA"), &s("alice"), 7, &msg), Ok(0));
    swap.register_account(&s("alice"), 9, 3);
    let d = swap.get_deposit(&s("alice")).unwrap();
    assert_eq!(d.near, 9);
    assert_eq!(d.storage_used, 3);
    assert_eq!(d.token_balance(&s("tokenA")), 0);
}

#[test]
fn solvency_holds_after_each_committed_operation() {
    // a registered, solvent account stays solvent through a sequence of
    // deposits and withdrawals at storage_unit_price = 2, storage_used = 5.
    let price: u128 = 2;
    let cost: u128 = 10;
    let msg = s("");
    let mut swap = NearSwap::new();
    swap.register_account(&s("alice"), 25, 5);
    let solvent = |swap: &NearSwap| swap.get_deposit(&s("alice")).unwrap().near >= cost;
    assert!(solvent(&swap));

    assert_eq!(swap.deposit_near(&s("alice"), 30), Ok(()));
    assert!(solvent(&swap));

    assert_eq!(swap.ft_on_transfer(&s("tokenA"), &s("alice"), 80, &msg), Ok(0));
    assert!(solvent(&swap));

    swap.withdraw_token_deposit(&s("alice"), &s("tokenA"), 80, None, TokenTransferMode::Simple, price)
        .unwrap();
    assert!(solvent(&swap));

    swap.withdraw_near_deposit(&s("alice"), 45, None, price).unwrap();
    assert!(solvent(&swap));
    assert_eq!(swap.get_deposit(&s("alice")).unwrap().near, 10);

    // the next withdrawal would break solvency and is refused.
    assert_eq!(
        swap.withdraw_near_deposit(&s("alice"), 1, None, price).unwrap_err(),
        LedgerError::InsufficientNativeBalance
    );
    assert!(solvent(&swap));
}

#[test]
fn record_guards_report_exactly() {
    let d = AccountDeposit::new(100, 5);
    assert_eq!(d.assert_storage(2), Ok(()));
    assert_eq!(d.assert_storage(20), Ok(()));
    assert_eq!(
        d.assert_storage(21).unwrap_err(),
        LedgerError::StorageUnderfunded
    );
    assert_eq!(d.assert_near(90, 2), Ok(()));
    assert_eq!(
        d.assert_near(91, 2).unwrap_err(),
        LedgerError::InsufficientNativeBalance
    );
    // the guard computes with full precision even when the storage cost
    // overflows the machine word.
    assert_eq!(
        d.assert_near(1, u128::MAX).unwrap_err(),
        LedgerError::InsufficientNativeBalance
    );
    assert_eq!(
        d.assert_storage(u128::MAX).unwrap_err(),
        LedgerError::StorageUnderfunded
    );
    assert!(d.can_debit(&s("tokenA"), 0) == false);
}
