//! Behavioural tests of the token operations on concrete ledgers.

use token_basics::ops::{burn_token, create_account, create_token, mint_token, transfer_token};
use token_basics::state::{Ledger, TokenError};

/// A ledger with one mint (addr 1, authority 10) and two of its accounts
/// (addr 2 owned by 20, addr 3 owned by 30).
fn one_mint_two_accounts() -> Ledger {
    let mut l = Ledger::new();
    assert_eq!(
        create_token(&mut l, 1, 10, String::new(), String::new(), String::new()),
        Ok(())
    );
    assert_eq!(create_account(&mut l, 2, 1, 20), Ok(()));
    assert_eq!(create_account(&mut l, 3, 1, 30), Ok(()));
    l
}

#[test]
fn create_token_initializes_mint() {
    let mut l = Ledger::new();
    let r = create_token(&mut l, 7, 42, String::new(), String::new(), String::new());
    assert_eq!(r, Ok(()));
    let m = l.mint_record(7).unwrap();
    assert_eq!(m.addr, 7);
    assert_eq!(m.authority, 42);
    assert_eq!(m.decimals, 9);
    assert_eq!(m.total_supply, 0);
}

#[test]
fn create_token_rejects_existing_address() {
    let mut l = one_mint_two_accounts();
    let r = create_token(&mut l, 1, 99, String::new(), String::new(), String::new());
    assert_eq!(r, Err(TokenError::AllocationError));
    // the existing mint is untouched
    assert_eq!(l.mint_record(1).unwrap().authority, 10);
}

#[test]
fn create_account_initializes_empty_account() {
    let l = one_mint_two_accounts();
    let a = l.account_record(2).unwrap();
    assert_eq!(a.mint, 1);
    assert_eq!(a.owner, 20);
    assert_eq!(a.balance, 0);
}

#[test]
fn create_account_rejects_existing_address() {
    let mut l = one_mint_two_accounts();
    assert_eq!(
        create_account(&mut l, 2, 1, 99),
        Err(TokenError::AllocationError)
    );
    assert_eq!(l.account_record(2).unwrap().owner, 20);
}

#[test]
fn create_account_rejects_missing_mint() {
    let mut l = one_mint_two_accounts();
    assert_eq!(
        create_account(&mut l, 9, 5, 20),
        Err(TokenError::InvalidRecordError)
    );
    assert_eq!(l.account_record(9), None);
}

#[test]
fn mint_by_authority_raises_balance_and_supply() {
    let mut l = one_mint_two_accounts();
    assert_eq!(mint_token(&mut l, 1, 2, 10, 1000), Ok(()));
    assert_eq!(l.balance_of(2), Some(1000));
    assert_eq!(l.balance_of(3), Some(0));
    assert_eq!(l.supply_of(1), Some(1000));
}

#[test]
fn mint_by_non_authority_fails_and_changes_nothing() {
    let mut l = one_mint_two_accounts();
    assert_eq!(mint_token(&mut l, 1, 2, 10, 500), Ok(()));
    // signer 20 is the account owner, not the mint authority
    assert_eq!(
        mint_token(&mut l, 1, 2, 20, 77),
        Err(TokenError::AuthorizationError)
    );
    assert_eq!(l.balance_of(2), Some(500));
    assert_eq!(l.balance_of(3), Some(0));
    assert_eq!(l.supply_of(1), Some(500));
}

#[test]
fn mint_zero_is_a_successful_noop() {
    let mut l = one_mint_two_accounts();
    assert_eq!(mint_token(&mut l, 1, 2, 10, 250), Ok(()));
    assert_eq!(mint_token(&mut l, 1, 2, 10, 0), Ok(()));
    assert_eq!(l.balance_of(2), Some(250));
    assert_eq!(l.balance_of(3), Some(0));
    assert_eq!(l.supply_of(1), Some(250));
}

#[test]
fn mint_rejects_missing_records_and_wrong_mint() {
    let mut l = one_mint_two_accounts();
    assert_eq!(
        create_token(&mut l, 4, 11, String::new(), String::new(), String::new()),
        Ok(())
    );
    // missing mint
    assert_eq!(
        mint_token(&mut l, 9, 2, 10, 5),
        Err(TokenError::InvalidRecordError)
    );
    // missing destination account
    assert_eq!(
        mint_token(&mut l, 1, 9, 10, 5),
        Err(TokenError::InvalidRecordError)
    );
    // destination account belongs to mint 1, not mint 4
    assert_eq!(
        mint_token(&mut l, 4, 2, 11, 5),
        Err(TokenError::InvalidRecordError)
    );
    assert_eq!(l.balance_of(2), Some(0));
    assert_eq!(l.supply_of(1), Some(0));
    assert_eq!(l.supply_of(4), Some(0));
}

#[test]
fn mint_overflowing_supply_fails_and_changes_nothing() {
    let mut l = one_mint_two_accounts();
    assert_eq!(mint_token(&mut l, 1, 2, 10, u64::MAX), Ok(()));
    assert_eq!(
        mint_token(&mut l, 1, 3, 10, 1),
        Err(TokenError::ArithmeticOverflowError)
    );
    assert_eq!(l.balance_of(2), Some(u64::MAX));
    assert_eq!(l.balance_of(3), Some(0));
    assert_eq!(l.supply_of(1), Some(u64::MAX));
}

#[test]
fn burn_by_owner_lowers_balance_and_supply() {
    let mut l = one_mint_two_accounts();
    assert_eq!(mint_token(&mut l, 1, 2, 10, 1000), Ok(()));
    assert_eq!(burn_token(&mut l, 1, 2, 20, 300), Ok(()));
    assert_eq!(l.balance_of(2), Some(700));
    assert_eq!(l.supply_of(1), Some(700));
}

#[test]
fn burn_above_balance_fails_and_changes_nothing() {
    let mut l = one_mint_two_accounts();
    assert_eq!(mint_token(&mut l, 1, 2, 10, 100), Ok(()));
    assert_eq!(
        burn_token(&mut l, 1, 2, 20, 101),
        Err(TokenError::InsufficientBalanceError)
    );
    assert_eq!(l.balance_of(2), Some(100));
    assert_eq!(l.supply_of(1), Some(100));
}

#[test]
fn burn_by_non_owner_fails() {
    let mut l = one_mint_two_accounts();
    assert_eq!(mint_token(&mut l, 1, 2, 10, 100), Ok(()));
    // the mint authority may not burn a holder's balance
    assert_eq!(
        burn_token(&mut l, 1, 2, 10, 50),
        Err(TokenError::AuthorizationError)
    );
    assert_eq!(l.balance_of(2), Some(100));
    assert_eq!(l.supply_of(1), Some(100));
}

#[test]
fn burn_rejects_account_of_other_mint() {
    let mut l = one_mint_two_accounts();
    assert_eq!(
        create_token(&mut l, 4, 11, String::new(), String::new(), String::new()),
        Ok(())
    );
    assert_eq!(
        burn_token(&mut l, 4, 2, 20, 1),
        Err(TokenError::InvalidRecordError)
    );
}

#[test]
fn transfer_moves_balance_and_keeps_supply() {
    let mut l = one_mint_two_accounts();
    assert_eq!(mint_token(&mut l, 1, 2, 10, 1000), Ok(()));
    assert_eq!(transfer_token(&mut l, 2, 3, 20, 400), Ok(()));
    assert_eq!(l.balance_of(2), Some(600));
    assert_eq!(l.balance_of(3), Some(400));
    assert_eq!(l.supply_of(1), Some(1000));
}

#[test]
fn transfer_across_mints_fails_and_changes_nothing() {
    let mut l = one_mint_two_accounts();
    assert_eq!(
        create_token(&mut l, 4, 11, String::new(), String::new(), String::new()),
        Ok(())
    );
    assert_eq!(create_account(&mut l, 5, 4, 50), Ok(()));
    assert_eq!(mint_token(&mut l, 1, 2, 10, 800), Ok(()));
    assert_eq!(
        transfer_token(&mut l, 2, 5, 20, 100),
        Err(TokenError::InvalidRecordError)
    );
    assert_eq!(l.balance_of(2), Some(800));
    assert_eq!(l.balance_of(5), Some(0));
    assert_eq!(l.supply_of(1), Some(800));
    assert_eq!(l.supply_of(4), Some(0));
}

#[test]
fn transfer_above_balance_fails() {
    let mut l = one_mint_two_accounts();
    assert_eq!(mint_token(&mut l, 1, 2, 10, 10), Ok(()));
    assert_eq!(
        transfer_token(&mut l, 2, 3, 20, 11),
        Err(TokenError::InsufficientBalanceError)
    );
    assert_eq!(l.balance_of(2), Some(10));
    assert_eq!(l.balance_of(3), Some(0));
}

#[test]
fn transfer_by_non_owner_fails() {
    let mut l = one_mint_two_accounts();
    assert_eq!(mint_token(&mut l, 1, 2, 10, 10), Ok(()));
    // signer 30 owns the destination, not the source
    assert_eq!(
        transfer_token(&mut l, 2, 3, 30, 5),
        Err(TokenError::AuthorizationError)
    );
    assert_eq!(l.balance_of(2), Some(10));
    assert_eq!(l.balance_of(3), Some(0));
}

#[test]
fn transfer_to_missing_account_fails() {
    let mut l = one_mint_two_accounts();
    assert_eq!(mint_token(&mut l, 1, 2, 10, 10), Ok(()));
    assert_eq!(
        transfer_token(&mut l, 2, 9, 20, 5),
        Err(TokenError::InvalidRecordError)
    );
    assert_eq!(l.balance_of(2), Some(10));
}

#[test]
fn self_transfer_is_a_balanced_noop() {
    let mut l = one_mint_two_accounts();
    assert_eq!(mint_token(&mut l, 1, 2, 10, 10), Ok(()));
    assert_eq!(transfer_token(&mut l, 2, 2, 20, 4), Ok(()));
    assert_eq!(l.balance_of(2), Some(10));
    assert_eq!(l.supply_of(1), Some(10));
}

#[test]
fn round_trip_matches_literal_values() {
    let mut l = Ledger::new();
    assert_eq!(
        create_token(&mut l, 1, 10, String::new(), String::new(), String::new()),
        Ok(())
    );
    assert_eq!(create_account(&mut l, 2, 1, 20), Ok(()));
    assert_eq!(create_account(&mut l, 3, 1, 30), Ok(()));
    assert_eq!(mint_token(&mut l, 1, 2, 10, 1000), Ok(()));
    assert_eq!(l.balance_of(2), Some(1000));
    assert_eq!(l.supply_of(1), Some(1000));
    assert_eq!(transfer_token(&mut l, 2, 3, 20, 400), Ok(()));
    assert_eq!(l.balance_of(2), Some(600));
    assert_eq!(l.balance_of(3), Some(400));
    assert_eq!(l.supply_of(1), Some(1000));
    assert_eq!(burn_token(&mut l, 1, 2, 20, 600), Ok(()));
    assert_eq!(l.balance_of(2), Some(0));
    assert_eq!(l.balance_of(3), Some(400));
    assert_eq!(l.supply_of(1), Some(400));
}

#[test]
fn supply_stays_equal_to_sum_of_balances() {
    let mut l = one_mint_two_accounts();
    assert_eq!(mint_token(&mut l, 1, 2, 10, 900), Ok(()));
    assert_eq!(mint_token(&mut l, 1, 3, 10, 100), Ok(()));
    assert_eq!(transfer_token(&mut l, 2, 3, 20, 250), Ok(()));
    assert_eq!(burn_token(&mut l, 1, 3, 30, 50), Ok(()));
    let sum = l.balance_of(2).unwrap() + l.balance_of(3).unwrap();
    assert_eq!(l.supply_of(1), Some(sum));
    assert_eq!(sum, 950);
}
