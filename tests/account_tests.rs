use crab_cash::{Account, AccountOperationError, Amount};

#[test]
fn test_that_a_bigger_amount_than_what_is_available_cannot_be_withdrawn() {
    let mut account = Account::new(0);

    // Make Deposit
    let _ = account.deposit(0, Amount::from_str("100.0").unwrap());

    // Withdraw all
    let _ = account.withdraw(1, Amount::from_str("100.0").unwrap());

    // Verify client 1: deposit 100.0 + withdrawal 100.0 = 0.0
    assert_eq!(account.amount_available, Amount::new());
    assert_eq!(account.amount_held, Amount::new());
    assert!(!account.is_locked);

    // Try to withdraw more and check that is ignored
    let err = account.withdraw(2, Amount::from_str("50.0").unwrap());
    assert!(err.is_err());
    let err = err.unwrap_err();
    assert!(matches!(
        err,
        AccountOperationError::WithdrawalLimitExceeded(_)
    ));

    assert_eq!(account.amount_available, Amount::new());
    assert_eq!(account.amount_held, Amount::new());
    assert!(!account.is_locked);
}

#[test]
fn test_that_dispute_can_be_resolved() {
    let mut account = Account::new(0);

    // Make a deposit
    let _ = account.deposit(0, Amount::from_str("100.0").unwrap());

    // Dispute the deposit
    let _ = account.dispute(0);

    // Verify that the deposit is under dispute
    let deposit = account.tx.get(&0).unwrap();
    assert!(deposit.is_disputed);
    assert_eq!(account.amount_held, Amount::from_str("100.0").unwrap());
    assert_eq!(account.amount_available, Amount::new());

    // Then resolve
    let _ = account.resolve(0);

    // Verify that now the account is not locked and amount back to 100.0
    assert!(!account.is_locked);
    assert_eq!(account.amount_held, Amount::new());
    assert_eq!(account.amount_available, Amount::from_str("100.0").unwrap());

    // Try adding another deposit
    let _ = account.deposit(1, Amount::from_str("200.0").unwrap());

    // Verify client 1: deposit 100.0 + dispute + chargeback + deposit 200.0 = 0.0
    assert_eq!(account.amount_available, Amount::from_str("300.0").unwrap());
    assert_eq!(account.amount_held, Amount::new());
    assert!(!account.is_locked);
}

#[test]
fn test_that_account_is_locked_after_chargeback() {
    let mut account = Account::new(0);

    // First make a deposit
    let _ = account.deposit(0, Amount::from_str("100.0").unwrap());

    // Then dispute the deposit
    let _ = account.dispute(0);

    // Verify that the deposit is under dispute
    let disputed_tx = account.tx.get(&0).unwrap();
    assert!(disputed_tx.is_disputed);

    // Then chargeback
    let _ = account.chargeback(0);

    // Verify that now the account is locked
    assert!(account.is_locked);

    // Try adding another deposit
    let err = account.deposit(1, Amount::from_str("200.0").unwrap());
    assert!(err.is_err());
    let err = err.unwrap_err();
    assert!(matches!(err, AccountOperationError::AccountLocked(_)));

    // Verify client 1: deposit 100.0 + dispute + chargeback + deposit 200.0 = 0.0
    assert_eq!(account.amount_available, Amount::new());
    assert_eq!(account.amount_held, Amount::new());
    assert!(account.is_locked);
}

#[test]
fn test_that_dispute_on_withdrawhal_are_ignored() {
    let mut account = Account::new(0);

    // Make a deposit
    let _ = account.deposit(0, Amount::from_str("100.0").unwrap());

    // Withdraw
    let _ = account.withdraw(1, Amount::from_str("50.0").unwrap());

    // Try dispute the withdrawal
    let err = account.dispute(1);
    assert!(err.is_err());
    let err = err.unwrap_err();
    assert!(matches!(
        err,
        AccountOperationError::InvalidWithdrawalDispute(_)
    ));

    // Verify that the deposit is under dispute
    let withdrawal = account.tx.get(&1).unwrap();
    assert!(!withdrawal.is_disputed);
    assert_eq!(account.amount_held, Amount::new());
    assert_eq!(account.amount_available, Amount::from_str("50.0").unwrap());

    // Verify client 1: deposit 100.0 + withdrawal 50.0 + try dispute the withdrawal = 50.0
    assert_eq!(account.amount_available, Amount::from_str("50.0").unwrap());
    assert_eq!(account.amount_held, Amount::new());
    assert!(!account.is_locked);
}

#[test]
fn test_that_deposit_with_same_tx_id_is_rejected() {
    let mut account = Account::new(0);

    // First deposit
    let res = account.deposit(0, Amount::from_str("100.0").unwrap());
    assert!(res.is_ok());

    // Second deposit with same tx id
    let err = account.deposit(0, Amount::from_str("50.0").unwrap());
    assert!(err.is_err());
    let err = err.unwrap_err();
    assert!(matches!(err, AccountOperationError::TxAlreadyExist(0)));

    // Verify that only first deposit is applied
    assert_eq!(account.amount_available, Amount::from_str("100.0").unwrap());
    assert_eq!(account.amount_held, Amount::new());
    assert!(!account.is_locked);
}

#[test]
fn test_that_withdraw_with_same_tx_id_is_rejected() {
    let mut account = Account::new(0);

    // Deposit then withdraw
    let _ = account.deposit(0, Amount::from_str("100.0").unwrap());
    let res = account.withdraw(1, Amount::from_str("50.0").unwrap());
    assert!(res.is_ok());

    // Second withdraw with same tx id
    let err = account.withdraw(1, Amount::from_str("10.0").unwrap());
    assert!(err.is_err());
    let err = err.unwrap_err();
    assert!(matches!(err, AccountOperationError::TxAlreadyExist(1)));

    // Verify that only first withdraw is applied
    assert_eq!(account.amount_available, Amount::from_str("50.0").unwrap());
    assert_eq!(account.amount_held, Amount::new());
    assert!(!account.is_locked);
}

#[test]
fn test_that_dispute_on_unknown_tx_is_rejected() {
    let mut account = Account::new(0);

    // No tx with id 42
    let err = account.dispute(42);
    assert!(err.is_err());
    let err = err.unwrap_err();
    assert!(matches!(err, AccountOperationError::TxUnknown(42)));

    assert_eq!(account.amount_available, Amount::new());
    assert_eq!(account.amount_held, Amount::new());
    assert!(!account.is_locked);
}

#[test]
fn test_that_dispute_cannot_be_raised_twice() {
    let mut account = Account::new(0);

    // Make a deposit and dispute it
    let _ = account.deposit(0, Amount::from_str("100.0").unwrap());
    let _ = account.dispute(0);

    let disputed_tx = account.tx.get(&0).unwrap();
    assert!(disputed_tx.is_disputed);
    assert_eq!(account.amount_available, Amount::new());
    assert_eq!(account.amount_held, Amount::from_str("100.0").unwrap());

    // Disputing again should fail
    let err = account.dispute(0);
    assert!(err.is_err());
    let err = err.unwrap_err();
    assert!(matches!(err, AccountOperationError::TxAlreadyDisputed(0)));

    // State unchanged
    assert_eq!(account.amount_available, Amount::new());
    assert_eq!(account.amount_held, Amount::from_str("100.0").unwrap());
    assert!(!account.is_locked);
}

#[test]
fn test_that_resolve_on_unknown_tx_is_rejected() {
    let mut account = Account::new(0);

    // No tx with id 42
    let err = account.resolve(42);
    assert!(err.is_err());
    let err = err.unwrap_err();
    assert!(matches!(err, AccountOperationError::TxUnknown(42)));

    assert_eq!(account.amount_available, Amount::new());
    assert_eq!(account.amount_held, Amount::new());
    assert!(!account.is_locked);
}

#[test]
fn test_that_resolve_on_not_disputed_tx_is_rejected() {
    let mut account = Account::new(0);

    // Deposit but do not dispute
    let _ = account.deposit(0, Amount::from_str("100.0").unwrap());

    let err = account.resolve(0);
    assert!(err.is_err());
    let err = err.unwrap_err();
    assert!(matches!(err, AccountOperationError::TxNotDisputed(0)));

    // State unchanged
    assert_eq!(account.amount_available, Amount::from_str("100.0").unwrap());
    assert_eq!(account.amount_held, Amount::new());
    assert!(!account.is_locked);
}

#[test]
fn test_that_resolve_on_withdrawal_is_rejected() {
    let mut account = Account::new(0);

    // Deposit then withdraw
    let _ = account.deposit(0, Amount::from_str("100.0").unwrap());
    let _ = account.withdraw(1, Amount::from_str("50.0").unwrap());
    let _ = account.dispute(1);

    let err = account.resolve(1);
    assert!(err.is_err());
    let err = err.unwrap_err();
    assert!(matches!(err, AccountOperationError::TxNotDisputed(1)));

    // State unchanged
    assert_eq!(account.amount_available, Amount::from_str("50.0").unwrap());
    assert_eq!(account.amount_held, Amount::new());
    assert!(!account.is_locked);
}

#[test]
fn test_that_chargeback_on_unknown_tx_is_rejected() {
    let mut account = Account::new(0);

    let err = account.chargeback(42);
    assert!(err.is_err());
    let err = err.unwrap_err();
    assert!(matches!(err, AccountOperationError::TxUnknown(42)));

    assert_eq!(account.amount_available, Amount::new());
    assert_eq!(account.amount_held, Amount::new());
    assert!(!account.is_locked);
}

#[test]
fn test_that_chargeback_on_not_disputed_tx_is_rejected() {
    let mut account = Account::new(0);

    // Deposit but do not dispute
    let _ = account.deposit(0, Amount::from_str("100.0").unwrap());

    let err = account.chargeback(0);
    assert!(err.is_err());
    let err = err.unwrap_err();
    assert!(matches!(err, AccountOperationError::TxNotDisputed(0)));

    // State unchanged and account not locked
    assert_eq!(account.amount_available, Amount::from_str("100.0").unwrap());
    assert_eq!(account.amount_held, Amount::new());
    assert!(!account.is_locked);
}

#[test]
fn test_that_chargeback_on_withdrawal_is_rejected() {
    let mut account = Account::new(0);

    // Deposit then withdraw
    let _ = account.deposit(0, Amount::from_str("100.0").unwrap());
    let _ = account.withdraw(1, Amount::from_str("50.0").unwrap());
    let _ = account.dispute(1);

    let err = account.chargeback(1);
    assert!(err.is_err());
    let err = err.unwrap_err();
    assert!(matches!(err, AccountOperationError::TxNotDisputed(1)));

    // State unchanged and account not locked
    assert_eq!(account.amount_available, Amount::from_str("50.0").unwrap());
    assert_eq!(account.amount_held, Amount::new());
    assert!(!account.is_locked);
}

#[test]
fn test_that_operations_on_locked_account_are_rejected() {
    let mut account = Account::new(0);

    // Setup: deposit, dispute, then chargeback to lock account
    let _ = account.deposit(0, Amount::from_str("100.0").unwrap());
    let _ = account.dispute(0);
    let _ = account.chargeback(0);
    assert!(account.is_locked);

    // All further operations should be rejected with AccountLocked
    let err = account.deposit(1, Amount::from_str("10.0").unwrap());
    assert!(matches!(
        err.unwrap_err(),
        AccountOperationError::AccountLocked(1)
    ));

    let err = account.withdraw(2, Amount::from_str("10.0").unwrap());
    assert!(matches!(
        err.unwrap_err(),
        AccountOperationError::AccountLocked(2)
    ));

    let err = account.dispute(0);
    assert!(matches!(
        err.unwrap_err(),
        AccountOperationError::AccountLocked(0)
    ));

    let err = account.resolve(0);
    assert!(matches!(
        err.unwrap_err(),
        AccountOperationError::AccountLocked(0)
    ));

    let err = account.chargeback(0);
    assert!(matches!(
        err.unwrap_err(),
        AccountOperationError::AccountLocked(0)
    ));

    // Balances remain what they were after the first chargeback
    assert_eq!(account.amount_available, Amount::new());
    assert_eq!(account.amount_held, Amount::new());
    assert!(account.is_locked);
}
