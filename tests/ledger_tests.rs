use crab_cash::{
    AccountSnapshot, AmountError, InputRecord, Ledger, LedgerError, RecordType, Transaction,
    TransactionType,
};

fn tx(typ: TransactionType, client: u16, id: u32, amount: Option<&str>) -> Transaction {
    Transaction {
        id,
        account_id: client,
        typ,
        amount: amount.map(String::from),
    }
}

fn sorted_snapshots(ledger: &Ledger) -> Vec<AccountSnapshot> {
    let mut rows = ledger.account_snapshots();
    rows.sort_by(|a, b| a.client.cmp(&b.client));
    rows
}

fn row_of(ledger: &Ledger, client: &str) -> Option<AccountSnapshot> {
    ledger
        .account_snapshots()
        .into_iter()
        .find(|r| r.client == client)
}

#[test]
fn test_that_duplicate_tx_id_is_rejected_by_ledger() {
    let mut ledger = Ledger::new();

    // First deposit with tx id 1 on client 1
    let tx1 = Transaction {
        id: 1,
        account_id: 1,
        typ: TransactionType::Deposit,
        amount: Some(String::from("10.0")),
    };
    assert!(ledger.process_transaction(&tx1).is_ok());

    // Second deposit with same tx id 1, even on different client
    let tx2 = Transaction {
        id: 1,
        account_id: 2,
        typ: TransactionType::Deposit,
        amount: Some(String::from("5.0")),
    };
    let err = ledger.process_transaction(&tx2).unwrap_err();
    assert!(matches!(err, LedgerError::DuplicateTxId(1)));
}

#[test]
fn test_that_invalid_amount_string_is_rejected() {
    let mut ledger = Ledger::new();

    let tx = Transaction {
        id: 1,
        account_id: 1,
        typ: TransactionType::Deposit,
        amount: Some(String::from("not_parsable")),
    };
    let err = ledger.process_transaction(&tx).unwrap_err();
    assert!(matches!(err, LedgerError::Amount(_)));
}

#[test]
fn test_that_overflow_in_total_removes_account_from_snapshots() {
    let mut ledger = Ledger::new();

    // Bring the account to available = 922337203685477.5807 and held = 1.0:
    // deposit 1.0, dispute it, then deposit the largest amount.
    ledger
        .process_transaction(&tx(TransactionType::Deposit, 1, 1, Some("1.0")))
        .unwrap();
    ledger
        .process_transaction(&tx(TransactionType::Dispute, 1, 1, None))
        .unwrap();
    ledger
        .process_transaction(&tx(
            TransactionType::Deposit,
            1,
            2,
            Some("922337203685477.5807"),
        ))
        .unwrap();

    // This should overflow available + held and thus be filtered out
    let snapshots: Vec<_> = ledger.account_snapshots();
    assert!(snapshots.is_empty());
}

#[test]
fn test_that_negative_deposit_amount_is_rejected() {
    let mut ledger = Ledger::new();

    let tx = Transaction {
        id: 1,
        account_id: 1,
        typ: TransactionType::Deposit,
        amount: Some(String::from("-1.0")),
    };
    let err = ledger.process_transaction(&tx).unwrap_err();
    assert!(matches!(err, LedgerError::NegativeTxAmount(1)));
}

#[test]
fn test_that_negative_withdrawal_amount_is_rejected() {
    let mut ledger = Ledger::new();

    let tx = Transaction {
        id: 1,
        account_id: 1,
        typ: TransactionType::Withdrawal,
        amount: Some(String::from("-1.0")),
    };
    let err = ledger.process_transaction(&tx).unwrap_err();
    assert!(matches!(err, LedgerError::NegativeTxAmount(1)));
}

#[test]
fn missing_amount_is_rejected() {
    let mut ledger = Ledger::new();
    let err = ledger
        .process_transaction(&tx(TransactionType::Withdrawal, 3, 9, None))
        .unwrap_err();
    assert!(matches!(err, LedgerError::MissingAmount(9)));
}

#[test]
fn unparsable_amount_reports_trimmed_text() {
    let mut ledger = Ledger::new();
    let err = ledger
        .process_transaction(&tx(TransactionType::Deposit, 1, 1, Some("  1.2.3 ")))
        .unwrap_err();
    match err {
        LedgerError::Amount(AmountError::Parse(text)) => assert_eq!(text, "1.2.3"),
        other => panic!("unexpected error {:?}", other),
    }
}

#[test]
fn scaling_overflow_is_reported_by_ledger() {
    let mut ledger = Ledger::new();
    let err = ledger
        .process_transaction(&tx(
            TransactionType::Deposit,
            1,
            1,
            Some("9223372036854775807"),
        ))
        .unwrap_err();
    assert!(matches!(err, LedgerError::Amount(AmountError::Overflow)));
}

#[test]
fn duplicate_id_opens_no_account() {
    let mut ledger = Ledger::new();
    ledger
        .process_transaction(&tx(TransactionType::Deposit, 1, 1, Some("10.0")))
        .unwrap();
    let err = ledger
        .process_transaction(&tx(TransactionType::Deposit, 2, 1, Some("5.0")))
        .unwrap_err();
    assert!(matches!(err, LedgerError::DuplicateTxId(1)));
    let rows = sorted_snapshots(&ledger);
    assert_eq!(rows.len(), 1);
    assert_eq!(rows[0].client, "1");
    assert_eq!(rows[0].available, "10.0000");
}

#[test]
fn other_refusals_open_an_empty_account() {
    let mut ledger = Ledger::new();
    let err = ledger
        .process_transaction(&tx(TransactionType::Dispute, 7, 3, None))
        .unwrap_err();
    assert!(matches!(
        err,
        LedgerError::Account(crab_cash::AccountOperationError::TxUnknown(3))
    ));
    let row = row_of(&ledger, "7").unwrap();
    assert_eq!(row.available, "0.0000");
    assert_eq!(row.held, "0.0000");
    assert_eq!(row.total, "0.0000");
    assert!(!row.locked);
}

#[test]
fn refused_withdrawal_does_not_use_up_its_id() {
    let mut ledger = Ledger::new();
    let err = ledger
        .process_transaction(&tx(TransactionType::Withdrawal, 1, 5, Some("1.0")))
        .unwrap_err();
    assert!(matches!(
        err,
        LedgerError::Account(crab_cash::AccountOperationError::WithdrawalLimitExceeded(5))
    ));
    assert!(ledger
        .process_transaction(&tx(TransactionType::Deposit, 1, 5, Some("2.5")))
        .is_ok());
    assert_eq!(row_of(&ledger, "1").unwrap().available, "2.5000");
}

#[test]
fn snapshot_rows_hold_formatted_balances() {
    let mut ledger = Ledger::new();
    ledger
        .process_transaction(&tx(TransactionType::Deposit, 2, 1, Some("1.5")))
        .unwrap();
    ledger
        .process_transaction(&tx(TransactionType::Deposit, 2, 2, Some("0.25")))
        .unwrap();
    ledger
        .process_transaction(&tx(TransactionType::Dispute, 2, 2, None))
        .unwrap();
    ledger
        .process_transaction(&tx(TransactionType::Deposit, 65535, 3, Some("3")))
        .unwrap();
    let rows = sorted_snapshots(&ledger);
    assert_eq!(
        rows,
        vec![
            AccountSnapshot {
                client: String::from("2"),
                available: String::from("1.5000"),
                held: String::from("0.2500"),
                total: String::from("1.7500"),
                locked: false,
            },
            AccountSnapshot {
                client: String::from("65535"),
                available: String::from("3.0000"),
                held: String::from("0.0000"),
                total: String::from("3.0000"),
                locked: false,
            },
        ]
    );
}

#[test]
fn empty_ledger_has_no_rows() {
    let ledger = Ledger::new();
    assert!(ledger.account_snapshots().is_empty());
    let ledger = Ledger::default();
    assert!(ledger.account_snapshots().is_empty());
}

#[test]
fn input_record_becomes_transaction() {
    let record = InputRecord {
        typ: RecordType::Withdrawal,
        client: 4,
        tx: 11,
        amount: Some(String::from("2.0")),
    };
    let t = record.to_transaction();
    assert_eq!(t.id, 11);
    assert_eq!(t.account_id, 4);
    assert_eq!(t.typ, TransactionType::Withdrawal);
    assert_eq!(t.amount, Some(String::from("2.0")));

    let record = InputRecord {
        typ: RecordType::Chargeback,
        client: 4,
        tx: 11,
        amount: Some(String::from("2.0")),
    };
    let t = record.to_transaction();
    assert_eq!(t.typ, TransactionType::Chargeback);
    assert_eq!(t.amount, None);
}
