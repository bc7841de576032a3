use vstd::prelude::*;

verus! {

/// The kind of a transaction handed to the ledger.
#[derive(Debug, Clone, Copy, PartialEq, Eq, Structural)]
pub enum TransactionType {
    Deposit,
    Withdrawal,
    Dispute,
    Resolve,
    Chargeback,
}

/// One transaction for the ledger. `amount` is the decimal text of a deposit
/// or withdrawal; the other kinds ignore it.
#[derive(Debug, Clone)]
pub struct Transaction {
    pub id: u32,
    pub account_id: u16,
    pub amount: Option<String>,
    pub typ: TransactionType,
}

/// The kind of an input record, as written in its `type` column.
#[derive(Debug, Clone, Copy, PartialEq, Eq, Structural)]
pub enum RecordType {
    Deposit,
    Withdrawal,
    Dispute,
    Resolve,
    Chargeback,
}

/// One input record: kind, client, transaction id and optional amount text.
#[derive(Debug, Clone)]
pub struct InputRecord {
    pub typ: RecordType,
    pub client: u16,
    pub tx: u32,
    pub amount: Option<String>,
}

/// The transaction kind that a record kind stands for.
pub open spec fn transaction_type_of(t: RecordType) -> TransactionType {
    match t {
        RecordType::Deposit => TransactionType::Deposit,
        RecordType::Withdrawal => TransactionType::Withdrawal,
        RecordType::Dispute => TransactionType::Dispute,
        RecordType::Resolve => TransactionType::Resolve,
        RecordType::Chargeback => TransactionType::Chargeback,
    }
}

impl InputRecord {
    /// The transaction this record describes. Only deposits and withdrawals keep the amount.
    pub fn to_transaction(&self) -> (r: Transaction)
        ensures
            r.id == self.tx,
            r.account_id == self.client,
            r.typ == transaction_type_of(self.typ),
            r.amount == (match self.typ {
                RecordType::Deposit | RecordType::Withdrawal => self.amount,
                _ => None,
            }),
    {
        let amount = match self.typ {
            RecordType::Deposit | RecordType::Withdrawal => match &self.amount {
                Some(text) => Some(text.clone()),
                None => None,
            },
            _ => None,
        };
        let typ = match self.typ {
            RecordType::Deposit => TransactionType::Deposit,
            RecordType::Withdrawal => TransactionType::Withdrawal,
            RecordType::Dispute => TransactionType::Dispute,
            RecordType::Resolve => TransactionType::Resolve,
            RecordType::Chargeback => TransactionType::Chargeback,
        };
        Transaction { id: self.tx, account_id: self.client, amount, typ }
    }
}

} // verus!
