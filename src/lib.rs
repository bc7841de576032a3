//! Per-client account balances computed from an ordered stream of
//! deposit, withdrawal, dispute, resolve and chargeback records, with
//! money held as exact fixed-point amounts.

pub mod account;
pub mod amount;
pub mod laws;
pub mod ledger;
pub mod snapshot;
pub mod text;
pub mod transaction;

pub use account::{Account, AccountOperationError, AccountTx, AccountTxType};
pub use amount::{Amount, AmountError};
pub use ledger::{Ledger, LedgerError};
pub use snapshot::AccountSnapshot;
pub use transaction::{InputRecord, RecordType, Transaction, TransactionType};
