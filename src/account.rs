use std::collections::HashMap;
use vstd::prelude::*;

use crate::amount::{Amount, AmountError};
use crate::text::is_i64;

verus! {

broadcast use vstd::std_specs::hash::group_hash_axioms;

/// Whether a recorded transaction brought money in or took it out.
#[derive(Debug, Clone, Copy, PartialEq, Eq, Structural)]
pub enum AccountTxType {
    Deposit,
    Withdrawal,
}

/// A deposit or withdrawal recorded on an account. Its amount never changes;
/// only its dispute flag does.
#[derive(Debug, Clone, Copy, PartialEq, Eq, Structural)]
pub struct AccountTx {
    pub amount: Amount,
    pub typ: AccountTxType,
    pub is_disputed: bool,
}

/// One client's balances and the transactions recorded on them.
#[derive(Debug, Clone)]
pub struct Account {
    pub id: u16,
    pub amount_available: Amount,
    pub amount_held: Amount,
    pub is_locked: bool,
    pub tx: HashMap<u32, AccountTx>,
}

/// Why an operation on an account was refused. Each refusal leaves the account as it was.
#[derive(Debug, Clone)]
pub enum AccountOperationError {
    AccountLocked(u32),
    TxAlreadyExist(u32),
    TxUnknown(u32),
    WithdrawalLimitExceeded(u32),
    TxAlreadyDisputed(u32),
    TxNotDisputed(u32),
    InvalidWithdrawalDispute(u32),
    InvalidAmountOperation(AmountError),
}

/// The state of an account: its balances in scaled units, its lock, and its
/// recorded transactions by id.
pub struct AccountView {
    pub id: u16,
    pub available: int,
    pub held: int,
    pub locked: bool,
    pub txs: Map<u32, AccountTx>,
}

impl View for Account {
    type V = AccountView;

    open spec fn view(&self) -> AccountView {
        AccountView {
            id: self.id,
            available: self.amount_available@,
            held: self.amount_held@,
            locked: self.is_locked,
            txs: self.tx@,
        }
    }
}

/// A new account: no funds, unlocked, nothing recorded.
pub open spec fn fresh_account(id: u16) -> AccountView {
    AccountView { id, available: 0, held: 0, locked: false, txs: Map::empty() }
}

/// A deposit of `amount` as transaction `tx_id`.
pub open spec fn deposit_result(a: AccountView, tx_id: u32, amount: Amount) -> Result<
    AccountView,
    AccountOperationError,
> {
    if a.locked {
        Err(AccountOperationError::AccountLocked(tx_id))
    } else if a.txs.contains_key(tx_id) {
        Err(AccountOperationError::TxAlreadyExist(tx_id))
    } else if !is_i64(a.available + amount@) {
        Err(AccountOperationError::InvalidAmountOperation(AmountError::Overflow))
    } else {
        Ok(
            AccountView {
                available: a.available + amount@,
                txs: a.txs.insert(
                    tx_id,
                    AccountTx { amount, typ: AccountTxType::Deposit, is_disputed: false },
                ),
                ..a
            },
        )
    }
}

/// A withdrawal of `amount` as transaction `tx_id`.
pub open spec fn withdraw_result(a: AccountView, tx_id: u32, amount: Amount) -> Result<
    AccountView,
    AccountOperationError,
> {
    if a.locked {
        Err(AccountOperationError::AccountLocked(tx_id))
    } else if a.txs.contains_key(tx_id) {
        Err(AccountOperationError::TxAlreadyExist(tx_id))
    } else if a.available < amount@ {
        Err(AccountOperationError::WithdrawalLimitExceeded(tx_id))
    } else if !is_i64(a.available - amount@) {
        Err(AccountOperationError::InvalidAmountOperation(AmountError::Underflow))
    } else {
        Ok(
            AccountView {
                available: a.available - amount@,
                txs: a.txs.insert(
                    tx_id,
                    AccountTx { amount, typ: AccountTxType::Withdrawal, is_disputed: false },
                ),
                ..a
            },
        )
    }
}

/// A dispute of transaction `tx_id`: the deposit's amount moves from available to held.
pub open spec fn dispute_result(a: AccountView, tx_id: u32) -> Result<
    AccountView,
    AccountOperationError,
> {
    if a.locked {
        Err(AccountOperationError::AccountLocked(tx_id))
    } else if !a.txs.contains_key(tx_id) {
        Err(AccountOperationError::TxUnknown(tx_id))
    } else {
        let t = a.txs[tx_id];
        if t.is_disputed {
            Err(AccountOperationError::TxAlreadyDisputed(tx_id))
        } else if t.typ == AccountTxType::Withdrawal {
            Err(AccountOperationError::InvalidWithdrawalDispute(tx_id))
        } else if !is_i64(a.available - t.amount@) {
            Err(AccountOperationError::InvalidAmountOperation(AmountError::Underflow))
        } else if !is_i64(a.held + t.amount@) {
            Err(AccountOperationError::InvalidAmountOperation(AmountError::Overflow))
        } else {
            Ok(
                AccountView {
                    available: a.available - t.amount@,
                    held: a.held + t.amount@,
                    txs: a.txs.insert(tx_id, AccountTx { is_disputed: true, ..t }),
                    ..a
                },
            )
        }
    }
}

/// A resolution of the dispute on transaction `tx_id`: the amount moves back from held to available.
pub open spec fn resolve_result(a: AccountView, tx_id: u32) -> Result<
    AccountView,
    AccountOperationError,
> {
    if a.locked {
        Err(AccountOperationError::AccountLocked(tx_id))
    } else if !a.txs.contains_key(tx_id) {
        Err(AccountOperationError::TxUnknown(tx_id))
    } else {
        let t = a.txs[tx_id];
        if !t.is_disputed {
            Err(AccountOperationError::TxNotDisputed(tx_id))
        } else if t.typ == AccountTxType::Withdrawal {
            Err(AccountOperationError::InvalidWithdrawalDispute(tx_id))
        } else if !is_i64(a.held - t.amount@) {
            Err(AccountOperationError::InvalidAmountOperation(AmountError::Underflow))
        } else if !is_i64(a.available + t.amount@) {
            Err(AccountOperationError::InvalidAmountOperation(AmountError::Overflow))
        } else {
            Ok(
                AccountView {
                    available: a.available + t.amount@,
                    held: a.held - t.amount@,
                    txs: a.txs.insert(tx_id, AccountTx { is_disputed: false, ..t }),
                    ..a
                },
            )
        }
    }
}

/// A chargeback of the disputed transaction `tx_id`: the held amount is
/// removed and the account locks.
pub open spec fn chargeback_result(a: AccountView, tx_id: u32) -> Result<
    AccountView,
    AccountOperationError,
> {
    if a.locked {
        Err(AccountOperationError::AccountLocked(tx_id))
    } else if !a.txs.contains_key(tx_id) {
        Err(AccountOperationError::TxUnknown(tx_id))
    } else {
        let t = a.txs[tx_id];
        if !t.is_disputed {
            Err(AccountOperationError::TxNotDisputed(tx_id))
        } else if t.typ == AccountTxType::Withdrawal {
            Err(AccountOperationError::InvalidWithdrawalDispute(tx_id))
        } else if !is_i64(a.held - t.amount@) {
            Err(AccountOperationError::InvalidAmountOperation(AmountError::Underflow))
        } else {
            Ok(
                AccountView {
                    held: a.held - t.amount@,
                    locked: true,
                    txs: a.txs.insert(tx_id, AccountTx { is_disputed: false, ..t }),
                    ..a
                },
            )
        }
    }
}

/// Whether an operation that went from `before` to `after` with result `r`
/// did what `expected` says: the new state on success, or the same error
/// with the state untouched.
pub open spec fn settles(
    before: AccountView,
    after: AccountView,
    r: Result<(), AccountOperationError>,
    expected: Result<AccountView, AccountOperationError>,
) -> bool {
    match expected {
        Ok(v) => r is Ok && after == v,
        Err(e) => r == Err::<(), AccountOperationError>(e) && after == before,
    }
}

impl Account {
    /// A new, empty, unlocked account for `client_id`.
    pub fn new(client_id: u16) -> (r: Account)
        ensures
            r@ == fresh_account(client_id),
    {
        Account {
            id: client_id,
            amount_available: Amount::new(),
            amount_held: Amount::new(),
            is_locked: false,
            tx: HashMap::new(),
        }
    }

    /// Adds `tx_amount` to the available funds and records the deposit.
    pub fn deposit(&mut self, tx_id: u32, tx_amount: Amount) -> (r: Result<(), AccountOperationError>)
        ensures
            settles(old(self)@, final(self)@, r, deposit_result(old(self)@, tx_id, tx_amount)),
    {
        if self.is_locked {
            return Err(AccountOperationError::AccountLocked(tx_id));
        }
        if self.tx.contains_key(&tx_id) {
            return Err(AccountOperationError::TxAlreadyExist(tx_id));
        }
        match self.amount_available.add(&tx_amount) {
            Ok(total) => {
                self.amount_available = total;
                self.tx.insert(
                    tx_id,
                    AccountTx { amount: tx_amount, typ: AccountTxType::Deposit, is_disputed: false },
                );
                Ok(())
            },
            Err(e) => Err(AccountOperationError::InvalidAmountOperation(e)),
        }
    }

    /// Takes `tx_amount` from the available funds, when they cover it, and records the withdrawal.
    pub fn withdraw(&mut self, tx_id: u32, tx_amount: Amount) -> (r: Result<(), AccountOperationError>)
        ensures
            settles(old(self)@, final(self)@, r, withdraw_result(old(self)@, tx_id, tx_amount)),
    {
        if self.is_locked {
            return Err(AccountOperationError::AccountLocked(tx_id));
        }
        if self.tx.contains_key(&tx_id) {
            return Err(AccountOperationError::TxAlreadyExist(tx_id));
        }
        if self.amount_available.store < tx_amount.store {
            return Err(AccountOperationError::WithdrawalLimitExceeded(tx_id));
        }
        match self.amount_available.sub(&tx_amount) {
            Ok(rest) => {
                self.amount_available = rest;
                self.tx.insert(
                    tx_id,
                    AccountTx { amount: tx_amount, typ: AccountTxType::Withdrawal, is_disputed: false },
                );
                Ok(())
            },
            Err(e) => Err(AccountOperationError::InvalidAmountOperation(e)),
        }
    }

    /// Puts the deposit `tx_id` under dispute, holding its amount.
    pub fn dispute(&mut self, tx_id: u32) -> (r: Result<(), AccountOperationError>)
        ensures
            settles(old(self)@, final(self)@, r, dispute_result(old(self)@, tx_id)),
    {
        if self.is_locked {
            return Err(AccountOperationError::AccountLocked(tx_id));
        }
        let t = match self.tx.get(&tx_id) {
            Some(t) => *t,
            None => return Err(AccountOperationError::TxUnknown(tx_id)),
        };
        if t.is_disputed {
            return Err(AccountOperationError::TxAlreadyDisputed(tx_id));
        }
        match t.typ {
            AccountTxType::Deposit => {
                let new_available = match self.amount_available.sub(&t.amount) {
                    Ok(v) => v,
                    Err(e) => return Err(AccountOperationError::InvalidAmountOperation(e)),
                };
                let new_held = match self.amount_held.add(&t.amount) {
                    Ok(v) => v,
                    Err(e) => return Err(AccountOperationError::InvalidAmountOperation(e)),
                };
                self.amount_available = new_available;
                self.amount_held = new_held;
                self.tx.insert(tx_id, AccountTx { is_disputed: true, ..t });
                Ok(())
            },
            AccountTxType::Withdrawal => Err(AccountOperationError::InvalidWithdrawalDispute(tx_id)),
        }
    }

    /// Ends the dispute on deposit `tx_id` in the client's favour: the held amount is available again.
    pub fn resolve(&mut self, tx_id: u32) -> (r: Result<(), AccountOperationError>)
        ensures
            settles(old(self)@, final(self)@, r, resolve_result(old(self)@, tx_id)),
    {
        if self.is_locked {
            return Err(AccountOperationError::AccountLocked(tx_id));
        }
        let t = match self.tx.get(&tx_id) {
            Some(t) => *t,
            None => return Err(AccountOperationError::TxUnknown(tx_id)),
        };
        if !t.is_disputed {
            return Err(AccountOperationError::TxNotDisputed(tx_id));
        }
        match t.typ {
            AccountTxType::Deposit => {
                let new_held = match self.amount_held.sub(&t.amount) {
                    Ok(v) => v,
                    Err(e) => return Err(AccountOperationError::InvalidAmountOperation(e)),
                };
                let new_available = match self.amount_available.add(&t.amount) {
                    Ok(v) => v,
                    Err(e) => return Err(AccountOperationError::InvalidAmountOperation(e)),
                };
                self.amount_held = new_held;
                self.amount_available = new_available;
                self.tx.insert(tx_id, AccountTx { is_disputed: false, ..t });
                Ok(())
            },
            AccountTxType::Withdrawal => Err(AccountOperationError::InvalidWithdrawalDispute(tx_id)),
        }
    }

    /// Ends the dispute on deposit `tx_id` against the client: the held amount
    /// is removed and the account locks for good.
    pub fn chargeback(&mut self, tx_id: u32) -> (r: Result<(), AccountOperationError>)
        ensures
            settles(old(self)@, final(self)@, r, chargeback_result(old(self)@, tx_id)),
    {
        if self.is_locked {
            return Err(AccountOperationError::AccountLocked(tx_id));
        }
        let t = match self.tx.get(&tx_id) {
            Some(t) => *t,
            None => return Err(AccountOperationError::TxUnknown(tx_id)),
        };
        if !t.is_disputed {
            return Err(AccountOperationError::TxNotDisputed(tx_id));
        }
        match t.typ {
            AccountTxType::Deposit => {
                self.amount_held = match self.amount_held.sub(&t.amount) {
                    Ok(v) => v,
                    Err(e) => return Err(AccountOperationError::InvalidAmountOperation(e)),
                };
                self.is_locked = true;
                self.tx.insert(tx_id, AccountTx { is_disputed: false, ..t });
                Ok(())
            },
            AccountTxType::Withdrawal => Err(AccountOperationError::InvalidWithdrawalDispute(tx_id)),
        }
    }
}

} // verus!
