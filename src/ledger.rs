use std::collections::{HashMap, HashSet};
use vstd::prelude::*;

use vstd::std_specs::iter::IteratorSpec;

use crate::account::{
    chargeback_result, deposit_result, dispute_result, fresh_account, resolve_result,
    withdraw_result, Account, AccountOperationError, AccountView,
};
use crate::amount::{format_amount, read_amount, reads_as, Amount, AmountError, AmountText};
use crate::snapshot::AccountSnapshot;
use crate::text::{digits_of, is_i64, lemma_digits_of, render_digits, string_of, trimmed};
use crate::transaction::{Transaction, TransactionType};

verus! {

broadcast use vstd::std_specs::hash::group_hash_axioms;

/// Why the ledger refused a transaction. A refusal leaves every existing
/// account and every used transaction id as they were.
#[derive(Debug, Clone)]
pub enum LedgerError {
    Account(AccountOperationError),
    DuplicateTxId(u32),
    MissingAmount(u32),
    Amount(AmountError),
    NegativeTxAmount(u32),
}

/// All accounts, by client id, and the ids of the deposits and withdrawals
/// already applied.
pub struct Ledger {
    tx_processed: HashSet<u32>,
    accounts: HashMap<u16, Account>,
}

/// The state of a ledger: each client's account, and the transaction ids
/// that deposits and withdrawals have used.
pub struct LedgerView {
    pub accounts: Map<u16, AccountView>,
    pub processed: Set<u32>,
}

impl View for Ledger {
    type V = LedgerView;

    closed spec fn view(&self) -> LedgerView {
        LedgerView {
            accounts: self.accounts@.map_values(|a: Account| a@),
            processed: self.tx_processed@,
        }
    }
}

/// The ledger before any transaction.
pub open spec fn empty_ledger() -> LedgerView {
    LedgerView { accounts: Map::empty(), processed: Set::empty() }
}

/// Whether transactions of kind `t` bring in a new transaction id.
pub open spec fn creates_tx(t: TransactionType) -> bool {
    t == TransactionType::Deposit || t == TransactionType::Withdrawal
}

/// Whether `tx` is a deposit or withdrawal whose id was already used.
pub open spec fn is_duplicate(l: LedgerView, tx: Transaction) -> bool {
    creates_tx(tx.typ) && l.processed.contains(tx.id)
}

/// The account that `tx` goes to: the client's, or a new one for a new client.
pub open spec fn target_account(l: LedgerView, tx: Transaction) -> AccountView {
    if l.accounts.contains_key(tx.account_id) {
        l.accounts[tx.account_id]
    } else {
        fresh_account(tx.account_id)
    }
}

/// The amount of a deposit or withdrawal once read and found non-negative;
/// `None` where it is absent, unreadable or negative.
pub open spec fn checked_amount(tx: Transaction) -> Option<Amount> {
    match tx.amount {
        Some(text) => match read_amount(trimmed(text@)) {
            AmountText::Scaled(v) => if v >= 0 {
                Some(Amount { store: v as i64 })
            } else {
                None
            },
            _ => None,
        },
        None => None,
    }
}

/// What the account operation that `tx` names does to `a`; `amount` is used
/// by deposits and withdrawals only.
pub open spec fn account_step(a: AccountView, tx: Transaction, amount: Amount) -> Result<
    AccountView,
    AccountOperationError,
> {
    match tx.typ {
        TransactionType::Deposit => deposit_result(a, tx.id, amount),
        TransactionType::Withdrawal => withdraw_result(a, tx.id, amount),
        TransactionType::Dispute => dispute_result(a, tx.id),
        TransactionType::Resolve => resolve_result(a, tx.id),
        TransactionType::Chargeback => chargeback_result(a, tx.id),
    }
}

/// Whether `tx`, once past the duplicate check, gets as far as its account's
/// operation: disputes, resolves and chargebacks always do; deposits and
/// withdrawals when their amount is present, readable and not negative.
pub open spec fn reaches_account(tx: Transaction) -> bool {
    !creates_tx(tx.typ) || checked_amount(tx) is Some
}

/// The amount handed to the account operation.
pub open spec fn operation_amount(tx: Transaction) -> Amount {
    if creates_tx(tx.typ) {
        checked_amount(tx)->Some_0
    } else {
        Amount { store: 0 }
    }
}

/// The ledger after `tx`. A duplicate id changes nothing, not even by opening
/// an account. Otherwise the client's account exists afterwards; it changes
/// only when its operation succeeds, and a successful deposit or withdrawal
/// uses up its id.
pub open spec fn next_ledger(l: LedgerView, tx: Transaction) -> LedgerView {
    if is_duplicate(l, tx) {
        l
    } else {
        let a = target_account(l, tx);
        if reaches_account(tx) {
            match account_step(a, tx, operation_amount(tx)) {
                Ok(b) => LedgerView {
                    accounts: l.accounts.insert(tx.account_id, b),
                    processed: if creates_tx(tx.typ) {
                        l.processed.insert(tx.id)
                    } else {
                        l.processed
                    },
                },
                Err(_) => LedgerView { accounts: l.accounts.insert(tx.account_id, a), ..l },
            }
        } else {
            LedgerView { accounts: l.accounts.insert(tx.account_id, a), ..l }
        }
    }
}

/// Whether `r` is what processing `tx` on `l` returns: checks run in the
/// order duplicate id, missing amount, unreadable amount, negative amount,
/// then the account operation.
pub open spec fn reports(l: LedgerView, tx: Transaction, r: Result<(), LedgerError>) -> bool {
    if is_duplicate(l, tx) {
        r == Err::<(), LedgerError>(LedgerError::DuplicateTxId(tx.id))
    } else if creates_tx(tx.typ) && tx.amount is None {
        r == Err::<(), LedgerError>(LedgerError::MissingAmount(tx.id))
    } else if creates_tx(tx.typ) && !(read_amount(trimmed(tx.amount->Some_0@)) is Scaled) {
        &&& r is Err
        &&& r->Err_0 is Amount
        &&& reads_as(tx.amount->Some_0@, Err(r->Err_0->Amount_0))
    } else if creates_tx(tx.typ) && checked_amount(tx) is None {
        r == Err::<(), LedgerError>(LedgerError::NegativeTxAmount(tx.id))
    } else {
        match account_step(target_account(l, tx), tx, operation_amount(tx)) {
            Ok(_) => r is Ok,
            Err(e) => r == Err::<(), LedgerError>(LedgerError::Account(e)),
        }
    }
}

/// Whether the total of `a` fits an amount, so that the account can be reported.
pub open spec fn reportable(a: AccountView) -> bool {
    is_i64(a.available + a.held)
}

/// Whether `s` reports the account `a` of client `c`.
#[verifier::opaque]
pub open spec fn describes(s: AccountSnapshot, c: u16, a: AccountView) -> bool {
    &&& s.client@ == digits_of(c as nat)
    &&& s.available@ == format_amount(a.available)
    &&& s.held@ == format_amount(a.held)
    &&& s.total@ == format_amount(a.available + a.held)
    &&& s.locked == a.locked
}

/// The report row of account `acc` of client `c`, unless its total overflows.
fn snapshot_of(c: u16, acc: &Account) -> (r: Option<AccountSnapshot>)
    ensures
        match r {
            Some(row) => reportable(acc@) && describes(row, c, acc@),
            None => !reportable(acc@),
        },
{
    reveal(describes);
    match acc.amount_available.add(&acc.amount_held) {
        Ok(total) => {
            let digits = render_digits(c as u64);
            Some(
                AccountSnapshot {
                    client: string_of(&digits),
                    available: acc.amount_available.to_string(),
                    held: acc.amount_held.to_string(),
                    total: total.to_string(),
                    locked: acc.is_locked,
                },
            )
        },
        Err(_) => None,
    }
}

/// Rows that each describe the account at a recorded position of `keys`
/// each describe some reportable account.
proof fn lemma_rows_name_accounts(
    rows: Seq<AccountSnapshot>,
    keys: Seq<u16>,
    pos: Seq<int>,
    accounts: Map<u16, AccountView>,
)
    requires
        rows.len() == pos.len(),
        forall|i: int| 0 <= i < pos.len() ==> 0 <= #[trigger] pos[i] < keys.len(),
        forall|j: int| 0 <= j < keys.len() ==> accounts.contains_key(#[trigger] keys[j]),
        forall|i: int|
            #![trigger pos[i]]
            0 <= i < pos.len() ==> {
                &&& reportable(accounts[keys[pos[i]]])
                &&& describes(rows[i], keys[pos[i]], accounts[keys[pos[i]]])
            },
    ensures
        forall|i: int| 0 <= i < rows.len() ==> #[trigger] reports_some(rows[i], accounts),
{
    assert forall|i: int| 0 <= i < rows.len() implies #[trigger] reports_some(rows[i], accounts) by {
        let c = keys[pos[i]];
        assert(describes(rows[i], c, accounts[c]));
    }
}

/// Whether `s` reports some reportable account of `accounts`.
pub open spec fn reports_some(s: AccountSnapshot, accounts: Map<u16, AccountView>) -> bool {
    exists|c: u16|
        {
            &&& accounts.contains_key(c)
            &&& reportable(accounts[c])
            &&& #[trigger] describes(s, c, accounts[c])
        }
}

impl Default for Ledger {
    fn default() -> (r: Ledger)
        ensures
            r@ == empty_ledger(),
    {
        Ledger::new()
    }
}

impl Ledger {
    /// The ledger with no accounts and no transactions.
    pub fn new() -> (r: Ledger)
        ensures
            r@ == empty_ledger(),
    {
        let r = Ledger { accounts: HashMap::new(), tx_processed: HashSet::new() };
        assert(r@.accounts =~= Map::<u16, AccountView>::empty());
        r
    }

    /// Applies `tx` to the client's account.
    fn apply(account: &mut Account, tx: &Transaction) -> (r: Result<(), LedgerError>)
        ensures
            final(account).id == old(account).id,
            reaches_account(*tx) ==> match account_step(old(account)@, *tx, operation_amount(*tx)) {
                Ok(b) => r is Ok && final(account)@ == b,
                Err(e) => r == Err::<(), LedgerError>(LedgerError::Account(e)) && final(account)@ == old(account)@,
            },
            !reaches_account(*tx) ==> r is Err && final(account)@ == old(account)@,
            creates_tx(tx.typ) && tx.amount is None ==> r == Err::<(), LedgerError>(LedgerError::MissingAmount(tx.id)),
            creates_tx(tx.typ) && tx.amount is Some && !(read_amount(trimmed(tx.amount->Some_0@)) is Scaled) ==> {
                &&& r is Err
                &&& r->Err_0 is Amount
                &&& reads_as(tx.amount->Some_0@, Err(r->Err_0->Amount_0))
            },
            creates_tx(tx.typ) && tx.amount is Some && read_amount(trimmed(tx.amount->Some_0@)) is Scaled
                && checked_amount(*tx) is None ==> r == Err::<(), LedgerError>(LedgerError::NegativeTxAmount(tx.id)),
    {
        let res = match tx.typ {
            TransactionType::Deposit | TransactionType::Withdrawal => {
                let text = match &tx.amount {
                    Some(text) => text,
                    None => return Err(LedgerError::MissingAmount(tx.id)),
                };
                let amount = match Amount::from_str(text.as_str()) {
                    Ok(a) => a,
                    Err(e) => return Err(LedgerError::Amount(e)),
                };
                if amount.store < 0 {
                    return Err(LedgerError::NegativeTxAmount(tx.id));
                }
                match tx.typ {
                    TransactionType::Deposit => account.deposit(tx.id, amount),
                    _ => account.withdraw(tx.id, amount),
                }
            },
            TransactionType::Dispute => account.dispute(tx.id),
            TransactionType::Resolve => account.resolve(tx.id),
            TransactionType::Chargeback => account.chargeback(tx.id),
        };
        match res {
            Ok(()) => Ok(()),
            Err(e) => Err(LedgerError::Account(e)),
        }
    }

    /// Routes `tx` to its client's account, opening the account on first use,
    /// and refuses deposits and withdrawals whose id was used before.
    pub fn process_transaction(&mut self, tx: &Transaction) -> (r: Result<(), LedgerError>)
        ensures
            final(self)@ == next_ledger(old(self)@, *tx),
            reports(old(self)@, *tx, r),
    {
        let creates = match tx.typ {
            TransactionType::Deposit | TransactionType::Withdrawal => true,
            _ => false,
        };
        if creates && self.tx_processed.contains(&tx.id) {
            return Err(LedgerError::DuplicateTxId(tx.id));
        }
        let ghost before = self@;
        let mut account = match self.accounts.remove(&tx.account_id) {
            Some(a) => a,
            None => Account::new(tx.account_id),
        };
        assert(account@ == target_account(before, *tx));
        let r = Ledger::apply(&mut account, tx);
        if creates && r.is_ok() {
            self.tx_processed.insert(tx.id);
        }
        self.accounts.insert(tx.account_id, account);
        assert(self@.accounts =~= next_ledger(before, *tx).accounts);
        r
    }

    /// The client ids that have an account, each once.
    fn client_ids(&self) -> (r: Vec<u16>)
        ensures
            r@.to_set() == self@.accounts.dom(),
            r@.no_duplicates(),
    {
        let ghost all = vstd::std_specs::hash::spec_keys_iter(&self.accounts).remaining().unref();
        let mut ids: Vec<u16> = Vec::new();
        for c in it: self.accounts.keys()
            invariant
                it.seq().unref() == all,
                ids@ == all.subrange(0, it.index()),
        {
            ids.push(*c);
        }
        assert(ids@ =~= all);
        assert(self@.accounts.dom() =~= self.accounts@.dom());
        ids
    }

    /// One row per account whose total fits an amount, in no particular
    /// order; an account whose total overflows is left out.
    pub fn account_snapshots(&self) -> (r: Vec<AccountSnapshot>)
        ensures
            forall|i: int| 0 <= i < r.len() ==> #[trigger] reports_some(r@[i], self@.accounts),
            forall|c: u16|
                #[trigger] self@.accounts.contains_key(c) && reportable(self@.accounts[c]) ==> exists|
                    i: int,
                | 0 <= i < r.len() && #[trigger] describes(r@[i], c, self@.accounts[c]),
            forall|i: int, j: int|
                0 <= i < j < r.len() ==> (#[trigger] r@[i]).client@ != (#[trigger] r@[j]).client@,
    {
        let ghost accounts = self@.accounts;
        let keys = self.client_ids();
        proof {
            assert forall|j: int| 0 <= j < keys.len() implies accounts.contains_key(
                #[trigger] keys@[j],
            ) by {
                assert(keys@.to_set().contains(keys@[j]));
            }
        }
        let mut out: Vec<AccountSnapshot> = Vec::new();
        // The position in `keys` of the client of each row.
        let ghost mut pos: Seq<int> = Seq::empty();
        let mut k: usize = 0;
        while k < keys.len()
            invariant
                k <= keys.len(),
                accounts == self@.accounts,
                forall|j: int| 0 <= j < keys.len() ==> accounts.contains_key(#[trigger] keys@[j]),
                out.len() == pos.len(),
                forall|i: int| 0 <= i < pos.len() ==> 0 <= #[trigger] pos[i] < k,
                forall|i: int, j: int| 0 <= i < j < pos.len() ==> #[trigger] pos[i] < #[trigger] pos[j],
                forall|i: int|
                    #![trigger pos[i]]
                    0 <= i < pos.len() ==> {
                        &&& reportable(accounts[keys@[pos[i]]])
                        &&& describes(out@[i], keys@[pos[i]], accounts[keys@[pos[i]]])
                    },
                forall|j: int|
                    #![trigger keys@[j]]
                    0 <= j < k && reportable(accounts[keys@[j]]) ==> exists|i: int|
                        0 <= i < pos.len() && #[trigger] pos[i] == j,
            decreases keys.len() - k,
        {
            let c = keys[k];
            let acc = self.accounts.get(&c).unwrap();
            assert(accounts[c] == acc@);
            let ghost old_pos = pos;
            let ghost old_out = out@;
            match snapshot_of(c, acc) {
                Some(row) => {
                    out.push(row);
                    proof {
                        pos = pos.push(k as int);
                        assert forall|i: int|
                            #![trigger pos[i]]
                            0 <= i < pos.len() implies {
                            &&& reportable(accounts[keys@[pos[i]]])
                            &&& describes(out@[i], keys@[pos[i]], accounts[keys@[pos[i]]])
                        } by {
                            if i < old_pos.len() {
                                assert(pos[i] == old_pos[i]);
                                assert(out@[i] == old_out[i]);
                            } else {
                                assert(pos[i] == k);
                                assert(out@[i] == row);
                            }
                        }
                    }
                },
                None => {},
            }
            proof {
                assert forall|j: int|
                    #![trigger keys@[j]]
                    0 <= j < k + 1 && reportable(accounts[keys@[j]]) implies exists|i: int|
                    0 <= i < pos.len() && #[trigger] pos[i] == j by {
                    if j < k {
                        let i = choose|i: int| 0 <= i < old_pos.len() && #[trigger] old_pos[i] == j;
                        assert(pos[i] == j);
                    } else {
                        assert(pos[old_pos.len() as int] == j);
                    }
                }
            }
            k = k + 1;
        }
        proof {
            assert forall|c: u16|
                #[trigger] accounts.contains_key(c) && reportable(accounts[c]) implies exists|i: int|
                0 <= i < out.len() && #[trigger] describes(out@[i], c, accounts[c]) by {
                assert(keys@.to_set().contains(c));
                let j = choose|j: int| 0 <= j < keys.len() && keys@[j] == c;
                assert(reportable(accounts[keys@[j]]));
                let i = choose|i: int| 0 <= i < pos.len() && #[trigger] pos[i] == j;
                assert(describes(out@[i], keys@[pos[i]], accounts[keys@[pos[i]]]));
            }
            lemma_rows_name_accounts(out@, keys@, pos, self@.accounts);
            assert forall|i: int, j: int|
                0 <= i < j < out.len() implies (#[trigger] out@[i]).client@ != (
                #[trigger] out@[j]).client@ by {
                reveal(describes);
                assert(describes(out@[i], keys@[pos[i]], accounts[keys@[pos[i]]]));
                assert(describes(out@[j], keys@[pos[j]], accounts[keys@[pos[j]]]));
                lemma_digits_of(keys@[pos[i]] as nat);
                lemma_digits_of(keys@[pos[j]] as nat);
                assert(pos[i] < pos[j]);
                assert(keys@[pos[i]] != keys@[pos[j]]);
            }
        }
        out
    }
}

} // verus!
