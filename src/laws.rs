use vstd::prelude::*;

use crate::account::{
    chargeback_result, deposit_result, dispute_result, resolve_result, settles, withdraw_result,
    AccountOperationError, AccountView,
};
use crate::amount::Amount;
use crate::ledger::{
    account_step, empty_ledger, next_ledger, operation_amount, reports, target_account,
    LedgerError, LedgerView,
};
use crate::transaction::{Transaction, TransactionType};

verus! {

/// The ledger after the transactions `txs`, in order, starting from `l`.
pub open spec fn replay(l: LedgerView, txs: Seq<Transaction>) -> LedgerView
    decreases txs.len(),
{
    if txs.len() == 0 {
        l
    } else {
        replay(next_ledger(l, txs[0]), txs.drop_first())
    }
}

/// Replaying one stream of transactions against two ledgers in the same
/// state, such as two fresh ones, leaves them in the same state: processing
/// a transaction depends on nothing but the ledger's state and the
/// transaction.
pub proof fn lemma_replay_deterministic(a: LedgerView, b: LedgerView, txs: Seq<Transaction>)
    requires
        a == b,
    ensures
        replay(a, txs) == replay(b, txs),
{
}

/// An operation that is refused leaves the account exactly as it was.
pub proof fn lemma_refusal_changes_nothing(
    before: AccountView,
    after: AccountView,
    r: Result<(), AccountOperationError>,
    expected: Result<AccountView, AccountOperationError>,
)
    requires
        settles(before, after, r, expected),
        r is Err,
    ensures
        after == before,
{
}

/// A refused transaction changes no existing account and uses up no id; at
/// most it opens an empty account for a new client.
pub proof fn lemma_ledger_refusal_changes_nothing(
    l: LedgerView,
    tx: Transaction,
    r: Result<(), LedgerError>,
)
    requires
        reports(l, tx, r),
        r is Err,
    ensures
        next_ledger(l, tx).processed == l.processed,
        forall|c: u16| #[trigger]
            l.accounts.contains_key(c) ==> next_ledger(l, tx).accounts.contains_key(c)
                && next_ledger(l, tx).accounts[c] == l.accounts[c],
        forall|c: u16| #[trigger]
            next_ledger(l, tx).accounts.contains_key(c) && !l.accounts.contains_key(c) ==> c
                == tx.account_id && next_ledger(l, tx).accounts[c] == target_account(l, tx),
{
}

/// A locked account refuses every operation with `AccountLocked`.
pub proof fn lemma_locked_account_refuses(a: AccountView, tx_id: u32, amount: Amount)
    requires
        a.locked,
    ensures
        deposit_result(a, tx_id, amount) == Err::<AccountView, _>(
            AccountOperationError::AccountLocked(tx_id),
        ),
        withdraw_result(a, tx_id, amount) == Err::<AccountView, _>(
            AccountOperationError::AccountLocked(tx_id),
        ),
        dispute_result(a, tx_id) == Err::<AccountView, _>(
            AccountOperationError::AccountLocked(tx_id),
        ),
        resolve_result(a, tx_id) == Err::<AccountView, _>(
            AccountOperationError::AccountLocked(tx_id),
        ),
        chargeback_result(a, tx_id) == Err::<AccountView, _>(
            AccountOperationError::AccountLocked(tx_id),
        ),
{
}

/// Once an account is locked, no later transaction changes it.
pub proof fn lemma_locked_account_frozen(l: LedgerView, txs: Seq<Transaction>, c: u16)
    requires
        l.accounts.contains_key(c),
        l.accounts[c].locked,
    ensures
        replay(l, txs).accounts.contains_key(c),
        replay(l, txs).accounts[c] == l.accounts[c],
    decreases txs.len(),
{
    if txs.len() > 0 {
        let next = next_ledger(l, txs[0]);
        assert(next.accounts.contains_key(c) && next.accounts[c] == l.accounts[c]) by {
            let tx = txs[0];
            if tx.account_id == c {
                let a = l.accounts[c];
                assert(target_account(l, tx) == a);
                lemma_locked_account_refuses(a, tx.id, operation_amount(tx));
                assert(account_step(a, tx, operation_amount(tx)) is Err);
            }
        }
        lemma_locked_account_frozen(next, txs.drop_first(), c);
    }
}

/// Every available balance, and every recorded amount, is at least zero.
pub open spec fn non_negative(l: LedgerView) -> bool {
    forall|c: u16| #[trigger]
        l.accounts.contains_key(c) ==> {
            &&& l.accounts[c].available >= 0
            &&& forall|t: u32| #[trigger]
                l.accounts[c].txs.contains_key(t) ==> l.accounts[c].txs[t].amount@ >= 0
        }
}

/// Whether `tx` disputes a recorded transaction of more than its client has
/// available: the one step that moves an available balance below zero.
pub open spec fn overdrawing_dispute(l: LedgerView, tx: Transaction) -> bool {
    let a = target_account(l, tx);
    &&& tx.typ == TransactionType::Dispute
    &&& a.txs.contains_key(tx.id)
    &&& a.txs[tx.id].amount@ > a.available
}

/// A transaction other than a dispute of more than the available balance
/// keeps every available balance at zero or above.
pub proof fn lemma_step_non_negative(l: LedgerView, tx: Transaction)
    requires
        non_negative(l),
        !overdrawing_dispute(l, tx),
    ensures
        non_negative(next_ledger(l, tx)),
{
    let next = next_ledger(l, tx);
    let a = target_account(l, tx);
    assert(a.available >= 0 && forall|t: u32| #[trigger]
        a.txs.contains_key(t) ==> a.txs[t].amount@ >= 0);
    assert forall|c: u16| #[trigger] next.accounts.contains_key(c) implies {
        &&& next.accounts[c].available >= 0
        &&& forall|t: u32| #[trigger]
            next.accounts[c].txs.contains_key(t) ==> next.accounts[c].txs[t].amount@ >= 0
    } by {
        if c == tx.account_id && next != l {
            let b = next.accounts[c];
            if b != a {
                assert(b.available >= 0);
                assert forall|t: u32| #[trigger] b.txs.contains_key(t) implies b.txs[t].amount@
                    >= 0 by {
                    if t != tx.id {
                        assert(a.txs.contains_key(t));
                    }
                }
            }
        }
    }
}

/// From a fresh ledger, every available balance stays at zero or above as
/// long as no transaction disputes more than its client has available.
pub proof fn lemma_replay_non_negative(txs: Seq<Transaction>)
    requires
        forall|i: int|
            0 <= i < txs.len() ==> !overdrawing_dispute(
                replay(empty_ledger(), txs.take(i)),
                #[trigger] txs[i],
            ),
    ensures
        non_negative(replay(empty_ledger(), txs)),
{
    lemma_replay_non_negative_from(empty_ledger(), txs, txs.len() as int);
}

/// `replay` of a prefix followed by the rest.
proof fn lemma_replay_split(l: LedgerView, txs: Seq<Transaction>, i: int)
    requires
        0 <= i < txs.len(),
    ensures
        replay(l, txs.take(i + 1)) == next_ledger(replay(l, txs.take(i)), txs[i]),
    decreases i,
{
    let next = next_ledger(l, txs[0]);
    assert(txs.take(i + 1)[0] == txs[0]);
    assert(replay(l, txs.take(i + 1)) == replay(next, txs.take(i + 1).drop_first()));
    if i == 0 {
        assert(txs.take(1).drop_first() =~= Seq::<Transaction>::empty());
        assert(txs.take(0) =~= Seq::<Transaction>::empty());
        assert(replay(next, Seq::<Transaction>::empty()) == next);
        assert(replay(l, Seq::<Transaction>::empty()) == l);
    } else {
        let rest = txs.drop_first();
        lemma_replay_split(next, rest, i - 1);
        assert(txs.take(i + 1).drop_first() =~= rest.take(i));
        assert(txs.take(i).drop_first() =~= rest.take(i - 1));
        assert(txs.take(i)[0] == txs[0]);
        assert(replay(l, txs.take(i)) == replay(next, txs.take(i).drop_first()));
        assert(rest[i - 1] == txs[i]);
    }
}

/// A non-negative ledger stays so over the first `n` transactions.
proof fn lemma_replay_non_negative_from(l: LedgerView, txs: Seq<Transaction>, n: int)
    requires
        non_negative(l),
        0 <= n <= txs.len(),
        forall|i: int|
            0 <= i < txs.len() ==> !overdrawing_dispute(
                replay(l, txs.take(i)),
                #[trigger] txs[i],
            ),
    ensures
        non_negative(replay(l, txs.take(n))),
        n == txs.len() ==> non_negative(replay(l, txs)),
    decreases n,
{
    if n == 0 {
        assert(txs.take(0) =~= Seq::<Transaction>::empty());
    } else {
        lemma_replay_non_negative_from(l, txs, n - 1);
        lemma_replay_split(l, txs, n - 1);
        lemma_step_non_negative(replay(l, txs.take(n - 1)), txs[n - 1]);
    }
    if n == txs.len() {
        assert(txs.take(n) =~= txs);
    }
}

} // verus!
