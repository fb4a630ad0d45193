use vstd::prelude::*;

use crate::account_actor::{account_of, ledger_wf, processed, LedgerState, TransactionError};
use crate::client_account::{representable, AccountState};
use crate::transaction::{ClientID, Transaction, TransactionStatus, TransactionType};

verus! {

/// The account after a whole sequence of transactions was handed to it, one
/// after the other, failures included.
pub open spec fn applied_all(state: AccountState, transactions: Seq<Transaction>) -> AccountState
    decreases transactions.len(),
{
    if transactions.len() == 0 {
        state
    } else {
        applied_all(state.applied(transactions[0]), transactions.drop_first())
    }
}

/// Whether every transaction of the sequence may be handed to an account that
/// started as `state` and took the ones before it.
pub open spec fn admits_all(state: AccountState, transactions: Seq<Transaction>) -> bool
    decreases transactions.len(),
{
    transactions.len() == 0 || (state.admits(transactions[0]) && admits_all(
        state.applied(transactions[0]),
        transactions.drop_first(),
    ))
}

/// The total stays what is available plus what is held under every
/// transaction whatever, whether it succeeds or fails and whatever else the
/// account holds.
pub proof fn balance_equation_is_kept(state: AccountState, tx: Transaction)
    requires
        state.total == state.available + state.held,
    ensures
        state.applied(tx).total == state.applied(tx).available + state.applied(tx).held,
{
}

/// Where every account on file has a total of what is available plus what is
/// held, routing any transaction whatever leaves every account on file so:
/// the account of its client, opened by it or not, and all the others.
pub proof fn ledger_balance_equation_is_kept(ledger: LedgerState, tx: Transaction)
    requires
        forall|id: ClientID| #[trigger]
            ledger.contains_key(id) ==> ledger[id].total == ledger[id].available + ledger[id].held,
    ensures
        forall|id: ClientID| #[trigger]
            processed(ledger, tx).contains_key(id) ==> processed(ledger, tx)[id].total
                == processed(ledger, tx)[id].available + processed(ledger, tx)[id].held,
{
    let after = processed(ledger, tx);
    balance_equation_is_kept(account_of(ledger, tx.client_id), tx);
    assert forall|id: ClientID| #[trigger] after.contains_key(id) implies after[id].total
        == after[id].available + after[id].held by {
        if id != tx.client_id {
            assert(ledger.contains_key(id));
        }
    }
}

/// Handing a transaction to an account keeps the ledger invariant, so the
/// total stays what is available plus what is held, whether the transaction
/// succeeds or fails.
pub proof fn total_is_available_plus_held(state: AccountState, tx: Transaction)
    requires
        state.wf(),
        state.admits(tx),
    ensures
        state.applied(tx).wf(),
        state.applied(tx).total == state.applied(tx).available + state.applied(tx).held,
{
}

/// The ledger invariant holds after any sequence of transactions.
pub proof fn invariant_holds_at_every_point(state: AccountState, transactions: Seq<Transaction>)
    requires
        state.wf(),
        admits_all(state, transactions),
    ensures
        applied_all(state, transactions).wf(),
        applied_all(state, transactions).total == applied_all(state, transactions).available
            + applied_all(state, transactions).held,
    decreases transactions.len(),
{
    if transactions.len() > 0 {
        total_is_available_plus_held(state, transactions[0]);
        invariant_holds_at_every_point(state.applied(transactions[0]), transactions.drop_first());
    }
}

/// Routing a transaction keeps the ledger invariant: afterwards every account
/// on file still has a total of what is available plus what is held.
pub proof fn ledger_invariant_is_kept(ledger: LedgerState, tx: Transaction)
    requires
        ledger_wf(ledger),
        account_of(ledger, tx.client_id).admits(tx),
    ensures
        ledger_wf(processed(ledger, tx)),
        forall|id: ClientID| #[trigger]
            processed(ledger, tx).contains_key(id) ==> processed(ledger, tx)[id].total
                == processed(ledger, tx)[id].available + processed(ledger, tx)[id].held,
{
    let after = processed(ledger, tx);
    total_is_available_plus_held(account_of(ledger, tx.client_id), tx);
    assert forall|id: ClientID| #[trigger] after.contains_key(id) implies after[id].wf()
        && after[id].client_id == id by {
        if id != tx.client_id {
            assert(ledger.contains_key(id));
        }
    }
}

/// Routing a transaction touches the account of its client only: the
/// accounts of all other clients, and whether they are on file, stay as they
/// were.
pub proof fn other_clients_are_untouched(ledger: LedgerState, tx: Transaction, other: ClientID)
    requires
        other != tx.client_id,
    ensures
        processed(ledger, tx).contains_key(other) == ledger.contains_key(other),
        ledger.contains_key(other) ==> processed(ledger, tx)[other] == ledger[other],
{
}

/// The first transaction that refers to a client opens the account, with all
/// balances at zero and unlocked, and is applied to it; the account is on
/// file from then on, whether or not that transaction succeeded.
pub proof fn account_is_opened_on_first_reference(ledger: LedgerState, tx: Transaction)
    requires
        !ledger.contains_key(tx.client_id),
    ensures
        processed(ledger, tx).contains_key(tx.client_id),
        processed(ledger, tx)[tx.client_id] == AccountState::initial(tx.client_id).applied(tx),
        AccountState::initial(tx.client_id).available == 0,
        AccountState::initial(tx.client_id).held == 0,
        AccountState::initial(tx.client_id).total == 0,
        !AccountState::initial(tx.client_id).locked,
{
}

/// A failed transaction changes nothing.
pub proof fn failure_changes_nothing(state: AccountState, tx: Transaction)
    requires
        state.outcome(tx) is Err,
    ensures
        state.applied(tx) == state,
{
}

/// A locked account answers every transaction with `AccountLocked` and does
/// not change.
pub proof fn locked_account_rejects(state: AccountState, tx: Transaction)
    requires
        state.locked,
    ensures
        state.outcome(tx) == Err::<(), TransactionError>(TransactionError::AccountLocked),
        state.applied(tx) == state,
{
}

/// A locked account is the same account after any sequence of transactions:
/// the lock is permanent.
pub proof fn locked_account_never_changes(state: AccountState, transactions: Seq<Transaction>)
    requires
        state.locked,
    ensures
        applied_all(state, transactions) == state,
    decreases transactions.len(),
{
    if transactions.len() > 0 {
        locked_account_rejects(state, transactions[0]);
        locked_account_never_changes(state, transactions.drop_first());
    }
}

/// A successful chargeback locks the account.
pub proof fn chargeback_locks(state: AccountState, tx: Transaction)
    requires
        tx.transaction_type == TransactionType::Chargeback,
        state.outcome(tx) is Ok,
    ensures
        state.applied(tx).locked,
        state.applied(tx).transactions[tx.tx_id].status == TransactionStatus::Chargeback,
{
}

/// Resolving the same transaction a second time, right after a first resolve
/// that succeeded, fails with `ResolvedTransactionNotDisputed` and changes
/// nothing.
pub proof fn second_resolve_is_rejected(state: AccountState, first: Transaction, second: Transaction)
    requires
        first.transaction_type == TransactionType::Resolve,
        second.transaction_type == TransactionType::Resolve,
        second.tx_id == first.tx_id,
        state.outcome(first) is Ok,
    ensures
        state.applied(first).outcome(second) == Err::<(), TransactionError>(
            TransactionError::ResolvedTransactionNotDisputed,
        ),
        state.applied(first).applied(second) == state.applied(first),
{
}

/// After a chargeback that succeeded, the transaction it referred to is no
/// longer under dispute, and a second chargeback on it fails and changes
/// nothing. The account is locked by then, so the failure is reported as
/// `AccountLocked`; the same history in an unlocked account would answer
/// `ChargebackWasNotDisputed`.
pub proof fn second_chargeback_is_rejected(
    state: AccountState,
    first: Transaction,
    second: Transaction,
)
    requires
        first.transaction_type == TransactionType::Chargeback,
        second.transaction_type == TransactionType::Chargeback,
        second.tx_id == first.tx_id,
        state.outcome(first) is Ok,
    ensures
        !state.applied(first).is_disputed(second.tx_id),
        state.applied(first).outcome(second) == Err::<(), TransactionError>(
            TransactionError::AccountLocked,
        ),
        state.applied(first).applied(second) == state.applied(first),
        (AccountState { locked: false, ..state.applied(first) }).rejection(second) == Some(
            TransactionError::ChargebackWasNotDisputed,
        ),
{
}

/// A dispute that succeeds, followed at once by a resolve of the same
/// transaction, succeeds too and restores every balance exactly. The
/// transaction is then committed again, and nothing else in the history has
/// changed.
pub proof fn dispute_then_resolve_restores_balances(
    state: AccountState,
    dispute: Transaction,
    resolve: Transaction,
)
    requires
        representable(state.available),
        representable(state.held),
        dispute.transaction_type == TransactionType::Dispute,
        resolve.transaction_type == TransactionType::Resolve,
        resolve.tx_id == dispute.tx_id,
        state.outcome(dispute) is Ok,
    ensures
        state.applied(dispute).outcome(resolve) is Ok,
        state.applied(dispute).applied(resolve).available == state.available,
        state.applied(dispute).applied(resolve).held == state.held,
        state.applied(dispute).applied(resolve).total == state.total,
        state.applied(dispute).applied(resolve).locked == state.locked,
        state.applied(dispute).applied(resolve).transactions == state.transactions.insert(
            dispute.tx_id,
            state.transactions[dispute.tx_id].with_status(TransactionStatus::Committed),
        ),
{
    let mid = state.applied(dispute);
    let end = mid.applied(resolve);
    assert(mid.is_disputed(resolve.tx_id));
    assert(end.transactions =~= state.transactions.insert(
        dispute.tx_id,
        state.transactions[dispute.tx_id].with_status(TransactionStatus::Committed),
    ));
}

} // verus!
