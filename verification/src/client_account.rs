use csv::StringRecord;
use std::collections::HashMap;
use vstd::prelude::*;
use vstd::std_specs::hash::*;

use crate::account_actor::TransactionError;
use crate::amount::{amount_text, format_amount};
use crate::decimal::{decimal_text, format_decimal};
use crate::record::record_fields;
use crate::transaction::{
    ClientID, Transaction, TransactionID, TransactionStatus, TransactionType,
};

verus! {

broadcast use group_hash_axioms;

/// Whether a balance, in ledger units, can be held by the ledger.
pub open spec fn representable(balance: int) -> bool {
    i64::MIN <= balance <= i64::MAX
}

/// The mathematical state of one client's account. Balances are in ledger
/// units; `transactions` is the history of stored deposits and withdrawals.
pub struct AccountState {
    pub client_id: ClientID,
    pub available: int,
    pub held: int,
    pub total: int,
    pub transactions: Map<TransactionID, Transaction>,
    pub locked: bool,
}

impl AccountState {
    /// The account of a client that has not been referred to yet.
    pub open spec fn initial(client_id: ClientID) -> AccountState {
        AccountState {
            client_id,
            available: 0,
            held: 0,
            total: 0,
            transactions: Map::empty(),
            locked: false,
        }
    }

    /// A stored record is a deposit or withdrawal with an amount, filed under
    /// its own identifier, that has been committed at least once.
    pub open spec fn stored_record_ok(self, id: TransactionID) -> bool {
        let t = self.transactions[id];
        &&& t.tx_id == id
        &&& t.amount is Some
        &&& (t.transaction_type == TransactionType::Deposit || t.transaction_type
            == TransactionType::Withdrawal)
        &&& (t.status == TransactionStatus::Committed || t.status == TransactionStatus::Disputed
            || t.status == TransactionStatus::Chargeback)
        &&& (t.status == TransactionStatus::Chargeback ==> self.locked)
    }

    /// The ledger invariant: the total is what is available plus what is held,
    /// every balance is representable, and the history holds stored records only.
    pub open spec fn wf(self) -> bool {
        &&& self.total == self.available + self.held
        &&& representable(self.available)
        &&& representable(self.held)
        &&& representable(self.total)
        &&& self.transactions.dom().finite()
        &&& forall|id: TransactionID| #[trigger]
            self.transactions.contains_key(id) ==> self.stored_record_ok(id)
    }

    /// Whether the transaction `id` refers to is stored and under dispute.
    pub open spec fn is_disputed(self, id: TransactionID) -> bool {
        self.transactions.contains_key(id) && self.transactions[id].status
            == TransactionStatus::Disputed
    }

    /// The account with its balances replaced.
    pub open spec fn with_balances(self, available: int, held: int, total: int) -> AccountState {
        AccountState { available, held, total, ..self }
    }

    /// The account with the stored transaction `id` set to `status`.
    pub open spec fn with_record_status(
        self,
        id: TransactionID,
        status: TransactionStatus,
    ) -> AccountState {
        AccountState {
            transactions: self.transactions.insert(id, self.transactions[id].with_status(status)),
            ..self
        }
    }

    /// What applying `tx` does to an unlocked account when nothing stands in
    /// its way, whether or not the resulting balances are representable.
    pub open spec fn effect(self, tx: Transaction) -> AccountState {
        let referred = self.transactions[tx.tx_id].moved_amount();
        match tx.transaction_type {
            TransactionType::Deposit => AccountState {
                available: self.available + tx.moved_amount(),
                total: self.total + tx.moved_amount(),
                transactions: self.transactions.insert(
                    tx.tx_id,
                    tx.with_status(TransactionStatus::Committed),
                ),
                ..self
            },
            TransactionType::Withdrawal => AccountState {
                available: self.available - tx.moved_amount(),
                total: self.total - tx.moved_amount(),
                transactions: self.transactions.insert(
                    tx.tx_id,
                    tx.with_status(TransactionStatus::Committed),
                ),
                ..self
            },
            TransactionType::Dispute => self.with_balances(
                self.available - referred,
                self.held + referred,
                self.total,
            ).with_record_status(tx.tx_id, TransactionStatus::Disputed),
            TransactionType::Resolve => self.with_balances(
                self.available + referred,
                self.held - referred,
                self.total,
            ).with_record_status(tx.tx_id, TransactionStatus::Committed),
            TransactionType::Chargeback => AccountState {
                locked: true,
                ..self.with_balances(self.available, self.held - referred, self.total - referred)
            }.with_record_status(tx.tx_id, TransactionStatus::Chargeback),
        }
    }

    /// The reason for which `tx` is turned down before any balance is touched,
    /// if there is one. A locked account turns everything down.
    pub open spec fn rejection(self, tx: Transaction) -> Option<TransactionError> {
        if self.locked {
            Some(TransactionError::AccountLocked)
        } else {
            match tx.transaction_type {
                TransactionType::Deposit => if tx.amount is None {
                    Some(TransactionError::MissingDepositAmount)
                } else {
                    None
                },
                TransactionType::Withdrawal => if self.available < tx.moved_amount() {
                    Some(TransactionError::InsufficientFundsForWithdrawal)
                } else {
                    None
                },
                TransactionType::Dispute => if !self.transactions.contains_key(tx.tx_id) {
                    Some(TransactionError::DisputedTransactionNotFound)
                } else {
                    None
                },
                TransactionType::Resolve => if !self.transactions.contains_key(tx.tx_id) {
                    Some(TransactionError::ResolvedTransactionNotFound)
                } else if !self.is_disputed(tx.tx_id) {
                    Some(TransactionError::ResolvedTransactionNotDisputed)
                } else {
                    None
                },
                TransactionType::Chargeback => if !self.transactions.contains_key(tx.tx_id) {
                    Some(TransactionError::ChargebackTransactionNotFound)
                } else if !self.is_disputed(tx.tx_id) {
                    Some(TransactionError::ChargebackWasNotDisputed)
                } else {
                    None
                },
            }
        }
    }

    /// Whether all three balances are representable.
    pub open spec fn balances_representable(self) -> bool {
        representable(self.available) && representable(self.held) && representable(self.total)
    }

    /// The result of applying `tx`: the rejection if there is one,
    /// `BalanceOutOfRange` if the effect would leave the representable range,
    /// success otherwise.
    pub open spec fn outcome(self, tx: Transaction) -> Result<(), TransactionError> {
        match self.rejection(tx) {
            Some(e) => Err(e),
            None => if self.effect(tx).balances_representable() {
                Ok(())
            } else {
                Err(TransactionError::BalanceOutOfRange)
            },
        }
    }

    /// The account after `tx` was handed to it: the effect of `tx` where it
    /// succeeds, the account unchanged where it fails.
    pub open spec fn applied(self, tx: Transaction) -> AccountState {
        if self.outcome(tx) is Ok {
            self.effect(tx)
        } else {
            self
        }
    }

    /// The account as one row of a report: the client, then what is
    /// available, held and the total, each with four fractional digits, then
    /// whether the account is locked.
    pub open spec fn row_text(self) -> Seq<Seq<char>> {
        seq![
            decimal_text(self.client_id as nat),
            amount_text(self.available),
            amount_text(self.held),
            amount_text(self.total),
            flag_text(self.locked),
        ]
    }

    /// Whether `tx` may be handed to the account: a withdrawal that reaches an
    /// unlocked account carries an amount.
    pub open spec fn admits(self, tx: Transaction) -> bool {
        self.locked || tx.transaction_type != TransactionType::Withdrawal || tx.amount is Some
    }
}

/// A flag written out: `true` or `false`.
pub open spec fn flag_text(flag: bool) -> Seq<char> {
    if flag {
        seq!['t', 'r', 'u', 'e']
    } else {
        seq!['f', 'a', 'l', 's', 'e']
    }
}

/// One client's balances, history of deposits and withdrawals, and lock.
#[derive(Debug, Clone)]
pub struct ClientAccount {
    client_id: ClientID,
    available: i64,
    held: i64,
    total: i64,
    transactions: HashMap<TransactionID, Transaction>,
    locked: bool,
}

impl View for ClientAccount {
    type V = AccountState;

    closed spec fn view(&self) -> AccountState {
        AccountState {
            client_id: self.client_id,
            available: self.available as int,
            held: self.held as int,
            total: self.total as int,
            transactions: self.transactions@,
            locked: self.locked,
        }
    }
}

/// `value` as a balance, if it is representable.
fn to_balance(value: i128) -> (b: Option<i64>)
    ensures
        b is Some <==> representable(value as int),
        b is Some ==> b->0 == value,
{
    if -0x8000_0000_0000_0000 <= value && value <= 0x7fff_ffff_ffff_ffff {
        Some(value as i64)
    } else {
        None
    }
}

impl ClientAccount {
    /// Whether the account satisfies the ledger invariant.
    pub open spec fn wf(&self) -> bool {
        self@.wf()
    }

    /// A fresh account: all balances zero, no history, not locked.
    pub fn new(id: ClientID) -> (account: ClientAccount)
        ensures
            account@ == AccountState::initial(id),
            account.wf(),
    {
        ClientAccount {
            client_id: id,
            available: 0,
            held: 0,
            total: 0,
            transactions: HashMap::new(),
            locked: false,
        }
    }

    /// The client whose account this is.
    pub fn client_id(&self) -> (id: ClientID)
        ensures
            id == self@.client_id,
    {
        self.client_id
    }

    /// The funds the client can withdraw, in ledger units.
    pub fn available(&self) -> (units: i64)
        ensures
            units == self@.available,
    {
        self.available
    }

    /// The funds frozen by disputes, in ledger units.
    pub fn held(&self) -> (units: i64)
        ensures
            units == self@.held,
    {
        self.held
    }

    /// The client's full balance, in ledger units.
    pub fn total(&self) -> (units: i64)
        ensures
            units == self@.total,
    {
        self.total
    }

    /// Whether a chargeback has locked the account.
    pub fn locked(&self) -> (locked: bool)
        ensures
            locked == self@.locked,
    {
        self.locked
    }

    /// The stored deposit or withdrawal filed under `id`, if there is one.
    pub fn transaction(&self, id: TransactionID) -> (t: Option<Transaction>)
        ensures
            t == (if self@.transactions.contains_key(id) {
                Some(self@.transactions[id])
            } else {
                None
            }),
    {
        match self.transactions.get(&id) {
            Some(t) => Some(*t),
            None => None,
        }
    }

    /// Whether `transaction` may be handed to this account.
    pub fn admits(&self, transaction: &Transaction) -> (b: bool)
        ensures
            b == self@.admits(*transaction),
    {
        self.locked || transaction.transaction_type != TransactionType::Withdrawal
            || transaction.amount.is_some()
    }

    /// The account as a record of five fields for a report.
    pub fn to_record(&self) -> (record: StringRecord)
        ensures
            record_fields(record) == self@.row_text(),
    {
        let mut record = StringRecord::new();
        record.push_field(format_decimal(self.client_id as u64).as_str());
        record.push_field(format_amount(self.available).as_str());
        record.push_field(format_amount(self.held).as_str());
        record.push_field(format_amount(self.total).as_str());
        let locked = if self.locked {
            "true"
        } else {
            "false"
        };
        record.push_field(locked);
        proof {
            reveal_strlit("true");
            reveal_strlit("false");
            assert(locked@ =~= flag_text(self.locked));
            assert(record_fields(record) =~= self@.row_text());
        }
        record
    }

    /// Applies one transaction. On success the balances, the history and the
    /// lock change as the transaction's kind says; on failure nothing changes.
    pub fn apply_transaction(&mut self, transaction: Transaction) -> (result: Result<
        (),
        TransactionError,
    >)
        requires
            old(self).wf(),
            old(self)@.admits(transaction),
        ensures
            result == old(self)@.outcome(transaction),
            final(self)@ == old(self)@.applied(transaction),
            final(self).wf(),
    {
        if self.locked {
            return Err(TransactionError::AccountLocked);
        }
        match transaction.transaction_type {
            TransactionType::Deposit => self.deposit(transaction),
            TransactionType::Withdrawal => self.withdrawal(transaction),
            TransactionType::Dispute => self.dispute(transaction),
            TransactionType::Resolve => self.resolve(transaction),
            TransactionType::Chargeback => self.chargeback(transaction),
        }
    }

    fn deposit(&mut self, transaction: Transaction) -> (result: Result<(), TransactionError>)
        requires
            old(self).wf(),
            !old(self)@.locked,
            transaction.transaction_type == TransactionType::Deposit,
        ensures
            result == old(self)@.outcome(transaction),
            final(self)@ == old(self)@.applied(transaction),
            final(self).wf(),
    {
        let Some(amount) = transaction.amount else {
            return Err(TransactionError::MissingDepositAmount);
        };
        let available = to_balance(self.available as i128 + amount as i128);
        let total = to_balance(self.total as i128 + amount as i128);
        match (available, total) {
            (Some(available), Some(total)) => {
                self.available = available;
                self.total = total;
                let mut stored = transaction;
                stored.status = TransactionStatus::Committed;
                self.transactions.insert(transaction.tx_id, stored);
                proof {
                    assert(final(self)@ =~= old(self)@.effect(transaction));
                }
                Ok(())
            },
            _ => Err(TransactionError::BalanceOutOfRange),
        }
    }

    fn withdrawal(&mut self, transaction: Transaction) -> (result: Result<(), TransactionError>)
        requires
            old(self).wf(),
            !old(self)@.locked,
            transaction.transaction_type == TransactionType::Withdrawal,
            transaction.amount is Some,
        ensures
            result == old(self)@.outcome(transaction),
            final(self)@ == old(self)@.applied(transaction),
            final(self).wf(),
    {
        let amount = transaction.amount.unwrap();
        if (self.available as i128) < amount as i128 {
            return Err(TransactionError::InsufficientFundsForWithdrawal);
        }
        let available = to_balance(self.available as i128 - amount as i128);
        let total = to_balance(self.total as i128 - amount as i128);
        match (available, total) {
            (Some(available), Some(total)) => {
                self.available = available;
                self.total = total;
                let mut stored = transaction;
                stored.status = TransactionStatus::Committed;
                self.transactions.insert(transaction.tx_id, stored);
                proof {
                    assert(final(self)@ =~= old(self)@.effect(transaction));
                }
                Ok(())
            },
            _ => Err(TransactionError::BalanceOutOfRange),
        }
    }
    fn dispute(&mut self, transaction: Transaction) -> (result: Result<(), TransactionError>)
        requires
            old(self).wf(),
            !old(self)@.locked,
            transaction.transaction_type == TransactionType::Dispute,
        ensures
            result == old(self)@.outcome(transaction),
            final(self)@ == old(self)@.applied(transaction),
            final(self).wf(),
    {
        let Some(mut stored) = self.transaction(transaction.tx_id) else {
            return Err(TransactionError::DisputedTransactionNotFound);
        };
        let amount = match stored.amount {
            Some(a) => a as i128,
            None => 0,
        };
        let available = to_balance(self.available as i128 - amount);
        let held = to_balance(self.held as i128 + amount);
        match (available, held) {
            (Some(available), Some(held)) => {
                stored.status = TransactionStatus::Disputed;
                self.transactions.insert(transaction.tx_id, stored);
                self.available = available;
                self.held = held;
                proof {
                    assert(final(self)@ =~= old(self)@.effect(transaction));
                }
                Ok(())
            },
            _ => Err(TransactionError::BalanceOutOfRange),
        }
    }

    fn resolve(&mut self, transaction: Transaction) -> (result: Result<(), TransactionError>)
        requires
            old(self).wf(),
            !old(self)@.locked,
            transaction.transaction_type == TransactionType::Resolve,
        ensures
            result == old(self)@.outcome(transaction),
            final(self)@ == old(self)@.applied(transaction),
            final(self).wf(),
    {
        let Some(mut stored) = self.transaction(transaction.tx_id) else {
            return Err(TransactionError::ResolvedTransactionNotFound);
        };
        if stored.status != TransactionStatus::Disputed {
            return Err(TransactionError::ResolvedTransactionNotDisputed);
        }
        let amount = match stored.amount {
            Some(a) => a as i128,
            None => 0,
        };
        let available = to_balance(self.available as i128 + amount);
        let held = to_balance(self.held as i128 - amount);
        match (available, held) {
            (Some(available), Some(held)) => {
                stored.status = TransactionStatus::Committed;
                self.transactions.insert(transaction.tx_id, stored);
                self.available = available;
                self.held = held;
                proof {
                    assert(final(self)@ =~= old(self)@.effect(transaction));
                }
                Ok(())
            },
            _ => Err(TransactionError::BalanceOutOfRange),
        }
    }

    fn chargeback(&mut self, transaction: Transaction) -> (result: Result<(), TransactionError>)
        requires
            old(self).wf(),
            !old(self)@.locked,
            transaction.transaction_type == TransactionType::Chargeback,
        ensures
            result == old(self)@.outcome(transaction),
            final(self)@ == old(self)@.applied(transaction),
            final(self).wf(),
    {
        let Some(mut stored) = self.transaction(transaction.tx_id) else {
            return Err(TransactionError::ChargebackTransactionNotFound);
        };
        if stored.status != TransactionStatus::Disputed {
            return Err(TransactionError::ChargebackWasNotDisputed);
        }
        let amount = match stored.amount {
            Some(a) => a as i128,
            None => 0,
        };
        let total = to_balance(self.total as i128 - amount);
        let held = to_balance(self.held as i128 - amount);
        match (total, held) {
            (Some(total), Some(held)) => {
                stored.status = TransactionStatus::Chargeback;
                self.transactions.insert(transaction.tx_id, stored);
                self.total = total;
                self.held = held;
                self.locked = true;
                proof {
                    assert(final(self)@ =~= old(self)@.effect(transaction));
                }
                Ok(())
            },
            _ => Err(TransactionError::BalanceOutOfRange),
        }
    }
}

} // verus!
