use csv::StringRecord;
use std::collections::HashMap;
use vstd::prelude::*;
use vstd::std_specs::hash::*;
use vstd::std_specs::iter::IteratorSpec;

use crate::client_account::{AccountState, ClientAccount};
use crate::csv_io::{get_output_headers, output_headers};
use crate::record::record_fields;
use crate::transaction::{ClientID, Transaction};

verus! {

broadcast use group_hash_axioms;

/// Why a transaction was not applied. The account is left as it was.
#[derive(Debug, Clone, Copy, PartialEq, Eq, Structural)]
pub enum TransactionError {
    AccountLocked,
    InsufficientFundsForWithdrawal,
    MissingDepositAmount,
    MissingWithdrawalAmount,
    ChargebackWasNotDisputed,
    ChargebackTransactionNotFound,
    DisputedTransactionNotFound,
    ResolvedTransactionNotFound,
    ResolvedTransactionNotDisputed,
    /// A balance would leave the range that the ledger can represent.
    BalanceOutOfRange,
}

/// The mathematical state of the ledger: the account of every client that a
/// transaction has referred to so far.
pub type LedgerState = Map<ClientID, AccountState>;

/// The ledger invariant: every account satisfies the account invariant and is
/// filed under its own client.
pub open spec fn ledger_wf(ledger: LedgerState) -> bool {
    &&& ledger.dom().finite()
    &&& forall|id: ClientID| #[trigger]
        ledger.contains_key(id) ==> ledger[id].wf() && ledger[id].client_id == id
}

/// The account of `client`: the one on file, or a fresh one where the client
/// has not been referred to yet.
pub open spec fn account_of(ledger: LedgerState, client: ClientID) -> AccountState {
    if ledger.contains_key(client) {
        ledger[client]
    } else {
        AccountState::initial(client)
    }
}

/// The ledger after `tx` was routed to its client's account. The account is
/// on file afterwards, whether the transaction succeeded or not.
pub open spec fn processed(ledger: LedgerState, tx: Transaction) -> LedgerState {
    ledger.insert(tx.client_id, account_of(ledger, tx.client_id).applied(tx))
}

/// The text of each record of a sequence.
pub open spec fn records_text(records: Seq<StringRecord>) -> Seq<Seq<Seq<char>>> {
    records.map_values(|record: StringRecord| record_fields(record))
}

/// Whether `rows` holds the report row of every account of the ledger exactly
/// once, the clients in the order of `order`.
pub open spec fn lists_accounts(
    rows: Seq<Seq<Seq<char>>>,
    order: Seq<ClientID>,
    ledger: LedgerState,
) -> bool {
    &&& order.no_duplicates()
    &&& order.to_set() == ledger.dom()
    &&& rows.len() == order.len()
    &&& forall|i: int| 0 <= i < rows.len() ==> #[trigger] rows[i] == ledger[order[i]].row_text()
}

/// Whether `rows` is a report of the ledger: one row for each account, in
/// some order.
pub open spec fn is_snapshot(rows: Seq<Seq<Seq<char>>>, ledger: LedgerState) -> bool {
    exists|order: Seq<ClientID>| lists_accounts(rows, order, ledger)
}

/// Whether `rows` is a full report of the ledger: the header row, then one
/// row for each account, in some order.
pub open spec fn is_report(rows: Seq<Seq<Seq<char>>>, ledger: LedgerState) -> bool {
    &&& rows.len() > 0
    &&& rows[0] == output_headers()
    &&& is_snapshot(rows.drop_first(), ledger)
}

/// What can be asked of the ledger.
#[derive(Debug)]
pub enum TransactionCommand {
    /// Apply this transaction.
    ProcessTransaction(Transaction),
    /// Report every account.
    WriteClientsToStdout,
}

/// What the ledger answers to a command.
#[derive(Debug)]
pub enum CommandReply {
    /// The transaction was handed to its account, which answered this.
    Processed(Result<(), TransactionError>),
    /// The records to write out, in this order.
    ClientRecords(Vec<StringRecord>),
}

/// What a command, answered with `reply`, makes of the ledger `before`.
pub open spec fn answers(
    before: LedgerState,
    command: TransactionCommand,
    reply: CommandReply,
    after: LedgerState,
) -> bool {
    match command {
        TransactionCommand::ProcessTransaction(transaction) => {
            &&& reply matches CommandReply::Processed(result)
            &&& result == account_of(before, transaction.client_id).outcome(transaction)
            &&& after == processed(before, transaction)
        },
        TransactionCommand::WriteClientsToStdout => {
            &&& reply matches CommandReply::ClientRecords(records)
            &&& is_report(records_text(records@), before)
            &&& after == before
        },
    }
}

/// Whether a command may be handed to the ledger.
pub open spec fn admits_command(ledger: LedgerState, command: TransactionCommand) -> bool {
    command matches TransactionCommand::ProcessTransaction(transaction) ==> account_of(
        ledger,
        transaction.client_id,
    ).admits(transaction)
}

/// Owns the account of every client and routes each transaction to the
/// account of its client.
pub struct AccountActor {
    accounts: HashMap<ClientID, ClientAccount>,
}

impl View for AccountActor {
    type V = LedgerState;

    closed spec fn view(&self) -> LedgerState {
        Map::new(
            |id: ClientID| self.accounts@.contains_key(id),
            |id: ClientID| self.accounts@[id]@,
        )
    }
}

impl AccountActor {
    /// Whether the ledger satisfies the ledger invariant.
    pub open spec fn wf(&self) -> bool {
        ledger_wf(self@)
    }

    /// A ledger without accounts.
    pub fn new() -> (actor: AccountActor)
        ensures
            actor@ == LedgerState::empty(),
            actor.wf(),
    {
        let actor = AccountActor { accounts: HashMap::new() };
        proof {
            assert(actor@ =~= LedgerState::empty());
        }
        actor
    }

    /// The number of clients on file.
    pub fn client_count(&self) -> (n: usize)
        ensures
            n == self@.dom().len(),
    {
        proof {
            assert(self@.dom() =~= self.accounts@.dom());
        }
        self.accounts.len()
    }

    /// Routes `transaction` to the account of its client, which is opened
    /// first where the client is new, and hands back what the account answers.
    pub fn process_transaction(&mut self, transaction: Transaction) -> (result: Result<
        (),
        TransactionError,
    >)
        requires
            old(self).wf(),
            account_of(old(self)@, transaction.client_id).admits(transaction),
        ensures
            result == account_of(old(self)@, transaction.client_id).outcome(transaction),
            final(self)@ == processed(old(self)@, transaction),
            final(self).wf(),
    {
        let client_id = transaction.client_id;
        self.get_or_create_account(client_id);
        let mut account = self.accounts.remove(&client_id).unwrap();
        let result = account.apply_transaction(transaction);
        self.accounts.insert(client_id, account);
        proof {
            assert(final(self)@ =~= processed(old(self)@, transaction));
        }
        result
    }

    /// The account of `client_id`, where the client is on file.
    pub fn account(&self, client_id: ClientID) -> (account: Option<&ClientAccount>)
        ensures
            match account {
                Some(found) => self@.contains_key(client_id) && found@ == self@[client_id],
                None => !self@.contains_key(client_id),
            },
    {
        self.accounts.get(&client_id)
    }

    /// Whether `command` may be handed to the ledger.
    pub fn admits(&self, command: &TransactionCommand) -> (b: bool)
        ensures
            b == admits_command(self@, *command),
    {
        match command {
            TransactionCommand::ProcessTransaction(transaction) => {
                match self.accounts.get(&transaction.client_id) {
                    Some(account) => account.admits(transaction),
                    None => ClientAccount::new(transaction.client_id).admits(transaction),
                }
            },
            TransactionCommand::WriteClientsToStdout => true,
        }
    }

    /// Answers one command: applies the transaction, or reports every account.
    pub fn handle_command(&mut self, command: TransactionCommand) -> (reply: CommandReply)
        requires
            old(self).wf(),
            admits_command(old(self)@, command),
        ensures
            answers(old(self)@, command, reply, final(self)@),
            final(self).wf(),
    {
        match command {
            TransactionCommand::ProcessTransaction(transaction) => CommandReply::Processed(
                self.process_transaction(transaction),
            ),
            TransactionCommand::WriteClientsToStdout => {
                let mut records: Vec<StringRecord> = Vec::new();
                records.push(get_output_headers());
                let mut accounts = self.snapshot();
                let ghost rows = records_text(accounts@);
                records.append(&mut accounts);
                proof {
                    assert(records_text(records@).drop_first() =~= rows);
                }
                CommandReply::ClientRecords(records)
            },
        }
    }

    /// One record for each account on file, in no particular order.
    pub fn snapshot(&self) -> (records: Vec<StringRecord>)
        ensures
            is_snapshot(records_text(records@), self@),
    {
        let mut records: Vec<StringRecord> = Vec::new();
        let ghost order = spec_keys_iter(&self.accounts).remaining().unref();
        for client in it: self.accounts.keys()
            invariant
                it.seq().unref() == order,
                records.len() == it.index(),
                forall|i: int|
                    0 <= i < records.len() ==> record_fields(#[trigger] records@[i])
                        == self@[order[i]].row_text(),
        {
            let account = self.accounts.get(client).unwrap();
            records.push(account.to_record());
        }
        proof {
            assert(self@.dom() =~= self.accounts@.dom());
            assert(lists_accounts(records_text(records@), order, self@));
        }
        records
    }

    /// Opens the account of `client_id` where there is none yet.
    fn get_or_create_account(&mut self, client_id: ClientID)
        requires
            old(self).wf(),
        ensures
            final(self)@ == old(self)@.insert(client_id, account_of(old(self)@, client_id)),
            final(self)@.contains_key(client_id),
            final(self).wf(),
    {
        if !self.accounts.contains_key(&client_id) {
            let account = ClientAccount::new(client_id);
            self.accounts.insert(client_id, account);
        }
        proof {
            assert(final(self)@ =~= old(self)@.insert(client_id, account_of(old(self)@, client_id)));
        }
    }
}

} // verus!
