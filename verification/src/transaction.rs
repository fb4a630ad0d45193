use csv::StringRecord;
use vstd::prelude::*;

use crate::account_actor::TransactionError;
use crate::amount::{amount_value, parse_amount};
use crate::decimal::{parse_unsigned, unsigned_value};
use crate::record::record_fields;
use crate::text::{chars_of, cleaned, lowered, spells, strip_quotes, to_lower, trim};

verus! {

/// Identifies a client; the key of the ledger's account table.
pub type ClientID = u16;

/// Identifies a deposit or a withdrawal. A dispute, resolve or chargeback
/// carries the identifier of the deposit or withdrawal it refers to.
pub type TransactionID = u32;

/// An amount of money in ledger units: ten-thousandths of a whole currency unit.
pub type Amount = u64;

/// The kinds of ledger event.
#[derive(Debug, Clone, Copy, PartialEq, Eq, Structural)]
pub enum TransactionType {
    Deposit,
    Withdrawal,
    Dispute,
    Resolve,
    Chargeback,
}

/// Where a stored deposit or withdrawal stands in the dispute protocol.
#[derive(Debug, Clone, Copy, PartialEq, Eq, Structural)]
pub enum TransactionStatus {
    NotYetCommitted,
    Committed,
    Disputed,
    Chargeback,
    Error(TransactionError),
}

/// One ledger event. `amount` is given in ledger units and is present on
/// deposits and withdrawals only.
#[derive(Debug, Clone, Copy, PartialEq, Eq)]
pub struct Transaction {
    pub transaction_type: TransactionType,
    pub client_id: ClientID,
    pub tx_id: TransactionID,
    pub amount: Option<Amount>,
    pub status: TransactionStatus,
}

/// Why a record is no transaction.
#[derive(Debug, Clone, Copy, PartialEq, Eq, Structural)]
pub enum TransactionValidationError {
    MissingTransactionType,
    MissingAmountForWithdrawal,
    MissingAmountForDeposit,
    MissingClientID,
    MissingTransactionID,
    InvalidTransactionType,
    InvalidAmountFormat,
    InvalidIDFormat,
}

/// The kind of transaction that `word` names.
pub open spec fn type_named(word: Seq<char>) -> Option<TransactionType> {
    if word == "deposit"@ {
        Some(TransactionType::Deposit)
    } else if word == "withdrawal"@ {
        Some(TransactionType::Withdrawal)
    } else if word == "dispute"@ {
        Some(TransactionType::Dispute)
    } else if word == "resolve"@ {
        Some(TransactionType::Resolve)
    } else if word == "chargeback"@ {
        Some(TransactionType::Chargeback)
    } else {
        None
    }
}

/// The kind of transaction that a record names in its first field, in
/// whatever case the letters are.
pub open spec fn parsed_type(fields: Seq<Seq<char>>) -> Result<
    TransactionType,
    TransactionValidationError,
> {
    if fields.len() == 0 {
        Err(TransactionValidationError::MissingTransactionType)
    } else {
        match type_named(lowered(cleaned(fields[0]))) {
            Some(transaction_type) => Ok(transaction_type),
            None => Err(TransactionValidationError::InvalidTransactionType),
        }
    }
}

/// The largest identifier that field `index` of a record may hold: field one
/// names a client, any other field a transaction.
pub open spec fn id_limit(index: int) -> nat {
    if index == 1 {
        u16::MAX as nat
    } else {
        u32::MAX as nat
    }
}

/// The identifier that a record holds in field `index`: the client in field
/// one, the transaction in any other. It is a whole number of at most
/// `id_limit(index)`.
pub open spec fn parsed_id(fields: Seq<Seq<char>>, index: int) -> Result<
    TransactionID,
    TransactionValidationError,
> {
    if !(0 <= index < fields.len()) {
        if index == 1 {
            Err(TransactionValidationError::MissingClientID)
        } else {
            Err(TransactionValidationError::MissingTransactionID)
        }
    } else {
        match unsigned_value(cleaned(fields[index])) {
            Some(n) => if n <= id_limit(index) {
                Ok(n as TransactionID)
            } else {
                Err(TransactionValidationError::InvalidIDFormat)
            },
            None => Err(TransactionValidationError::InvalidIDFormat),
        }
    }
}

/// The amount that a record holds in its fourth field. A deposit or a
/// withdrawal must have one; a fourth field, where there is one, must write
/// an amount whatever the kind.
pub open spec fn parsed_amount(fields: Seq<Seq<char>>, transaction_type: TransactionType) -> Result<
    Option<Amount>,
    TransactionValidationError,
> {
    if fields.len() > 3 {
        match amount_value(cleaned(fields[3])) {
            Some(n) => if n <= u64::MAX {
                Ok(Some(n as Amount))
            } else {
                Err(TransactionValidationError::InvalidAmountFormat)
            },
            None => Err(TransactionValidationError::InvalidAmountFormat),
        }
    } else {
        match transaction_type {
            TransactionType::Deposit => Err(TransactionValidationError::MissingAmountForDeposit),
            TransactionType::Withdrawal => Err(
                TransactionValidationError::MissingAmountForWithdrawal,
            ),
            _ => Ok(None),
        }
    }
}

/// The transaction that a record of the fields kind, client, transaction and
/// amount writes, or the first reason, in that order of the fields, for which
/// it writes none.
pub open spec fn parsed_transaction(fields: Seq<Seq<char>>) -> Result<
    Transaction,
    TransactionValidationError,
> {
    match parsed_type(fields) {
        Err(e) => Err(e),
        Ok(transaction_type) => match parsed_id(fields, 1) {
            Err(e) => Err(e),
            Ok(client_id) => match parsed_id(fields, 2) {
                Err(e) => Err(e),
                Ok(tx_id) => match parsed_amount(fields, transaction_type) {
                    Err(e) => Err(e),
                    Ok(amount) => Ok(
                        Transaction {
                            transaction_type,
                            client_id: client_id as ClientID,
                            tx_id,
                            amount,
                            status: TransactionStatus::NotYetCommitted,
                        },
                    ),
                },
            },
        },
    }
}

/// The characters of a field without quotation marks and the white space
/// around what is left.
pub fn clean_field(field: &str) -> (chars: Vec<char>)
    ensures
        chars@ == cleaned(field@),
{
    let chars = chars_of(field);
    let unquoted = strip_quotes(&chars);
    trim(&unquoted)
}

/// Reads the kind of transaction from the first field of a record.
pub fn parse_and_validate_transaction_type(record: &StringRecord) -> (result: Result<
    TransactionType,
    TransactionValidationError,
>)
    ensures
        result == parsed_type(record_fields(*record)),
{
    let Some(field) = record.get(0) else {
        return Err(TransactionValidationError::MissingTransactionType);
    };
    let word = to_lower(&clean_field(field));
    if spells(&word, "deposit") {
        Ok(TransactionType::Deposit)
    } else if spells(&word, "withdrawal") {
        Ok(TransactionType::Withdrawal)
    } else if spells(&word, "dispute") {
        Ok(TransactionType::Dispute)
    } else if spells(&word, "resolve") {
        Ok(TransactionType::Resolve)
    } else if spells(&word, "chargeback") {
        Ok(TransactionType::Chargeback)
    } else {
        Err(TransactionValidationError::InvalidTransactionType)
    }
}

/// Reads the amount, in ledger units, from the fourth field of a record.
pub fn parse_and_validate_amount(record: &StringRecord, transaction_type: TransactionType) -> (result:
    Result<Option<Amount>, TransactionValidationError>)
    ensures
        result == parsed_amount(record_fields(*record), transaction_type),
{
    if let Some(field) = record.get(3) {
        return match parse_amount(&clean_field(field)) {
            Some(amount) => Ok(Some(amount)),
            None => Err(TransactionValidationError::InvalidAmountFormat),
        };
    }
    match transaction_type {
        TransactionType::Deposit => Err(TransactionValidationError::MissingAmountForDeposit),
        TransactionType::Withdrawal => Err(TransactionValidationError::MissingAmountForWithdrawal),
        _ => Ok(None),
    }
}

/// Reads a client or transaction identifier from field `record_index` of a
/// record. What field one holds fits a `ClientID`.
pub fn parse_and_validate_id(record: &StringRecord, record_index: usize) -> (result: Result<
    TransactionID,
    TransactionValidationError,
>)
    ensures
        result == parsed_id(record_fields(*record), record_index as int),
{
    if let Some(field) = record.get(record_index) {
        let limit: u64 = if record_index == 1 {
            0xffff
        } else {
            0xffff_ffff
        };
        match parse_unsigned(&clean_field(field), limit) {
            Some(id) => Ok(id as TransactionID),
            None => Err(TransactionValidationError::InvalidIDFormat),
        }
    } else if record_index == 1 {
        Err(TransactionValidationError::MissingClientID)
    } else {
        Err(TransactionValidationError::MissingTransactionID)
    }
}

impl Transaction {
    /// The amount a stored transaction moves when it is disputed, resolved or
    /// charged back: its own amount, or nothing where it carries none.
    pub open spec fn moved_amount(self) -> int {
        match self.amount {
            Some(a) => a as int,
            None => 0,
        }
    }

    /// This transaction as it is kept in an account's history with `status`.
    pub open spec fn with_status(self, status: TransactionStatus) -> Transaction {
        Transaction { status, ..self }
    }

    /// A transaction that has not been applied to any account yet.
    pub fn new(
        transaction_type: TransactionType,
        client_id: ClientID,
        tx_id: TransactionID,
        amount: Option<Amount>,
    ) -> (t: Transaction)
        ensures
            t == (Transaction {
                transaction_type,
                client_id,
                tx_id,
                amount,
                status: TransactionStatus::NotYetCommitted,
            }),
    {
        Transaction {
            transaction_type,
            client_id,
            tx_id,
            amount,
            status: TransactionStatus::NotYetCommitted,
        }
    }
}

impl TryFrom<StringRecord> for Transaction {
    type Error = TransactionValidationError;

    /// The transaction that a record writes.
    fn try_from(record: StringRecord) -> (result: Result<Transaction, TransactionValidationError>) {
        let transaction_type = match parse_and_validate_transaction_type(&record) {
            Ok(transaction_type) => transaction_type,
            Err(e) => return Err(e),
        };
        let client_id = match parse_and_validate_id(&record, 1) {
            Ok(id) => id,
            Err(e) => return Err(e),
        };
        let tx_id = match parse_and_validate_id(&record, 2) {
            Ok(id) => id,
            Err(e) => return Err(e),
        };
        let amount = match parse_and_validate_amount(&record, transaction_type) {
            Ok(amount) => amount,
            Err(e) => return Err(e),
        };
        Ok(Transaction::new(transaction_type, client_id as ClientID, tx_id, amount))
    }
}

impl vstd::std_specs::convert::TryFromSpecImpl<StringRecord> for Transaction {
    open spec fn obeys_try_from_spec() -> bool {
        true
    }

    open spec fn try_from_spec(record: StringRecord) -> Result<
        Transaction,
        TransactionValidationError,
    > {
        parsed_transaction(record_fields(record))
    }
}

} // verus!
