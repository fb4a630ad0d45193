use account_ledger::account_actor::AccountActor;
use account_ledger::amount::{format_amount, parse_amount};
use account_ledger::client_account::ClientAccount;
use account_ledger::csv_io::{get_output_headers, validate_headers, ReaderHeaderValidationError};
use account_ledger::decimal::format_decimal;
use account_ledger::transaction::{Transaction, TransactionType};
use csv::StringRecord;

#[test]
fn amounts_are_written_with_four_fractional_digits() {
    assert_eq!(format_amount(0), "0.0000");
    assert_eq!(format_amount(10000), "1.0000");
    assert_eq!(format_amount(5), "0.0005");
    assert_eq!(format_amount(12345678), "1234.5678");
    assert_eq!(format_amount(100200), "10.0200");
    assert_eq!(format_amount(-5), "-0.0005");
    assert_eq!(format_amount(-40000), "-4.0000");
    assert_eq!(format_amount(i64::MAX), "922337203685477.5807");
    assert_eq!(format_amount(i64::MIN), "-922337203685477.5808");
}

#[test]
fn whole_numbers_are_written_in_decimal() {
    assert_eq!(format_decimal(0), "0");
    assert_eq!(format_decimal(9), "9");
    assert_eq!(format_decimal(10), "10");
    assert_eq!(format_decimal(65535), "65535");
    assert_eq!(format_decimal(u64::MAX), "18446744073709551615");
}

#[test]
fn written_amounts_read_back() {
    for units in [0u64, 1, 9999, 10000, 10001, 123456789, i64::MAX as u64] {
        let text: Vec<char> = format_amount(units as i64).chars().collect();
        assert_eq!(parse_amount(&text), Some(units));
    }
}

#[test]
fn account_record_has_five_fields() {
    let mut account = ClientAccount::new(12);
    account
        .apply_transaction(Transaction::new(TransactionType::Deposit, 12, 1, Some(25000)))
        .unwrap();
    account
        .apply_transaction(Transaction::new(TransactionType::Deposit, 12, 2, Some(12345)))
        .unwrap();
    account
        .apply_transaction(Transaction::new(TransactionType::Dispute, 12, 2, None))
        .unwrap();
    let record = account.to_record();
    assert_eq!(record, vec!["12", "2.5000", "1.2345", "3.7345", "false"]);
    account
        .apply_transaction(Transaction::new(TransactionType::Chargeback, 12, 2, None))
        .unwrap();
    assert_eq!(account.to_record(), vec!["12", "2.5000", "0.0000", "2.5000", "true"]);
}

#[test]
fn negative_balance_is_written_with_a_sign() {
    let mut account = ClientAccount::new(1);
    account
        .apply_transaction(Transaction::new(TransactionType::Deposit, 1, 1, Some(50000)))
        .unwrap();
    account
        .apply_transaction(Transaction::new(TransactionType::Withdrawal, 1, 2, Some(40000)))
        .unwrap();
    account
        .apply_transaction(Transaction::new(TransactionType::Dispute, 1, 1, None))
        .unwrap();
    assert_eq!(account.to_record(), vec!["1", "-4.0000", "5.0000", "1.0000", "false"]);
}

#[test]
fn output_headers_name_the_five_columns() {
    let headers = get_output_headers();
    assert_eq!(headers.len(), 5);
    assert_eq!(headers, vec!["client", "available", "held", "total", "locked"]);
}

#[test]
fn snapshot_lists_every_client_once() {
    let mut actor = AccountActor::new();
    assert_eq!(actor.snapshot().len(), 0);
    for (client, tx, units) in [(3u16, 1u32, 10000u64), (1, 2, 20000), (2, 3, 30000), (1, 4, 5)] {
        actor
            .process_transaction(Transaction::new(TransactionType::Deposit, client, tx, Some(units)))
            .unwrap();
    }
    let mut rows: Vec<Vec<String>> = actor
        .snapshot()
        .iter()
        .map(|record| record.iter().map(|field| field.to_string()).collect())
        .collect();
    rows.sort();
    assert_eq!(
        rows,
        vec![
            vec!["1", "2.0005", "0.0000", "2.0005", "false"],
            vec!["2", "3.0000", "0.0000", "3.0000", "false"],
            vec!["3", "1.0000", "0.0000", "1.0000", "false"],
        ]
    );
}

#[test]
fn snapshot_leaves_out_failed_transactions() {
    let mut actor = AccountActor::new();
    actor
        .process_transaction(Transaction::new(TransactionType::Deposit, 1, 1, Some(10000)))
        .unwrap();
    assert!(actor
        .process_transaction(Transaction::new(TransactionType::Withdrawal, 1, 2, Some(15000)))
        .is_err());
    let records = actor.snapshot();
    assert_eq!(records.len(), 1);
    assert_eq!(records[0], vec!["1", "1.0000", "0.0000", "1.0000", "false"]);
}

#[test]
fn headers_in_any_case_and_spacing_are_accepted() {
    let headers = StringRecord::from(vec!["type", "client", "tx", "amount"]);
    assert_eq!(validate_headers(true, Some(&headers)), Ok(()));
    let headers = StringRecord::from(vec![" Type", "CLIENT ", "\tTx", " amount\n", "note"]);
    assert_eq!(validate_headers(true, Some(&headers)), Ok(()));
}

#[test]
fn wrong_or_missing_headers_are_rejected() {
    let headers = StringRecord::from(vec!["type", "client", "tx"]);
    assert_eq!(
        validate_headers(true, Some(&headers)),
        Err(ReaderHeaderValidationError::MissingHeaders)
    );
    let headers = StringRecord::from(vec!["client", "type", "tx", "amount"]);
    assert_eq!(
        validate_headers(true, Some(&headers)),
        Err(ReaderHeaderValidationError::MissingHeaders)
    );
    let headers = StringRecord::from(vec!["\"type\"", "client", "tx", "amount"]);
    assert_eq!(
        validate_headers(true, Some(&headers)),
        Err(ReaderHeaderValidationError::MissingHeaders)
    );
    assert_eq!(
        validate_headers(true, Some(&StringRecord::new())),
        Err(ReaderHeaderValidationError::MissingHeaders)
    );
}

#[test]
fn input_without_header_row_is_rejected() {
    let headers = StringRecord::from(vec!["type", "client", "tx", "amount"]);
    assert_eq!(
        validate_headers(false, Some(&headers)),
        Err(ReaderHeaderValidationError::NoHeaders)
    );
    assert_eq!(validate_headers(false, None), Err(ReaderHeaderValidationError::NoHeaders));
}

#[test]
fn unreadable_header_row_is_rejected() {
    assert_eq!(validate_headers(true, None), Err(ReaderHeaderValidationError::HeaderReadFailure));
}
