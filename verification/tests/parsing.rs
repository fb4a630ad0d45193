use account_ledger::amount::parse_amount;
use account_ledger::decimal::{parse_unsigned, read_digits, Reading};
use account_ledger::text::{chars_of, is_space_char, spells, strip_quotes, to_lower, trim};
use account_ledger::transaction::{
    clean_field, parse_and_validate_amount, parse_and_validate_id,
    parse_and_validate_transaction_type, Transaction, TransactionStatus, TransactionType,
    TransactionValidationError,
};
use csv::StringRecord;

fn chars(text: &str) -> Vec<char> {
    text.chars().collect()
}

fn amount(text: &str) -> Option<u64> {
    parse_amount(&chars(text))
}

#[test]
fn amounts_are_read_in_ledger_units() {
    assert_eq!(amount("1.0"), Some(10000));
    assert_eq!(amount("1"), Some(10000));
    assert_eq!(amount("1.5"), Some(15000));
    assert_eq!(amount("0"), Some(0));
    assert_eq!(amount("0.0001"), Some(1));
    assert_eq!(amount("12.3456"), Some(123456));
    assert_eq!(amount("007.10"), Some(71000));
    assert_eq!(amount(".5"), Some(5000));
    assert_eq!(amount("5."), Some(50000));
    assert_eq!(amount("+2.25"), Some(22500));
}

#[test]
fn amounts_are_rounded_to_four_fractional_digits() {
    assert_eq!(amount("1.23456"), Some(12346));
    assert_eq!(amount("1.23454"), Some(12345));
    assert_eq!(amount("2.345678"), Some(23457));
    assert_eq!(amount("0.00004999"), Some(0));
    assert_eq!(amount("0.000051"), Some(1));
    assert_eq!(amount("0.0000500001"), Some(1));
    assert_eq!(amount("0.99999"), Some(10000));
}

#[test]
fn ties_are_rounded_to_the_even_unit() {
    assert_eq!(amount("0.00005"), Some(0));
    assert_eq!(amount("0.00015"), Some(2));
    assert_eq!(amount("0.00025"), Some(2));
    assert_eq!(amount("0.000250000"), Some(2));
    assert_eq!(amount("0.00035"), Some(4));
    assert_eq!(amount("1.99995"), Some(20000));
}

#[test]
fn what_is_no_amount_is_rejected() {
    assert_eq!(amount(""), None);
    assert_eq!(amount("."), None);
    assert_eq!(amount("+"), None);
    assert_eq!(amount("+."), None);
    assert_eq!(amount("-1.0"), None);
    assert_eq!(amount("1.2.3"), None);
    assert_eq!(amount("1,5"), None);
    assert_eq!(amount("abc"), None);
    assert_eq!(amount("1e3"), None);
    assert_eq!(amount("1.0x"), None);
    assert_eq!(amount("1.00000x"), None);
    assert_eq!(amount("1.000000000x"), None);
    assert_eq!(amount(" 1"), None);
    assert_eq!(amount("++1"), None);
}

#[test]
fn amounts_beyond_the_range_are_rejected() {
    assert_eq!(amount("1844674407370955.1615"), Some(u64::MAX));
    assert_eq!(amount("1844674407370955.16154"), Some(u64::MAX));
    assert_eq!(amount("1844674407370955.16155"), None);
    assert_eq!(amount("1844674407370955.1616"), None);
    assert_eq!(amount("1844674407370956"), None);
    assert_eq!(amount("99999999999999999999999999999999999999"), None);
}

#[test]
fn whole_numbers_are_read_up_to_a_limit() {
    assert_eq!(parse_unsigned(&chars("0"), 65535), Some(0));
    assert_eq!(parse_unsigned(&chars("42"), 65535), Some(42));
    assert_eq!(parse_unsigned(&chars("+42"), 65535), Some(42));
    assert_eq!(parse_unsigned(&chars("00042"), 65535), Some(42));
    assert_eq!(parse_unsigned(&chars("65535"), 65535), Some(65535));
    assert_eq!(parse_unsigned(&chars("65536"), 65535), None);
    assert_eq!(parse_unsigned(&chars("99999999999999999999999999"), 65535), None);
    assert_eq!(parse_unsigned(&chars(""), 65535), None);
    assert_eq!(parse_unsigned(&chars("+"), 65535), None);
    assert_eq!(parse_unsigned(&chars("-1"), 65535), None);
    assert_eq!(parse_unsigned(&chars("1.0"), 65535), None);
    assert_eq!(parse_unsigned(&chars("12a"), 65535), None);
}

#[test]
fn digits_are_read_within_bounds() {
    let text = chars("ab1234cd");
    assert_eq!(read_digits(&text, 2, 6, 100000), Reading::Value(1234));
    assert_eq!(read_digits(&text, 2, 6, 1234), Reading::Value(1234));
    assert_eq!(read_digits(&text, 2, 6, 1233), Reading::TooLarge);
    assert_eq!(read_digits(&text, 3, 5, 100000), Reading::Value(23));
    assert_eq!(read_digits(&text, 4, 4, 0), Reading::Value(0));
    assert_eq!(read_digits(&text, 1, 6, 100000), Reading::NotDigits);
    assert_eq!(read_digits(&text, 2, 7, 100000), Reading::NotDigits);
    assert_eq!(read_digits(&text, 2, 7, 0), Reading::NotDigits);
    let long = chars("18446744073709551616");
    assert_eq!(read_digits(&long, 0, 20, u64::MAX), Reading::TooLarge);
    assert_eq!(read_digits(&long, 0, 19, u64::MAX), Reading::Value(1844674407370955161));
    let most = chars("18446744073709551615");
    assert_eq!(read_digits(&most, 0, 20, u64::MAX), Reading::Value(u64::MAX));
    assert_eq!(parse_unsigned(&most, u64::MAX), Some(u64::MAX));
    assert_eq!(parse_unsigned(&long, u64::MAX), None);
}

#[test]
fn fields_are_cleaned_of_quotes_and_white_space() {
    assert_eq!(clean_field("  \"deposit\" "), chars("deposit"));
    assert_eq!(clean_field("' 1.5 '"), chars("1.5"));
    assert_eq!(clean_field("a \"b\" c"), chars("a b c"));
    assert_eq!(clean_field(" \t\r\n"), chars(""));
    assert_eq!(clean_field("\u{a0}7\u{3000}"), chars("7"));
    assert_eq!(clean_field(""), chars(""));
}

#[test]
fn text_helpers_do_one_thing_each() {
    assert_eq!(chars_of("héllo"), chars("héllo"));
    assert_eq!(strip_quotes(&chars("\"a'b\"")), chars("ab"));
    assert_eq!(trim(&chars("  a b  ")), chars("a b"));
    assert_eq!(trim(&chars("   ")), chars(""));
    assert_eq!(to_lower(&chars("DePoSiT É")), chars("deposit É"));
    assert!(spells(&chars("tx"), "tx"));
    assert!(!spells(&chars("tx"), "txs"));
    assert!(!spells(&chars("ty"), "tx"));
    assert!(is_space_char(' '));
    assert!(is_space_char('\u{2003}'));
    assert!(!is_space_char('x'));
    assert!(!is_space_char('\u{200b}'));
}

#[test]
fn transaction_type_is_read_in_any_case() {
    let kind = |text: &str| parse_and_validate_transaction_type(&StringRecord::from(vec![text]));
    assert_eq!(kind("deposit"), Ok(TransactionType::Deposit));
    assert_eq!(kind("Withdrawal"), Ok(TransactionType::Withdrawal));
    assert_eq!(kind(" DISPUTE "), Ok(TransactionType::Dispute));
    assert_eq!(kind("\"resolve\""), Ok(TransactionType::Resolve));
    assert_eq!(kind("'ChargeBack'"), Ok(TransactionType::Chargeback));
    assert_eq!(kind("refund"), Err(TransactionValidationError::InvalidTransactionType));
    assert_eq!(kind(""), Err(TransactionValidationError::InvalidTransactionType));
    assert_eq!(kind("deposits"), Err(TransactionValidationError::InvalidTransactionType));
    assert_eq!(
        parse_and_validate_transaction_type(&StringRecord::new()),
        Err(TransactionValidationError::MissingTransactionType)
    );
}

#[test]
fn identifiers_are_read_from_their_fields() {
    let record = StringRecord::from(vec!["deposit", " 7 ", "\"65535\"", "1.0"]);
    assert_eq!(parse_and_validate_id(&record, 1), Ok(7));
    assert_eq!(parse_and_validate_id(&record, 2), Ok(65535));
    assert_eq!(
        parse_and_validate_id(&record, 0),
        Err(TransactionValidationError::InvalidIDFormat)
    );
    assert_eq!(
        parse_and_validate_id(&record, 3),
        Err(TransactionValidationError::InvalidIDFormat)
    );
    let record = StringRecord::from(vec!["deposit", "65535", "65536"]);
    assert_eq!(parse_and_validate_id(&record, 1), Ok(65535));
    assert_eq!(parse_and_validate_id(&record, 2), Ok(65536));
    let record = StringRecord::from(vec!["deposit", "1", "4294967295"]);
    assert_eq!(parse_and_validate_id(&record, 2), Ok(4294967295));
    let record = StringRecord::from(vec!["deposit", "1", "4294967296"]);
    assert_eq!(
        parse_and_validate_id(&record, 2),
        Err(TransactionValidationError::InvalidIDFormat)
    );
    let record = StringRecord::from(vec!["deposit", "65536", "-1"]);
    assert_eq!(
        parse_and_validate_id(&record, 1),
        Err(TransactionValidationError::InvalidIDFormat)
    );
    assert_eq!(
        parse_and_validate_id(&record, 2),
        Err(TransactionValidationError::InvalidIDFormat)
    );
}

#[test]
fn missing_identifiers_are_told_apart() {
    let record = StringRecord::from(vec!["deposit"]);
    assert_eq!(
        parse_and_validate_id(&record, 1),
        Err(TransactionValidationError::MissingClientID)
    );
    assert_eq!(
        parse_and_validate_id(&record, 2),
        Err(TransactionValidationError::MissingTransactionID)
    );
    assert_eq!(
        parse_and_validate_id(&StringRecord::new(), 0),
        Err(TransactionValidationError::MissingTransactionID)
    );
}

#[test]
fn amount_field_is_required_for_deposit_and_withdrawal() {
    let record = StringRecord::from(vec!["deposit", "1", "1"]);
    assert_eq!(
        parse_and_validate_amount(&record, TransactionType::Deposit),
        Err(TransactionValidationError::MissingAmountForDeposit)
    );
    assert_eq!(
        parse_and_validate_amount(&record, TransactionType::Withdrawal),
        Err(TransactionValidationError::MissingAmountForWithdrawal)
    );
    assert_eq!(parse_and_validate_amount(&record, TransactionType::Dispute), Ok(None));
    assert_eq!(parse_and_validate_amount(&record, TransactionType::Resolve), Ok(None));
    assert_eq!(parse_and_validate_amount(&record, TransactionType::Chargeback), Ok(None));
}

#[test]
fn amount_field_must_write_an_amount() {
    let record = StringRecord::from(vec!["deposit", "1", "1", " \"2.5\" "]);
    assert_eq!(parse_and_validate_amount(&record, TransactionType::Deposit), Ok(Some(25000)));
    assert_eq!(parse_and_validate_amount(&record, TransactionType::Dispute), Ok(Some(25000)));
    let record = StringRecord::from(vec!["dispute", "1", "1", ""]);
    assert_eq!(
        parse_and_validate_amount(&record, TransactionType::Dispute),
        Err(TransactionValidationError::InvalidAmountFormat)
    );
    let record = StringRecord::from(vec!["deposit", "1", "1", "-3"]);
    assert_eq!(
        parse_and_validate_amount(&record, TransactionType::Deposit),
        Err(TransactionValidationError::InvalidAmountFormat)
    );
}

#[test]
fn record_becomes_a_transaction() {
    let record = StringRecord::from(vec!["Deposit", " 3", "17 ", "1.23456"]);
    let tx = Transaction::try_from(record).unwrap();
    assert_eq!(tx.transaction_type, TransactionType::Deposit);
    assert_eq!(tx.client_id, 3);
    assert_eq!(tx.tx_id, 17);
    assert_eq!(tx.amount, Some(12346));
    assert_eq!(tx.status, TransactionStatus::NotYetCommitted);
    let tx = Transaction::try_from(StringRecord::from(vec!["chargeback", "2", "5"])).unwrap();
    assert_eq!(tx, Transaction::new(TransactionType::Chargeback, 2, 5, None));
}

#[test]
fn transaction_id_may_exceed_the_client_range() {
    let record = StringRecord::from(vec!["deposit", "1", "70000", "1.0"]);
    let tx = Transaction::try_from(record).unwrap();
    assert_eq!(tx, Transaction::new(TransactionType::Deposit, 1, 70000, Some(10000)));
    assert_eq!(tx.client_id, 1);
    assert_eq!(tx.tx_id, 70000);
    let tx = Transaction::try_from(StringRecord::from(vec!["dispute", "65535", "4294967295"]))
        .unwrap();
    assert_eq!(tx, Transaction::new(TransactionType::Dispute, 65535, 4294967295, None));
    let fault = |fields: Vec<&str>| Transaction::try_from(StringRecord::from(fields)).unwrap_err();
    assert_eq!(
        fault(vec!["deposit", "70000", "1", "1.0"]),
        TransactionValidationError::InvalidIDFormat
    );
    assert_eq!(
        fault(vec!["deposit", "1", "4294967296", "1.0"]),
        TransactionValidationError::InvalidIDFormat
    );
}

#[test]
fn first_fault_of_a_record_is_reported() {
    let fault = |fields: Vec<&str>| Transaction::try_from(StringRecord::from(fields)).unwrap_err();
    assert_eq!(fault(vec![]), TransactionValidationError::MissingTransactionType);
    assert_eq!(fault(vec!["bogus"]), TransactionValidationError::InvalidTransactionType);
    assert_eq!(fault(vec!["deposit"]), TransactionValidationError::MissingClientID);
    assert_eq!(fault(vec!["deposit", "x", "y", "z"]), TransactionValidationError::InvalidIDFormat);
    assert_eq!(fault(vec!["deposit", "1"]), TransactionValidationError::MissingTransactionID);
    assert_eq!(fault(vec!["deposit", "1", "y", "z"]), TransactionValidationError::InvalidIDFormat);
    assert_eq!(fault(vec!["deposit", "1", "2"]), TransactionValidationError::MissingAmountForDeposit);
    assert_eq!(
        fault(vec!["withdrawal", "1", "2"]),
        TransactionValidationError::MissingAmountForWithdrawal
    );
    assert_eq!(fault(vec!["deposit", "1", "2", "z"]), TransactionValidationError::InvalidAmountFormat);
}
