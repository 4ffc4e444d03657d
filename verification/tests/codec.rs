use ledger::account::{Account, AccountType};
use ledger::amount::Amount;
use ledger::codec::{decode_company, encode_company, DecodeError};
use ledger::company::Company;
use ledger::date::Date;
use ledger::numerals::{format_u64, parse_canonical_u64, parse_u64};
use ledger::transaction::Transaction;

fn sample_ledger() -> Company {
    let mut c = Company::default();
    c.insert_account(Account {
        id: "1".to_string(),
        subaccounts: vec!["2".to_string()],
        name: "cash".to_string(),
        account_type: Some(AccountType::Debit),
        transactions: vec!["7".to_string()],
        parent: "0".to_string(),
    });
    c.insert_account(Account {
        id: "2".to_string(),
        subaccounts: Vec::new(),
        name: "a \"quoted\" name with \\ inside".to_string(),
        account_type: None,
        transactions: Vec::new(),
        parent: "1".to_string(),
    });
    c.insert_transaction(Transaction {
        id: "7".to_string(),
        credit: "2".to_string(),
        debit: "1".to_string(),
        amount: Amount { cents: 100233 },
        memo: "weekly groceries".to_string(),
        date: Date { year: 2024, month: 2, day: 29 },
    });
    c
}

#[test]
fn decoding_an_encoded_ledger_reproduces_it() {
    let c = sample_ledger();
    let doc = encode_company(&c);
    let back = decode_company(doc.as_str()).unwrap();
    assert_eq!(back.accounts, c.accounts);
    assert_eq!(back.transactions, c.transactions);
}

#[test]
fn empty_ledger_round_trips() {
    let c = Company::default();
    let doc = encode_company(&c);
    assert_eq!(doc, "{\"accounts\":[],\"transactions\":[]}");
    let back = decode_company(doc.as_str()).unwrap();
    assert!(back.accounts.is_empty());
    assert!(back.transactions.is_empty());
}

#[test]
fn encoding_writes_the_documented_document_shape() {
    let mut c = Company::default();
    c.insert_account(Account {
        id: "1".to_string(),
        subaccounts: Vec::new(),
        name: "cash".to_string(),
        account_type: Some(AccountType::Debit),
        transactions: vec!["7".to_string()],
        parent: "0".to_string(),
    });
    c.insert_transaction(Transaction {
        id: "7".to_string(),
        credit: "2".to_string(),
        debit: "1".to_string(),
        amount: Amount { cents: 10000 },
        memo: "hi".to_string(),
        date: Date { year: 2024, month: 1, day: 2 },
    });
    let doc = encode_company(&c);
    assert_eq!(
        doc,
        "{\"accounts\":[{\"id\":\"1\",\"subaccounts\":[],\"name\":\"cash\",\"type\":\"d\",\
         \"transactions\":[\"7\"],\"parent\":\"0\"}],\"transactions\":[{\"id\":\"7\",\
         \"credit\":\"2\",\"debit\":\"1\",\"amount\":\"100.00\",\"memo\":\"hi\",\
         \"date\":\"2024-01-02\"}]}"
    );
}

#[test]
fn decoding_accepts_a_document_written_by_hand() {
    let doc = "{\"accounts\":[{\"id\":\"3\",\"subaccounts\":[\"4\",\"5\"],\"name\":\"x\",\
               \"type\":\"c\",\"transactions\":[],\"parent\":\"0\"}],\"transactions\":[]}";
    let c = decode_company(doc).unwrap();
    assert_eq!(c.accounts.len(), 1);
    assert_eq!(c.accounts[0].id, "3");
    assert_eq!(c.accounts[0].subaccounts, vec!["4", "5"]);
    assert_eq!(c.accounts[0].account_type, Some(AccountType::Credit));
}

#[test]
fn decoding_garbage_fails() {
    assert_eq!(decode_company("garbage"), Err(DecodeError::Malformed));
    assert_eq!(decode_company(""), Err(DecodeError::Malformed));
}

#[test]
fn decoding_rejects_trailing_text() {
    let doc = "{\"accounts\":[],\"transactions\":[]} ";
    assert_eq!(decode_company(doc), Err(DecodeError::Malformed));
}

#[test]
fn decoding_rejects_an_invalid_date() {
    let doc = "{\"accounts\":[],\"transactions\":[{\"id\":\"1\",\"credit\":\"1\",\
               \"debit\":\"2\",\"amount\":\"1.00\",\"memo\":\"\",\"date\":\"2023-02-29\"}]}";
    assert_eq!(decode_company(doc), Err(DecodeError::Malformed));
}

#[test]
fn amount_text_round_trips() {
    let a = Amount { cents: 12345 };
    let text = a.format();
    assert_eq!(text, "123.45");
    assert_eq!(Amount::parse(text.as_str()), Some(a));
    assert_eq!(Amount::parse("0.07"), Some(Amount { cents: 7 }));
    assert_eq!(Amount { cents: 7000 }.format(), "70.00");
}

#[test]
fn amount_parse_rejects_non_canonical_text() {
    assert_eq!(Amount::parse("007.00"), None);
    assert_eq!(Amount::parse("70.0"), None);
    assert_eq!(Amount::parse("70"), None);
    assert_eq!(Amount::parse("70.000"), None);
    assert_eq!(Amount::parse(""), None);
}

#[test]
fn date_text_round_trips() {
    let d = Date { year: 2024, month: 1, day: 2 };
    let text = d.format();
    assert_eq!(text, "2024-01-02");
    assert_eq!(Date::parse(text.as_str()), Some(d));
}

#[test]
fn date_validity_follows_the_calendar() {
    assert!(Date::from_ymd(2024, 2, 29).is_some());
    assert!(Date::from_ymd(2023, 2, 29).is_none());
    assert!(Date::from_ymd(1900, 2, 29).is_none());
    assert!(Date::from_ymd(2000, 2, 29).is_some());
    assert!(Date::from_ymd(2024, 13, 1).is_none());
    assert!(Date::from_ymd(2024, 4, 31).is_none());
    assert!(Date::parse("2024-13-01").is_none());
    assert!(Date::parse("2024-1-2").is_none());
}

#[test]
fn todays_date_is_a_valid_calendar_date() {
    let d = Date::today();
    assert!((1..=12).contains(&d.month));
    assert!((1..=31).contains(&d.day));
    assert!(d.year <= 9999);
}

#[test]
fn numerals_round_trip_through_text() {
    assert_eq!(format_u64(0), "0");
    assert_eq!(format_u64(6), "6");
    assert_eq!(format_u64(18446744073709551615), "18446744073709551615");
    assert_eq!(parse_u64("0"), Some(0));
    assert_eq!(parse_u64("18446744073709551615"), Some(u64::MAX));
    assert_eq!(parse_u64("18446744073709551616"), None);
    assert_eq!(parse_u64(""), None);
    assert_eq!(parse_u64("12a"), None);
    assert_eq!(parse_u64("007"), Some(7));
    assert_eq!(parse_canonical_u64("007"), None);
    assert_eq!(parse_canonical_u64("7"), Some(7));
}

#[test]
fn decoding_rejects_a_non_canonical_amount() {
    let doc = "{\"accounts\":[],\"transactions\":[{\"id\":\"1\",\"credit\":\"1\",\
               \"debit\":\"2\",\"amount\":\"1.0\",\"memo\":\"\",\"date\":\"2024-01-02\"}]}";
    assert_eq!(decode_company(doc), Err(DecodeError::Malformed));
}
