use ledger::account::{Account, AccountType};
use ledger::balance::Net;
use ledger::company::{Company, EntryKind};
use ledger::transaction::Transaction;
use ledger::amount::Amount;
use ledger::date::Date;
use ledger::LedgerError;

fn acct(id: &str, parent: &str, ty: Option<AccountType>, name: &str) -> Account {
    Account {
        id: id.to_string(),
        subaccounts: Vec::new(),
        name: name.to_string(),
        account_type: ty,
        transactions: Vec::new(),
        parent: parent.to_string(),
    }
}

fn tx(id: &str, debit: &str, credit: &str, cents: u64) -> Transaction {
    Transaction {
        id: id.to_string(),
        credit: credit.to_string(),
        debit: debit.to_string(),
        amount: Amount { cents },
        memo: String::new(),
        date: Date { year: 2024, month: 1, day: 15 },
    }
}

#[test]
fn insert_account_rejects_duplicate_id() {
    let mut c = Company::default();
    assert!(c.insert_account(acct("1", "0", Some(AccountType::Debit), "cash")));
    let before = c.accounts.len();
    assert!(!c.insert_account(acct("1", "0", Some(AccountType::Credit), "other")));
    assert_eq!(c.accounts.len(), before);
}

#[test]
fn insert_transaction_rejects_duplicate_id() {
    let mut c = Company::default();
    assert!(c.insert_transaction(tx("7", "1", "2", 100)));
    assert!(!c.insert_transaction(tx("7", "2", "1", 200)));
    assert_eq!(c.transactions.len(), 1);
}

#[test]
fn allocate_next_id_returns_one_past_the_maximum() {
    let mut c = Company::default();
    c.insert_account(acct("1", "0", None, "a"));
    c.insert_account(acct("3", "0", None, "b"));
    c.insert_account(acct("5", "0", None, "c"));
    assert_eq!(c.allocate_next_id(EntryKind::Account).unwrap(), "6");
}

#[test]
fn allocate_next_id_on_empty_collection_is_defined() {
    let c = Company::default();
    assert_eq!(c.allocate_next_id(EntryKind::Account).unwrap(), "1");
    assert_eq!(c.allocate_next_id(EntryKind::Transaction).unwrap(), "1");
}

#[test]
fn allocate_next_id_fails_when_id_space_is_exhausted() {
    let mut c = Company::default();
    c.insert_account(acct("18446744073709551615", "0", None, "edge"));
    assert_eq!(
        c.allocate_next_id(EntryKind::Account),
        Err(LedgerError::Allocation)
    );
}

#[test]
fn max_id_account_on_empty_collection_fails_with_allocation() {
    let c = Company::default();
    assert_eq!(c.max_id_account(), Err(LedgerError::Allocation));
}

#[test]
fn max_id_account_on_bad_id_fails_with_id_parse() {
    let mut c = Company::default();
    c.insert_account(acct("abc", "0", None, "bad"));
    assert_eq!(c.max_id_account(), Err(LedgerError::IdParse));
}

#[test]
fn sort_accounts_ascending_twice_is_one_sort() {
    let mut c = Company::default();
    c.insert_account(acct("5", "0", None, "e"));
    c.insert_account(acct("1", "0", None, "a"));
    c.insert_account(acct("3", "0", None, "c"));
    c.sort_accounts("asc");
    let once: Vec<String> = c.accounts.iter().map(|a| a.id.clone()).collect();
    c.sort_accounts("asc");
    let twice: Vec<String> = c.accounts.iter().map(|a| a.id.clone()).collect();
    assert_eq!(once, vec!["1", "3", "5"]);
    assert_eq!(once, twice);
}

#[test]
fn sort_descending_then_ascending_restores_ascending_order() {
    let mut c = Company::default();
    c.insert_account(acct("2", "0", None, "b"));
    c.insert_account(acct("4", "0", None, "d"));
    c.insert_account(acct("1", "0", None, "a"));
    c.sort_accounts("asc");
    let ascending: Vec<String> = c.accounts.iter().map(|a| a.id.clone()).collect();
    c.sort_accounts("desc");
    let descending: Vec<String> = c.accounts.iter().map(|a| a.id.clone()).collect();
    assert_eq!(descending, vec!["4", "2", "1"]);
    c.sort_accounts("asc");
    let restored: Vec<String> = c.accounts.iter().map(|a| a.id.clone()).collect();
    assert_eq!(ascending, restored);
}

#[test]
fn sort_with_unknown_token_defaults_to_ascending() {
    let mut c = Company::default();
    c.insert_transaction(tx("9", "1", "2", 5));
    c.insert_transaction(tx("2", "1", "2", 5));
    c.sort_transactions("sideways");
    let ids: Vec<String> = c.transactions.iter().map(|t| t.id.clone()).collect();
    assert_eq!(ids, vec!["2", "9"]);
}

#[test]
fn child_inherits_parent_type_over_requested_type() {
    let mut c = Company::default();
    c.insert_account(acct("1", "0", Some(AccountType::Debit), "parent"));
    let mut child = Account::new();
    child.set_parent("1");
    child.set_type_in_company("c", &c);
    assert_eq!(child.account_type, Some(AccountType::Debit));
}

#[test]
fn root_account_takes_requested_type() {
    let c = Company::default();
    let mut root = Account::new();
    root.set_parent("0");
    root.set_type_in_company("c", &c);
    assert_eq!(root.account_type, Some(AccountType::Credit));
}

#[test]
fn invalid_type_token_at_root_leaves_type_unchanged() {
    let c = Company::default();
    let mut root = Account::new();
    root.set_parent("0");
    root.set_type_in_company("x", &c);
    assert_eq!(root.account_type, None);
}

#[test]
fn parent_cycle_fails_with_cycle_error() {
    let mut c = Company::default();
    c.insert_account(acct("1", "2", Some(AccountType::Debit), "a"));
    c.insert_account(acct("2", "1", Some(AccountType::Debit), "b"));
    assert!(matches!(c.get_chart_of_accounts(), Err(LedgerError::Cycle)));
}

#[test]
fn dangling_parent_fails_with_not_found() {
    let mut c = Company::default();
    c.insert_account(acct("1", "9", None, "orphan"));
    assert!(matches!(c.get_chart_of_accounts(), Err(LedgerError::NotFound)));
}

#[test]
fn chart_lists_each_chain_leaf_first() {
    let mut c = Company::default();
    c.insert_account(acct("1", "0", Some(AccountType::Debit), "root"));
    c.insert_account(acct("2", "1", Some(AccountType::Debit), "leaf"));
    let chart = c.get_chart_of_accounts().unwrap();
    assert_eq!(chart.len(), 2);
    let first: Vec<String> = chart[0].iter().map(|a| a.id.clone()).collect();
    let second: Vec<String> = chart[1].iter().map(|a| a.id.clone()).collect();
    assert_eq!(first, vec!["1"]);
    assert_eq!(second, vec!["2", "1"]);
}

#[test]
fn balance_nets_debits_minus_credits_for_debit_account() {
    let mut c = Company::default();
    c.insert_account(acct("1", "0", Some(AccountType::Debit), "cash"));
    c.insert_transaction(tx("10", "1", "2", 10000));
    c.insert_transaction(tx("11", "2", "1", 3000));
    let summary = c.balance_summary();
    assert_eq!(summary.len(), 1);
    assert_eq!(summary[0].0.id, "1");
    assert_eq!(summary[0].1, Net { negative: false, cents: 7000 });
}

#[test]
fn balance_reverses_signs_for_credit_account() {
    let mut c = Company::default();
    c.insert_account(acct("2", "0", Some(AccountType::Credit), "income"));
    c.insert_transaction(tx("10", "1", "2", 10000));
    let summary = c.balance_summary();
    assert_eq!(summary.len(), 1);
    assert_eq!(summary[0].1, Net { negative: false, cents: 10000 });
}

#[test]
fn balance_skips_accounts_without_transactions() {
    let mut c = Company::default();
    c.insert_account(acct("1", "0", Some(AccountType::Debit), "idle"));
    assert!(c.balance_summary().is_empty());
}

#[test]
fn delete_account_removes_only_the_matching_account() {
    let mut c = Company::default();
    c.insert_account(acct("1", "0", None, "a"));
    c.insert_account(acct("2", "0", None, "b"));
    assert!(c.delete_account("1"));
    assert!(!c.delete_account("1"));
    assert_eq!(c.accounts.len(), 1);
    assert_eq!(c.accounts[0].id, "2");
}

#[test]
fn delete_transaction_reports_whether_anything_was_removed() {
    let mut c = Company::default();
    c.insert_transaction(tx("7", "1", "2", 100));
    assert!(c.delete_transaction("7"));
    assert!(!c.delete_transaction("7"));
    assert!(c.transactions.is_empty());
}

#[test]
fn get_acccount_by_id_finds_only_present_ids() {
    let mut c = Company::default();
    c.insert_account(acct("3", "0", None, "x"));
    assert_eq!(c.get_acccount_by_id("3").unwrap().name, "x");
    assert!(c.get_acccount_by_id("4").is_none());
}

#[test]
fn get_accounts_yields_empty_for_empty_store() {
    let c = Company::default();
    assert!(c.get_accounts().is_empty());
}

#[test]
fn register_is_none_only_for_missing_account() {
    let mut c = Company::default();
    let mut a = acct("1", "0", Some(AccountType::Debit), "cash");
    a.add_transaction("10");
    c.insert_account(a);
    c.insert_transaction(tx("10", "1", "2", 500));
    c.insert_transaction(tx("11", "1", "2", 600));
    let register = c.get_transactions_by_account("1").unwrap();
    assert_eq!(register.len(), 1);
    assert_eq!(register[0].id, "10");
    assert!(c.get_transactions_by_account("9").is_none());
}

#[test]
fn validate_accepts_a_well_formed_store() {
    let mut c = Company::default();
    c.insert_account(acct("1", "0", None, "a"));
    c.insert_transaction(tx("1", "1", "1", 1));
    assert_eq!(c.validate(), Ok(()));
}

#[test]
fn validate_rejects_unparseable_ids() {
    let mut c = Company::default();
    c.insert_account(acct("first", "0", None, "bad"));
    assert_eq!(c.validate(), Err(LedgerError::IdParse));
}

#[test]
fn validate_rejects_repeated_id_values() {
    let mut c = Company::default();
    c.insert_account(acct("1", "0", None, "a"));
    c.insert_account(acct("01", "0", None, "alias"));
    assert_eq!(c.validate(), Err(LedgerError::DuplicateId));
}

#[test]
fn set_id_in_company_takes_the_next_account_id() {
    let mut c = Company::default();
    c.insert_account(acct("1", "0", None, "a"));
    c.insert_account(acct("3", "0", None, "b"));
    let mut a = Account::new();
    a.set_id_in_company(&c);
    assert_eq!(a.id, "4");
}

#[test]
fn transaction_set_id_in_company_takes_the_next_transaction_id() {
    let mut c = Company::default();
    c.insert_transaction(tx("2", "1", "1", 1));
    let mut t = Transaction::new();
    t.set_id_in_company(&c);
    assert_eq!(t.id, "3");
}

#[test]
fn account_id_lists_do_not_repeat_entries() {
    let mut a = Account::new();
    a.add_subaccount("2");
    a.add_subaccount("2");
    assert_eq!(a.subaccounts, vec!["2"]);
    a.remove_subaccount("2");
    assert!(a.subaccounts.is_empty());
    a.add_transaction("9");
    a.add_transaction("9");
    assert_eq!(a.transactions, vec!["9"]);
    a.remove_transaction("9");
    assert!(a.transactions.is_empty());
    a.remove_transaction("9");
    assert!(a.transactions.is_empty());
}

#[test]
fn accounts_order_by_numeric_id_value() {
    let a = acct("9", "0", None, "");
    let b = acct("10", "0", None, "");
    assert_eq!(a.cmp(&b), std::cmp::Ordering::Less);
    assert_eq!(b.cmp(&a), std::cmp::Ordering::Greater);
    assert_eq!(a.cmp(&a), std::cmp::Ordering::Equal);
}

#[test]
fn transactions_order_by_numeric_id_value() {
    let a = tx("9", "1", "2", 1);
    let b = tx("10", "1", "2", 1);
    assert_eq!(a.cmp(&b), std::cmp::Ordering::Less);
}

#[test]
fn balance_net_can_be_negative() {
    let mut c = Company::default();
    c.insert_account(acct("1", "0", Some(AccountType::Debit), "cash"));
    c.insert_transaction(tx("10", "2", "1", 5000));
    let summary = c.balance_summary();
    assert_eq!(summary[0].1, Net { negative: true, cents: 5000 });
}

#[test]
fn account_without_polarity_counts_as_debit_side() {
    let mut c = Company::default();
    c.insert_account(acct("1", "0", None, "untyped"));
    c.insert_transaction(tx("10", "1", "2", 400));
    let summary = c.balance_summary();
    assert_eq!(summary[0].1, Net { negative: false, cents: 400 });
}

#[test]
fn balance_sections_group_by_polarity_with_totals() {
    let mut c = Company::default();
    c.insert_account(acct("1", "0", Some(AccountType::Debit), "cash"));
    c.insert_account(acct("2", "0", Some(AccountType::Credit), "income"));
    c.insert_transaction(tx("10", "1", "2", 10000));
    c.insert_transaction(tx("11", "2", "1", 3000));
    let summary = c.balance_summary();
    let (debits, credits) = ledger::balance::split_sections(&summary);
    assert_eq!(debits.len(), 1);
    assert_eq!(credits.len(), 1);
    assert_eq!(debits[0].0.id, "1");
    assert_eq!(credits[0].0.id, "2");
    assert_eq!(
        ledger::balance::section_total(&debits),
        Some(Net { negative: false, cents: 7000 })
    );
    assert_eq!(
        ledger::balance::section_total(&credits),
        Some(Net { negative: false, cents: 7000 })
    );
}

#[test]
fn net_addition_is_exact_and_signed() {
    let a = Net { negative: false, cents: 5000 };
    let b = Net { negative: true, cents: 7000 };
    assert_eq!(a.checked_add(b), Some(Net { negative: true, cents: 2000 }));
    assert_eq!(b.checked_add(a), Some(Net { negative: true, cents: 2000 }));
    assert_eq!(a.checked_add(Net { negative: true, cents: 5000 }),
               Some(Net { negative: false, cents: 0 }));
    let big = Net { negative: false, cents: u128::MAX };
    assert_eq!(big.checked_add(Net { negative: false, cents: 1 }), None);
}

#[test]
fn cycle_embedded_in_a_larger_store_still_fails() {
    let mut c = Company::default();
    c.insert_account(acct("1", "0", Some(AccountType::Debit), "fine"));
    c.insert_account(acct("2", "3", Some(AccountType::Debit), "a"));
    c.insert_account(acct("3", "2", Some(AccountType::Debit), "b"));
    assert!(matches!(c.get_chart_of_accounts(), Err(LedgerError::Cycle)));
}

#[test]
fn account_that_is_its_own_parent_fails_with_cycle_error() {
    let mut c = Company::default();
    c.insert_account(acct("1", "1", Some(AccountType::Debit), "loop"));
    assert!(matches!(c.get_chart_of_accounts(), Err(LedgerError::Cycle)));
}
