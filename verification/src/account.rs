//! Accounts: named ledger buckets with a polarity and an optional parent.

use crate::numerals::{numeral_val, numeral_wf, parse_u64};
use crate::text::{
    clone_strings, contains_match, find_last_match, last_index_matching, lemma_last_index_matching,
    strs_view,
};
use core::cmp::Ordering;
use vstd::prelude::*;

verus! {

/// The polarity of an account.
#[derive(Debug, Clone, Copy, PartialEq, Eq, Structural)]
pub enum AccountType {
    Debit,
    Credit,
}

/// An account of the ledger.
///
/// `subaccounts` and `transactions` are informational id lists; the
/// authoritative hierarchy is each account's own `parent` field.  The parent
/// id `"0"` is the sentinel meaning "no parent".
#[derive(Debug, Clone, PartialEq)]
pub struct Account {
    pub id: String,
    pub subaccounts: Vec<String>,
    pub name: String,
    pub account_type: Option<AccountType>,
    pub transactions: Vec<String>,
    pub parent: String,
}

/// The mathematical value of an account: each text field as its characters.
#[verifier::ext_equal]
pub struct AccountV {
    pub id: Seq<char>,
    pub subaccounts: Seq<Seq<char>>,
    pub name: Seq<char>,
    pub account_type: Option<AccountType>,
    pub transactions: Seq<Seq<char>>,
    pub parent: Seq<char>,
}

impl View for Account {
    type V = AccountV;

    open spec fn view(&self) -> AccountV {
        AccountV {
            id: self.id@,
            subaccounts: strs_view(self.subaccounts@),
            name: self.name@,
            account_type: self.account_type,
            transactions: strs_view(self.transactions@),
            parent: self.parent@,
        }
    }
}

/// The numeric value of an account's id.
pub open spec fn account_id_val(a: AccountV) -> nat {
    numeral_val(a.id)
}

/// The account's id is a decimal numeral whose value fits the id space.
pub open spec fn account_id_wf(a: AccountV) -> bool {
    numeral_wf(a.id) && numeral_val(a.id) <= u64::MAX
}

impl Account {
    /// A blank account: every field empty, no polarity yet.
    pub fn new() -> (a: Account)
        ensures
            a@ == (AccountV {
                id: Seq::<char>::empty(),
                subaccounts: Seq::<Seq<char>>::empty(),
                name: Seq::<char>::empty(),
                account_type: None,
                transactions: Seq::<Seq<char>>::empty(),
                parent: Seq::<char>::empty(),
            }),
    {
        let a = Account {
            id: String::new(),
            subaccounts: Vec::new(),
            name: String::new(),
            account_type: None,
            transactions: Vec::new(),
            parent: String::new(),
        };
        proof {
            assert(strs_view(Seq::<String>::empty()) =~= Seq::<Seq<char>>::empty());
        }
        a
    }

    /// Orders two accounts by the numeric value of their ids.
    pub fn cmp(&self, another: &Account) -> (r: Ordering)
        requires
            account_id_wf(self@),
            account_id_wf(another@),
        ensures
            r == Ordering::Less <==> account_id_val(self@) < account_id_val(another@),
            r == Ordering::Equal <==> account_id_val(self@) == account_id_val(another@),
            r == Ordering::Greater <==> account_id_val(self@) > account_id_val(another@),
    {
        let first = parse_u64(self.id.as_str()).unwrap();
        let second = parse_u64(another.id.as_str()).unwrap();
        if first < second {
            Ordering::Less
        } else if first == second {
            Ordering::Equal
        } else {
            Ordering::Greater
        }
    }

    /// Sets the name of the account.
    pub fn set_name(&mut self, name: &str)
        ensures
            final(self)@ == (AccountV { name: name@, ..old(self)@ }),
    {
        self.name = name.to_owned();
        proof {
            assert(final(self)@ =~= (AccountV { name: name@, ..old(self)@ }));
        }
    }

    /// Sets the parent id of the account.
    pub fn set_parent(&mut self, parent: &str)
        ensures
            final(self)@ == (AccountV { parent: parent@, ..old(self)@ }),
    {
        self.parent = parent.to_owned();
        proof {
            assert(final(self)@ =~= (AccountV { parent: parent@, ..old(self)@ }));
        }
    }

    /// Adds the subaccount id to the account unless it is already listed.
    pub fn add_subaccount(&mut self, subaccount_id: &str)
        ensures
            old(self)@.subaccounts.contains(subaccount_id@) ==> *final(self) == *old(self),
            !old(self)@.subaccounts.contains(subaccount_id@) ==> final(self)@ == (AccountV {
                subaccounts: old(self)@.subaccounts.push(subaccount_id@),
                ..old(self)@
            }),
    {
        if !contains_match(&self.subaccounts, subaccount_id) {
            self.subaccounts.push(subaccount_id.to_owned());
            proof {
                assert(final(self)@ =~= (AccountV {
                    subaccounts: old(self)@.subaccounts.push(subaccount_id@),
                    ..old(self)@
                }));
            }
        }
    }

    /// Removes the last listing of the subaccount id, if any.
    pub fn remove_subaccount(&mut self, subaccount_id: &str)
        ensures
            !old(self)@.subaccounts.contains(subaccount_id@) ==> *final(self) == *old(self),
            old(self)@.subaccounts.contains(subaccount_id@) ==> final(self)@ == (AccountV {
                subaccounts: old(self)@.subaccounts.remove(
                    last_index_matching(old(self).subaccounts@, subaccount_id@),
                ),
                ..old(self)@
            }),
    {
        proof {
            lemma_last_index_matching(self.subaccounts@, subaccount_id@);
        }
        match find_last_match(&self.subaccounts, subaccount_id) {
            Some(i) => {
                self.subaccounts.remove(i);
                proof {
                    assert(final(self)@ =~= (AccountV {
                        subaccounts: old(self)@.subaccounts.remove(
                            last_index_matching(old(self).subaccounts@, subaccount_id@),
                        ),
                        ..old(self)@
                    }));
                }
            },
            None => {},
        }
    }

    /// Adds the transaction id to the account unless it is already listed.
    pub fn add_transaction(&mut self, transaction_id: &str)
        ensures
            old(self)@.transactions.contains(transaction_id@) ==> *final(self) == *old(self),
            !old(self)@.transactions.contains(transaction_id@) ==> final(self)@ == (AccountV {
                transactions: old(self)@.transactions.push(transaction_id@),
                ..old(self)@
            }),
    {
        if !contains_match(&self.transactions, transaction_id) {
            self.transactions.push(transaction_id.to_owned());
            proof {
                assert(final(self)@ =~= (AccountV {
                    transactions: old(self)@.transactions.push(transaction_id@),
                    ..old(self)@
                }));
            }
        }
    }

    /// Removes the last listing of the transaction id, if any.
    pub fn remove_transaction(&mut self, transaction_id: &str)
        ensures
            !old(self)@.transactions.contains(transaction_id@) ==> *final(self) == *old(self),
            old(self)@.transactions.contains(transaction_id@) ==> final(self)@ == (AccountV {
                transactions: old(self)@.transactions.remove(
                    last_index_matching(old(self).transactions@, transaction_id@),
                ),
                ..old(self)@
            }),
    {
        proof {
            lemma_last_index_matching(self.transactions@, transaction_id@);
        }
        match find_last_match(&self.transactions, transaction_id) {
            Some(i) => {
                self.transactions.remove(i);
                proof {
                    assert(final(self)@ =~= (AccountV {
                        transactions: old(self)@.transactions.remove(
                            last_index_matching(old(self).transactions@, transaction_id@),
                        ),
                        ..old(self)@
                    }));
                }
            },
            None => {},
        }
    }

    /// An equal copy of the account, with the fields known to be kept.
    pub fn duplicate(&self) -> (a: Account)
        ensures
            a@ == self@,
    {
        Account {
            id: self.id.clone(),
            subaccounts: clone_strings(&self.subaccounts),
            name: self.name.clone(),
            account_type: self.account_type,
            transactions: clone_strings(&self.transactions),
            parent: self.parent.clone(),
        }
    }
}

} // verus!
