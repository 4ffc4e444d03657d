//! Transactions: movements of value between a debit and a credit account.

use crate::amount::Amount;
use crate::date::Date;
use crate::numerals::{numeral_val, numeral_wf, parse_u64};
use core::cmp::Ordering;
use vstd::prelude::*;

verus! {

/// A movement of value from one account (the debit side) to another (the
/// credit side) on a calendar date.
#[derive(Debug, Clone, PartialEq)]
pub struct Transaction {
    pub id: String,
    pub credit: String,
    pub debit: String,
    pub amount: Amount,
    pub memo: String,
    pub date: Date,
}

/// The mathematical value of a transaction.
#[verifier::ext_equal]
pub struct TransactionV {
    pub id: Seq<char>,
    pub credit: Seq<char>,
    pub debit: Seq<char>,
    pub amount: Amount,
    pub memo: Seq<char>,
    pub date: Date,
}

impl View for Transaction {
    type V = TransactionV;

    open spec fn view(&self) -> TransactionV {
        TransactionV {
            id: self.id@,
            credit: self.credit@,
            debit: self.debit@,
            amount: self.amount,
            memo: self.memo@,
            date: self.date,
        }
    }
}

/// The numeric value of a transaction's id.
pub open spec fn transaction_id_val(t: TransactionV) -> nat {
    numeral_val(t.id)
}

/// The transaction's id is a decimal numeral whose value fits the id space.
pub open spec fn transaction_id_wf(t: TransactionV) -> bool {
    numeral_wf(t.id) && numeral_val(t.id) <= u64::MAX
}

impl Transaction {
    /// A blank transaction dated today: empty ids and memo, amount zero.
    pub fn new() -> (t: Transaction)
        ensures
            t@.id == Seq::<char>::empty(),
            t@.credit == Seq::<char>::empty(),
            t@.debit == Seq::<char>::empty(),
            t@.amount == (Amount { cents: 0 }),
            t@.memo == Seq::<char>::empty(),
            t@.date.wf(),
    {
        Transaction {
            id: String::new(),
            credit: String::new(),
            debit: String::new(),
            amount: Amount { cents: 0 },
            memo: String::new(),
            date: Date::today(),
        }
    }

    /// Orders two transactions by the numeric value of their ids.
    pub fn cmp(&self, another: &Transaction) -> (r: Ordering)
        requires
            transaction_id_wf(self@),
            transaction_id_wf(another@),
        ensures
            r == Ordering::Less <==> transaction_id_val(self@) < transaction_id_val(another@),
            r == Ordering::Equal <==> transaction_id_val(self@) == transaction_id_val(another@),
            r == Ordering::Greater <==> transaction_id_val(self@) > transaction_id_val(another@),
    {
        let first = parse_u64(self.id.as_str()).unwrap();
        let second = parse_u64(another.id.as_str()).unwrap();
        if first < second {
            Ordering::Less
        } else if first == second {
            Ordering::Equal
        } else {
            Ordering::Greater
        }
    }

    /// Sets the credit-side account id.
    pub fn set_credit(&mut self, credit: &str)
        ensures
            final(self)@ == (TransactionV { credit: credit@, ..old(self)@ }),
    {
        self.credit = credit.to_owned();
        proof {
            assert(final(self)@ =~= (TransactionV { credit: credit@, ..old(self)@ }));
        }
    }

    /// Sets the debit-side account id.
    pub fn set_debit(&mut self, debit: &str)
        ensures
            final(self)@ == (TransactionV { debit: debit@, ..old(self)@ }),
    {
        self.debit = debit.to_owned();
        proof {
            assert(final(self)@ =~= (TransactionV { debit: debit@, ..old(self)@ }));
        }
    }

    /// Sets the memo text.
    pub fn set_memo(&mut self, memo: &str)
        ensures
            final(self)@ == (TransactionV { memo: memo@, ..old(self)@ }),
    {
        self.memo = memo.to_owned();
        proof {
            assert(final(self)@ =~= (TransactionV { memo: memo@, ..old(self)@ }));
        }
    }

    /// Sets the amount moved.
    pub fn set_amount(&mut self, amount: Amount)
        ensures
            final(self)@ == (TransactionV { amount, ..old(self)@ }),
    {
        self.amount = amount;
        proof {
            assert(final(self)@ =~= (TransactionV { amount, ..old(self)@ }));
        }
    }

    /// An equal copy of the transaction, with the fields known to be kept.
    pub fn duplicate(&self) -> (t: Transaction)
        ensures
            t@ == self@,
    {
        Transaction {
            id: self.id.clone(),
            credit: self.credit.clone(),
            debit: self.debit.clone(),
            amount: self.amount,
            memo: self.memo.clone(),
            date: self.date,
        }
    }
}

} // verus!
