//! The balance aggregator: per-account net figures from the transactions.

use crate::account::{Account, AccountType, AccountV};
use crate::company::{Company, CompanyV};
use crate::sorting::transactions_view;
use crate::text::str_eq;
use crate::transaction::{Transaction, TransactionV};
use vstd::prelude::*;

verus! {

/// A signed amount in hundredths, as sign and magnitude.
#[derive(Debug, Clone, Copy, PartialEq, Eq, Structural)]
pub struct Net {
    pub negative: bool,
    pub cents: u128,
}

impl Net {
    /// The signed number the net stands for.
    pub open spec fn as_int(self) -> int {
        if self.negative {
            -(self.cents as int)
        } else {
            self.cents as int
        }
    }
}

/// The sum of the amounts of the transactions whose debit side is `id`.
pub open spec fn debit_total(ts: Seq<TransactionV>, id: Seq<char>) -> int
    decreases ts.len(),
{
    if ts.len() == 0 {
        0
    } else {
        debit_total(ts.drop_last(), id) + if ts.last().debit == id {
            ts.last().amount.cents as int
        } else {
            0
        }
    }
}

/// The sum of the amounts of the transactions whose credit side is `id`.
pub open spec fn credit_total(ts: Seq<TransactionV>, id: Seq<char>) -> int
    decreases ts.len(),
{
    if ts.len() == 0 {
        0
    } else {
        credit_total(ts.drop_last(), id) + if ts.last().credit == id {
            ts.last().amount.cents as int
        } else {
            0
        }
    }
}

/// Some transaction names `id` on its debit or credit side.
pub open spec fn participates(ts: Seq<TransactionV>, id: Seq<char>) -> bool {
    exists|i: int|
        0 <= i < ts.len() && ((#[trigger] ts[i]).debit == id || ts[i].credit == id)
}

/// The net figure of an account: debits received minus credits given for a
/// debit-polarity account, reversed for a credit-polarity one.  An account
/// with no polarity yet counts with debit polarity.
pub open spec fn net_of(c: CompanyV, a: AccountV) -> int {
    if a.account_type == Some(AccountType::Credit) {
        credit_total(c.transactions, a.id) - debit_total(c.transactions, a.id)
    } else {
        debit_total(c.transactions, a.id) - credit_total(c.transactions, a.id)
    }
}

/// Whether an account appears in the balance summary.
pub open spec fn balance_pred(c: CompanyV) -> spec_fn(AccountV) -> bool {
    |a: AccountV| participates(c.transactions, a.id)
}

/// The accounts of the balance summary: those with at least one
/// transaction on either side, in store order.
pub open spec fn balance_accounts(c: CompanyV) -> Seq<AccountV> {
    c.accounts.filter(balance_pred(c))
}

impl Net {
    /// Adds two nets exactly, or reports that the sum has left the
    /// representable range.
    pub fn checked_add(self, other: Net) -> (r: Option<Net>)
        ensures
            r matches Some(c) ==> c.as_int() == self.as_int() + other.as_int() && (c.cents == 0
                ==> !c.negative),
            r is None <==> self.as_int() + other.as_int() > u128::MAX || self.as_int()
                + other.as_int() < -(u128::MAX as int),
    {
        if self.negative == other.negative {
            match self.cents.checked_add(other.cents) {
                Some(cents) => Some(
                    Net { negative: if cents == 0 { false } else { self.negative }, cents },
                ),
                None => None,
            }
        } else {
            let (big, small, negative) = if self.cents >= other.cents {
                (self.cents, other.cents, self.negative)
            } else {
                (other.cents, self.cents, other.negative)
            };
            let cents = big - small;
            Some(Net { negative: if cents == 0 { false } else { negative }, cents })
        }
    }
}

/// The views of a run of summary entries.
pub open spec fn summary_view(s: Seq<(Account, Net)>) -> Seq<(AccountV, Net)> {
    s.map_values(|e: (Account, Net)| (e.0@, e.1))
}

/// An entry belongs to the credit section exactly when its account carries
/// the credit polarity; every other entry belongs to the debit section.
pub open spec fn entry_is_credit(e: (AccountV, Net)) -> bool {
    e.0.account_type == Some(AccountType::Credit)
}

/// The sum of the nets of a run of entries.
pub open spec fn sum_nets(s: Seq<(Account, Net)>) -> int
    decreases s.len(),
{
    if s.len() == 0 {
        0
    } else {
        sum_nets(s.drop_last()) + s.last().1.as_int()
    }
}

/// Splits a balance summary into its debit and credit sections, keeping the
/// order of the summary in each.
pub fn split_sections(summary: &Vec<(Account, Net)>) -> (r: (
    Vec<(Account, Net)>,
    Vec<(Account, Net)>,
))
    ensures
        summary_view(r.0@) == summary_view(summary@).filter(
            |e: (AccountV, Net)| !entry_is_credit(e),
        ),
        summary_view(r.1@) == summary_view(summary@).filter(
            |e: (AccountV, Net)| entry_is_credit(e),
        ),
{
    let ghost sv = summary_view(summary@);
    let ghost debit_pred = |e: (AccountV, Net)| !entry_is_credit(e);
    let ghost credit_pred = |e: (AccountV, Net)| entry_is_credit(e);
    let mut debits: Vec<(Account, Net)> = Vec::new();
    let mut credits: Vec<(Account, Net)> = Vec::new();
    let mut i: usize = 0;
    proof {
        reveal(Seq::filter);
        assert(sv.subrange(0, 0) =~= Seq::<(AccountV, Net)>::empty());
        assert(summary_view(debits@) =~= sv.subrange(0, 0).filter(debit_pred));
        assert(summary_view(credits@) =~= sv.subrange(0, 0).filter(credit_pred));
    }
    while i < summary.len()
        invariant
            sv == summary_view(summary@),
            sv.len() == summary@.len(),
            0 <= i <= sv.len(),
            debit_pred == (|e: (AccountV, Net)| !entry_is_credit(e)),
            credit_pred == (|e: (AccountV, Net)| entry_is_credit(e)),
            summary_view(debits@) == sv.subrange(0, i as int).filter(debit_pred),
            summary_view(credits@) == sv.subrange(0, i as int).filter(credit_pred),
        decreases sv.len() - i,
    {
        proof {
            reveal(Seq::filter);
            let p = sv.subrange(0, i + 1);
            assert(p.drop_last() =~= sv.subrange(0, i as int));
            assert(p.last() == sv[i as int]);
            assert(sv[i as int] == (summary@[i as int].0@, summary@[i as int].1));
        }
        let ghost debits0 = debits@;
        let ghost credits0 = credits@;
        let entry = (summary[i].0.duplicate(), summary[i].1);
        proof {
            assert(entry.0@ == summary@[i as int].0@);
        }
        let is_credit = match summary[i].0.account_type {
            Some(AccountType::Credit) => true,
            _ => false,
        };
        if is_credit {
            credits.push(entry);
            proof {
                assert(summary_view(credits@) =~= summary_view(credits0).push(sv[i as int]));
                assert(summary_view(credits@) =~= sv.subrange(0, i + 1).filter(credit_pred));
            }
        } else {
            debits.push(entry);
            proof {
                assert(summary_view(debits@) =~= summary_view(debits0).push(sv[i as int]));
                assert(summary_view(debits@) =~= sv.subrange(0, i + 1).filter(debit_pred));
            }
        }
        i = i + 1;
    }
    proof {
        assert(sv.subrange(0, sv.len() as int) =~= sv);
    }
    (debits, credits)
}

/// The running total of a section, or `None` when some running total left
/// the representable range.
pub fn section_total(entries: &Vec<(Account, Net)>) -> (r: Option<Net>)
    ensures
        r matches Some(t) ==> t.as_int() == sum_nets(entries@) && (t.cents == 0 ==> !t.negative),
        r is None <==> exists|i: int|
            0 <= i <= entries@.len() && (sum_nets(#[trigger] entries@.subrange(0, i)) > u128::MAX
                || sum_nets(entries@.subrange(0, i)) < -(u128::MAX as int)),
{
    let mut total = Net { negative: false, cents: 0 };
    let mut i: usize = 0;
    proof {
        assert(entries@.subrange(0, 0) =~= Seq::<(Account, Net)>::empty());
    }
    while i < entries.len()
        invariant
            0 <= i <= entries@.len(),
            total.as_int() == sum_nets(entries@.subrange(0, i as int)),
            total.cents == 0 ==> !total.negative,
            forall|j: int|
                0 <= j <= i ==> !(sum_nets(#[trigger] entries@.subrange(0, j)) > u128::MAX
                    || sum_nets(entries@.subrange(0, j)) < -(u128::MAX as int)),
        decreases entries@.len() - i,
    {
        proof {
            let p = entries@.subrange(0, i + 1);
            assert(p.drop_last() =~= entries@.subrange(0, i as int));
            assert(p.last() == entries@[i as int]);
        }
        total = match total.checked_add(entries[i].1) {
            Some(t) => t,
            None => {
                return None;
            },
        };
        i = i + 1;
    }
    proof {
        assert(entries@.subrange(0, entries@.len() as int) =~= entries@);
    }
    Some(total)
}

/// Both directional totals for one account id, and whether any transaction
/// names it.
fn totals_for(transactions: &Vec<Transaction>, id: &str) -> (r: (u128, u128, bool))
    ensures
        r.0 as int == debit_total(transactions_view(transactions@), id@),
        r.1 as int == credit_total(transactions_view(transactions@), id@),
        r.2 == participates(transactions_view(transactions@), id@),
{
    let ghost ts = transactions_view(transactions@);
    let mut dtot: u128 = 0;
    let mut ctot: u128 = 0;
    let mut involved = false;
    let mut i: usize = 0;
    let n = transactions.len();
    proof {
        assert(n == ts.len());
        assert(ts.subrange(0, 0) =~= Seq::<TransactionV>::empty());
        assert(usize::MAX as int <= u64::MAX as int);
    }
    while i < transactions.len()
        invariant
            ts == transactions_view(transactions@),
            ts.len() == transactions@.len(),
            ts.len() <= u64::MAX,
            0 <= i <= ts.len(),
            dtot as int == debit_total(ts.subrange(0, i as int), id@),
            ctot as int == credit_total(ts.subrange(0, i as int), id@),
            involved == participates(ts.subrange(0, i as int), id@),
            dtot as int <= (i as int) * (u64::MAX as int),
            ctot as int <= (i as int) * (u64::MAX as int),
        decreases ts.len() - i,
    {
        proof {
            let p = ts.subrange(0, i + 1);
            assert(p.drop_last() =~= ts.subrange(0, i as int));
            assert(p.last() == ts[i as int]);
            assert(ts[i as int] == transactions@[i as int]@);
            assert((i as int + 1) * (u64::MAX as int) == (i as int) * (u64::MAX as int) + (
            u64::MAX as int)) by (nonlinear_arith);
            assert((i as int + 1) * (u64::MAX as int) <= (u64::MAX as int) * (u64::MAX as int))
                by (nonlinear_arith)
                requires
                    0 <= i as int + 1 <= u64::MAX as int,
            ;
            assert((u64::MAX as int) * (u64::MAX as int) < u128::MAX as int);
            if participates(p, id@) && !participates(ts.subrange(0, i as int), id@) {
                assert(p[p.len() - 1].debit == id@ || p[p.len() - 1].credit == id@ || false);
            }
        }
        let t = &transactions[i];
        let amt: u128 = t.amount.cents as u128;
        if str_eq(t.debit.as_str(), id) {
            dtot = dtot + amt;
            involved = true;
        }
        if str_eq(t.credit.as_str(), id) {
            ctot = ctot + amt;
            involved = true;
        }
        proof {
            let p = ts.subrange(0, i + 1);
            if ts[i as int].debit == id@ || ts[i as int].credit == id@ {
                assert(participates(p, id@));
            }
        }
        i = i + 1;
    }
    proof {
        assert(ts.subrange(0, ts.len() as int) =~= ts);
    }
    (dtot, ctot, involved)
}

impl Company {
    /// The balance summary: every account with at least one transaction on
    /// either side, paired with its net figure, in store order.  An empty
    /// summary is the valid result for a ledger with no such account.
    pub fn balance_summary(&self) -> (r: Vec<(Account, Net)>)
        ensures
            r@.len() == balance_accounts(self@).len(),
            forall|i: int|
                0 <= i < r@.len() ==> (#[trigger] r@[i]).0@ == balance_accounts(self@)[i]
                    && r@[i].1.as_int() == net_of(self@, balance_accounts(self@)[i]) && (
                r@[i].1.cents == 0 ==> !r@[i].1.negative),
    {
        let ghost pred = balance_pred(self@);
        let mut out: Vec<(Account, Net)> = Vec::new();
        let mut i: usize = 0;
        proof {
            reveal(Seq::filter);
            assert(self@.accounts.subrange(0, 0) =~= Seq::<AccountV>::empty());
        }
        while i < self.accounts.len()
            invariant
                self@.accounts.len() == self.accounts@.len(),
                0 <= i <= self.accounts@.len(),
                pred == balance_pred(self@),
                out@.len() == self@.accounts.subrange(0, i as int).filter(pred).len(),
                forall|j: int|
                    0 <= j < out@.len() ==> (#[trigger] out@[j]).0@ == self@.accounts.subrange(
                        0,
                        i as int,
                    ).filter(pred)[j] && out@[j].1.as_int() == net_of(
                        self@,
                        self@.accounts.subrange(0, i as int).filter(pred)[j],
                    ) && (out@[j].1.cents == 0 ==> !out@[j].1.negative),
            decreases self.accounts@.len() - i,
        {
            proof {
                reveal(Seq::filter);
                let p = self@.accounts.subrange(0, i + 1);
                assert(p.drop_last() =~= self@.accounts.subrange(0, i as int));
                assert(p.last() == self@.accounts[i as int]);
                assert(self@.accounts[i as int] == self.accounts@[i as int]@);
            }
            let a = &self.accounts[i];
            let (dtot, ctot, involved) = totals_for(&self.transactions, a.id.as_str());
            if involved {
                let credit_polarity = match a.account_type {
                    Some(AccountType::Credit) => true,
                    _ => false,
                };
                let (hi, lo) = if credit_polarity {
                    (ctot, dtot)
                } else {
                    (dtot, ctot)
                };
                let net = if hi >= lo {
                    Net { negative: false, cents: hi - lo }
                } else {
                    Net { negative: true, cents: lo - hi }
                };
                out.push((a.duplicate(), net));
            }
            i = i + 1;
        }
        proof {
            assert(self@.accounts.subrange(0, self.accounts@.len() as int) =~= self@.accounts);
        }
        out
    }
}

} // verus!
