//! The ledger store: the accounts and transactions of one company.

use crate::account::{account_id_val, account_id_wf, Account, AccountType, AccountV};
use crate::sorting::{
    accounts_ids_wf, accounts_sorted_asc, accounts_sorted_desc, accounts_view, sort_accounts_vec,
    sort_transactions_vec, transactions_ids_wf, transactions_sorted_asc, transactions_sorted_desc,
    transactions_view,
};
use crate::text::str_eq;
use crate::transaction::{transaction_id_val, transaction_id_wf, Transaction, TransactionV};
use crate::LedgerError;
use vstd::prelude::*;

verus! {

/// The aggregate root: every account and every transaction of the ledger,
/// in insertion order unless a sort was requested.
#[derive(Debug, PartialEq)]
pub struct Company {
    pub accounts: Vec<Account>,
    pub transactions: Vec<Transaction>,
}

/// The mathematical value of the store.
#[verifier::ext_equal]
pub struct CompanyV {
    pub accounts: Seq<AccountV>,
    pub transactions: Seq<TransactionV>,
}

impl View for Company {
    type V = CompanyV;

    open spec fn view(&self) -> CompanyV {
        CompanyV {
            accounts: accounts_view(self.accounts@),
            transactions: transactions_view(self.transactions@),
        }
    }
}

/// Some account carries exactly this id.
pub open spec fn has_account_id(c: CompanyV, id: Seq<char>) -> bool {
    exists|i: int| 0 <= i < c.accounts.len() && (#[trigger] c.accounts[i]).id == id
}

/// Some transaction carries exactly this id.
pub open spec fn has_transaction_id(c: CompanyV, id: Seq<char>) -> bool {
    exists|i: int| 0 <= i < c.transactions.len() && (#[trigger] c.transactions[i]).id == id
}

/// The last position of an account with this id, or `-1`.
pub open spec fn last_account_index(s: Seq<AccountV>, id: Seq<char>) -> int
    decreases s.len(),
{
    if s.len() == 0 {
        -1
    } else if s.last().id == id {
        s.len() - 1
    } else {
        last_account_index(s.drop_last(), id)
    }
}

/// The last position of a transaction with this id, or `-1`.
pub open spec fn last_transaction_index(s: Seq<TransactionV>, id: Seq<char>) -> int
    decreases s.len(),
{
    if s.len() == 0 {
        -1
    } else if s.last().id == id {
        s.len() - 1
    } else {
        last_transaction_index(s.drop_last(), id)
    }
}

/// What `last_account_index` finds: the last account with the id.
pub proof fn lemma_last_account_index(s: Seq<AccountV>, id: Seq<char>)
    ensures
        -1 <= last_account_index(s, id) < s.len(),
        last_account_index(s, id) == -1 <==> !(exists|i: int|
            0 <= i < s.len() && (#[trigger] s[i]).id == id),
        last_account_index(s, id) >= 0 ==> last_account_index(s, id) < s.len() && s[
            last_account_index(s, id)
        ].id == id,
        forall|j: int| last_account_index(s, id) < j < s.len() ==> (#[trigger] s[j]).id != id,
    decreases s.len(),
{
    if s.len() > 0 && s.last().id != id {
        lemma_last_account_index(s.drop_last(), id);
        let front = s.drop_last();
        if exists|i: int| 0 <= i < s.len() && (#[trigger] s[i]).id == id {
            let w = choose|w: int| 0 <= w < s.len() && (#[trigger] s[w]).id == id;
            assert(front[w] == s[w]);
        }
        if exists|i: int| 0 <= i < front.len() && (#[trigger] front[i]).id == id {
            let w = choose|w: int| 0 <= w < front.len() && (#[trigger] front[w]).id == id;
            assert(s[w] == front[w]);
        }
        assert forall|j: int| last_account_index(s, id) < j < s.len() implies (#[trigger] s[j]).id
            != id by {
            if j < s.len() - 1 {
                assert(s[j] == front[j]);
            }
        }
    }
}

/// What `last_transaction_index` finds: the last transaction with the id.
pub proof fn lemma_last_transaction_index(s: Seq<TransactionV>, id: Seq<char>)
    ensures
        -1 <= last_transaction_index(s, id) < s.len(),
        last_transaction_index(s, id) == -1 <==> !(exists|i: int|
            0 <= i < s.len() && (#[trigger] s[i]).id == id),
        last_transaction_index(s, id) >= 0 ==> last_transaction_index(s, id) < s.len() && s[
            last_transaction_index(s, id)
        ].id == id,
        forall|j: int| last_transaction_index(s, id) < j < s.len() ==> (#[trigger] s[j]).id != id,
    decreases s.len(),
{
    if s.len() > 0 && s.last().id != id {
        lemma_last_transaction_index(s.drop_last(), id);
        let front = s.drop_last();
        if exists|i: int| 0 <= i < s.len() && (#[trigger] s[i]).id == id {
            let w = choose|w: int| 0 <= w < s.len() && (#[trigger] s[w]).id == id;
            assert(front[w] == s[w]);
        }
        if exists|i: int| 0 <= i < front.len() && (#[trigger] front[i]).id == id {
            let w = choose|w: int| 0 <= w < front.len() && (#[trigger] front[w]).id == id;
            assert(s[w] == front[w]);
        }
        assert forall|j: int|
            last_transaction_index(s, id) < j < s.len() implies (#[trigger] s[j]).id != id by {
            if j < s.len() - 1 {
                assert(s[j] == front[j]);
            }
        }
    }
}

/// The last position in the vector of an account with this id.
pub(crate) fn find_account_index(accounts: &Vec<Account>, id: &str) -> (r: Option<usize>)
    ensures
        r is None <==> last_account_index(accounts_view(accounts@), id@) == -1,
        r matches Some(i) ==> i == last_account_index(accounts_view(accounts@), id@),
{
    let ghost s = accounts_view(accounts@);
    let mut found: Option<usize> = None;
    let mut i: usize = 0;
    proof {
        assert(s.subrange(0, 0) =~= Seq::<AccountV>::empty());
    }
    while i < accounts.len()
        invariant
            s == accounts_view(accounts@),
            0 <= i <= s.len(),
            s.len() == accounts@.len(),
            found is None <==> last_account_index(s.subrange(0, i as int), id@) == -1,
            found matches Some(k) ==> k == last_account_index(s.subrange(0, i as int), id@),
        decreases s.len() - i,
    {
        proof {
            let p = s.subrange(0, i + 1);
            assert(p.drop_last() =~= s.subrange(0, i as int));
            assert(p.last() == s[i as int]);
            assert(s[i as int] == accounts@[i as int]@);
        }
        if str_eq(accounts[i].id.as_str(), id) {
            found = Some(i);
        }
        i = i + 1;
    }
    proof {
        assert(s.subrange(0, s.len() as int) =~= s);
    }
    found
}

/// The last position in the vector of a transaction with this id.
pub(crate) fn find_transaction_index(transactions: &Vec<Transaction>, id: &str) -> (r: Option<usize>)
    ensures
        r is None <==> last_transaction_index(transactions_view(transactions@), id@) == -1,
        r matches Some(i) ==> i == last_transaction_index(transactions_view(transactions@), id@),
{
    let ghost s = transactions_view(transactions@);
    let mut found: Option<usize> = None;
    let mut i: usize = 0;
    proof {
        assert(s.subrange(0, 0) =~= Seq::<TransactionV>::empty());
    }
    while i < transactions.len()
        invariant
            s == transactions_view(transactions@),
            0 <= i <= s.len(),
            s.len() == transactions@.len(),
            found is None <==> last_transaction_index(s.subrange(0, i as int), id@) == -1,
            found matches Some(k) ==> k == last_transaction_index(s.subrange(0, i as int), id@),
        decreases s.len() - i,
    {
        proof {
            let p = s.subrange(0, i + 1);
            assert(p.drop_last() =~= s.subrange(0, i as int));
            assert(p.last() == s[i as int]);
            assert(s[i as int] == transactions@[i as int]@);
        }
        if str_eq(transactions[i].id.as_str(), id) {
            found = Some(i);
        }
        i = i + 1;
    }
    proof {
        assert(s.subrange(0, s.len() as int) =~= s);
    }
    found
}

impl Default for Company {
    /// An empty store.
    fn default() -> (c: Company)
        ensures
            c@.accounts.len() == 0,
            c@.transactions.len() == 0,
    {
        Company { accounts: Vec::new(), transactions: Vec::new() }
    }
}

impl Company {
    /// Inserts the account if its id is not already present; never
    /// overwrites.  Returns whether insertion occurred.
    pub fn insert_account(&mut self, account: Account) -> (r: bool)
        ensures
            r == !has_account_id(old(self)@, account@.id),
            r ==> final(self)@ == (CompanyV {
                accounts: old(self)@.accounts.push(account@),
                ..old(self)@
            }),
            !r ==> *final(self) == *old(self),
    {
        proof {
            lemma_last_account_index(self@.accounts, account@.id);
        }
        match find_account_index(&self.accounts, account.id.as_str()) {
            Some(_) => false,
            None => {
                self.accounts.push(account);
                proof {
                    crate::sorting::lemma_accounts_view_push(old(self).accounts@, account);
                    assert(final(self)@ =~= (CompanyV {
                        accounts: old(self)@.accounts.push(account@),
                        ..old(self)@
                    }));
                }
                true
            },
        }
    }

    /// Removes the last account with this id, if one is present.  Returns
    /// whether a removal occurred.  Nothing else is removed: deletion does
    /// not cascade to subaccounts or to transactions that name the account.
    pub fn delete_account(&mut self, to_delete: &str) -> (r: bool)
        ensures
            r == has_account_id(old(self)@, to_delete@),
            r ==> final(self)@ == (CompanyV {
                accounts: old(self)@.accounts.remove(
                    last_account_index(old(self)@.accounts, to_delete@),
                ),
                ..old(self)@
            }),
            !r ==> *final(self) == *old(self),
    {
        proof {
            lemma_last_account_index(self@.accounts, to_delete@);
        }
        match find_account_index(&self.accounts, to_delete) {
            Some(i) => {
                self.accounts.remove(i);
                proof {
                    crate::sorting::lemma_accounts_view_remove(old(self).accounts@, i as int);
                    assert(final(self)@ =~= (CompanyV {
                        accounts: old(self)@.accounts.remove(
                            last_account_index(old(self)@.accounts, to_delete@),
                        ),
                        ..old(self)@
                    }));
                }
                true
            },
            None => false,
        }
    }

    /// Inserts the transaction if its id is not already present; never
    /// overwrites.  Returns whether insertion occurred.  The `debit` and
    /// `credit` account ids are not checked against the stored accounts:
    /// dangling references are tolerated here, as they are on deletion.
    pub fn insert_transaction(&mut self, transaction: Transaction) -> (r: bool)
        ensures
            r == !has_transaction_id(old(self)@, transaction@.id),
            r ==> final(self)@ == (CompanyV {
                transactions: old(self)@.transactions.push(transaction@),
                ..old(self)@
            }),
            !r ==> *final(self) == *old(self),
    {
        proof {
            lemma_last_transaction_index(self@.transactions, transaction@.id);
        }
        match find_transaction_index(&self.transactions, transaction.id.as_str()) {
            Some(_) => false,
            None => {
                self.transactions.push(transaction);
                proof {
                    crate::sorting::lemma_transactions_view_push(
                        old(self).transactions@,
                        transaction,
                    );
                    assert(final(self)@ =~= (CompanyV {
                        transactions: old(self)@.transactions.push(transaction@),
                        ..old(self)@
                    }));
                }
                true
            },
        }
    }

    /// Removes the last transaction with this id, if one is present.
    /// Returns whether a removal occurred; account registers are not
    /// rewritten.
    pub fn delete_transaction(&mut self, to_delete: &str) -> (r: bool)
        ensures
            r == has_transaction_id(old(self)@, to_delete@),
            r ==> final(self)@ == (CompanyV {
                transactions: old(self)@.transactions.remove(
                    last_transaction_index(old(self)@.transactions, to_delete@),
                ),
                ..old(self)@
            }),
            !r ==> *final(self) == *old(self),
    {
        proof {
            lemma_last_transaction_index(self@.transactions, to_delete@);
        }
        match find_transaction_index(&self.transactions, to_delete) {
            Some(i) => {
                self.transactions.remove(i);
                proof {
                    crate::sorting::lemma_transactions_view_remove(
                        old(self).transactions@,
                        i as int,
                    );
                    assert(final(self)@ =~= (CompanyV {
                        transactions: old(self)@.transactions.remove(
                            last_transaction_index(old(self)@.transactions, to_delete@),
                        ),
                        ..old(self)@
                    }));
                }
                true
            },
            None => false,
        }
    }

    /// Sorts the accounts by numeric id: descending for the direction token
    /// `desc`, ascending for `asc` and, deliberately, for any other token.
    pub fn sort_accounts(&mut self, direction: &str)
        requires
            accounts_ids_wf(old(self)@.accounts),
        ensures
            final(self)@.transactions == old(self)@.transactions,
            final(self)@.accounts.to_multiset() == old(self)@.accounts.to_multiset(),
            accounts_ids_wf(final(self)@.accounts),
            crate::sorting::accounts_ids_distinct(old(self)@.accounts)
                ==> crate::sorting::accounts_ids_distinct(final(self)@.accounts),
            direction@ == "desc"@ ==> accounts_sorted_desc(final(self)@.accounts),
            direction@ != "desc"@ ==> accounts_sorted_asc(final(self)@.accounts),
    {
        let descending = str_eq(direction, "desc");
        let mut taken: Vec<Account> = Vec::new();
        core::mem::swap(&mut taken, &mut self.accounts);
        let sorted = sort_accounts_vec(taken, !descending);
        self.accounts = sorted;
        proof {
            if crate::sorting::accounts_ids_distinct(old(self)@.accounts) {
                crate::sorting::lemma_accounts_ids_distinct_permutation(
                    old(self)@.accounts,
                    final(self)@.accounts,
                );
            }
        }
    }

    /// Sorts the transactions by numeric id: descending for the direction
    /// token `desc`, ascending for `asc` and, deliberately, for any other
    /// token.
    pub fn sort_transactions(&mut self, direction: &str)
        requires
            transactions_ids_wf(old(self)@.transactions),
        ensures
            final(self)@.accounts == old(self)@.accounts,
            final(self)@.transactions.to_multiset() == old(self)@.transactions.to_multiset(),
            transactions_ids_wf(final(self)@.transactions),
            crate::sorting::transactions_ids_distinct(old(self)@.transactions)
                ==> crate::sorting::transactions_ids_distinct(final(self)@.transactions),
            direction@ == "desc"@ ==> transactions_sorted_desc(final(self)@.transactions),
            direction@ != "desc"@ ==> transactions_sorted_asc(final(self)@.transactions),
    {
        let descending = str_eq(direction, "desc");
        let mut taken: Vec<Transaction> = Vec::new();
        core::mem::swap(&mut taken, &mut self.transactions);
        let sorted = sort_transactions_vec(taken, !descending);
        self.transactions = sorted;
        proof {
            if crate::sorting::transactions_ids_distinct(old(self)@.transactions) {
                crate::sorting::lemma_transactions_ids_distinct_permutation(
                    old(self)@.transactions,
                    final(self)@.transactions,
                );
            }
        }
    }
}

/// The greatest account id value, or zero for no accounts.
pub open spec fn max_account_id_val(s: Seq<AccountV>) -> nat
    decreases s.len(),
{
    if s.len() == 0 {
        0
    } else if account_id_val(s.last()) >= max_account_id_val(s.drop_last()) {
        account_id_val(s.last())
    } else {
        max_account_id_val(s.drop_last())
    }
}

/// The greatest transaction id value, or zero for no transactions.
pub open spec fn max_transaction_id_val(s: Seq<TransactionV>) -> nat
    decreases s.len(),
{
    if s.len() == 0 {
        0
    } else if transaction_id_val(s.last()) >= max_transaction_id_val(s.drop_last()) {
        transaction_id_val(s.last())
    } else {
        max_transaction_id_val(s.drop_last())
    }
}

/// The id to hand out next: one past the maximum, or one for an empty
/// collection.
pub open spec fn next_account_id_val(s: Seq<AccountV>) -> nat {
    if s.len() == 0 {
        1
    } else {
        max_account_id_val(s) + 1
    }
}

/// The id to hand out next: one past the maximum, or one for an empty
/// collection.
pub open spec fn next_transaction_id_val(s: Seq<TransactionV>) -> nat {
    if s.len() == 0 {
        1
    } else {
        max_transaction_id_val(s) + 1
    }
}

/// Which of the store's two collections an operation addresses.
#[derive(Debug, Clone, Copy, PartialEq, Eq, Structural)]
pub enum EntryKind {
    Account,
    Transaction,
}

impl Company {
    /// The greatest numeric account id in the store.
    ///
    /// Fails with `Allocation` on an empty collection and with `IdParse`
    /// when some account id is not a numeral of the id space.
    pub fn max_id_account(&self) -> (r: Result<u64, LedgerError>)
        ensures
            self@.accounts.len() == 0 <==> r == Err::<u64, LedgerError>(LedgerError::Allocation),
            self@.accounts.len() > 0 && !accounts_ids_wf(self@.accounts) <==> r == Err::<u64, LedgerError>(
                LedgerError::IdParse,
            ),
            self@.accounts.len() > 0 && accounts_ids_wf(self@.accounts) <==> (r matches Ok(m) && m
                == max_account_id_val(self@.accounts)),
    {
        let ghost s = self@.accounts;
        if self.accounts.len() == 0 {
            return Err(LedgerError::Allocation);
        }
        let mut m: u64 = 0;
        let mut i: usize = 0;
        proof {
            assert(s.subrange(0, 0) =~= Seq::<AccountV>::empty());
        }
        while i < self.accounts.len()
            invariant
                s == self@.accounts,
                s.len() == self.accounts@.len(),
                0 <= i <= s.len(),
                forall|j: int| 0 <= j < i ==> account_id_wf(#[trigger] s[j]),
                m == max_account_id_val(s.subrange(0, i as int)),
            decreases s.len() - i,
        {
            proof {
                let p = s.subrange(0, i + 1);
                assert(p.drop_last() =~= s.subrange(0, i as int));
                assert(p.last() == s[i as int]);
                assert(s[i as int] == self.accounts@[i as int]@);
            }
            match crate::numerals::parse_u64(self.accounts[i].id.as_str()) {
                Some(n) => {
                    if n >= m {
                        m = n;
                    }
                },
                None => {
                    proof {
                        assert(!account_id_wf(s[i as int]));
                    }
                    return Err(LedgerError::IdParse);
                },
            }
            i = i + 1;
        }
        proof {
            assert(s.subrange(0, s.len() as int) =~= s);
        }
        Ok(m)
    }

    /// The greatest numeric transaction id in the store.
    ///
    /// Fails with `Allocation` on an empty collection and with `IdParse`
    /// when some transaction id is not a numeral of the id space.
    pub fn max_id_transaction(&self) -> (r: Result<u64, LedgerError>)
        ensures
            self@.transactions.len() == 0 <==> r == Err::<u64, LedgerError>(LedgerError::Allocation),
            self@.transactions.len() > 0 && !transactions_ids_wf(self@.transactions) <==> r == Err::<u64, LedgerError>(
                LedgerError::IdParse,
            ),
            self@.transactions.len() > 0 && transactions_ids_wf(self@.transactions) <==> (r matches
                Ok(m) && m == max_transaction_id_val(self@.transactions)),
    {
        let ghost s = self@.transactions;
        if self.transactions.len() == 0 {
            return Err(LedgerError::Allocation);
        }
        let mut m: u64 = 0;
        let mut i: usize = 0;
        proof {
            assert(s.subrange(0, 0) =~= Seq::<TransactionV>::empty());
        }
        while i < self.transactions.len()
            invariant
                s == self@.transactions,
                s.len() == self.transactions@.len(),
                0 <= i <= s.len(),
                forall|j: int| 0 <= j < i ==> transaction_id_wf(#[trigger] s[j]),
                m == max_transaction_id_val(s.subrange(0, i as int)),
            decreases s.len() - i,
        {
            proof {
                let p = s.subrange(0, i + 1);
                assert(p.drop_last() =~= s.subrange(0, i as int));
                assert(p.last() == s[i as int]);
                assert(s[i as int] == self.transactions@[i as int]@);
            }
            match crate::numerals::parse_u64(self.transactions[i].id.as_str()) {
                Some(n) => {
                    if n >= m {
                        m = n;
                    }
                },
                None => {
                    proof {
                        assert(!transaction_id_wf(s[i as int]));
                    }
                    return Err(LedgerError::IdParse);
                },
            }
            i = i + 1;
        }
        proof {
            assert(s.subrange(0, s.len() as int) =~= s);
        }
        Ok(m)
    }

    /// Allocates the next free id of the chosen collection: one past the
    /// current maximum, or the first id on an empty collection.
    ///
    /// Fails with `IdParse` when a stored id does not parse and with
    /// `Allocation` when the id space is exhausted.
    pub fn allocate_next_id(&self, kind: EntryKind) -> (r: Result<String, LedgerError>)
        ensures
            kind == EntryKind::Account && (self@.accounts.len() == 0 || accounts_ids_wf(
                self@.accounts,
            ) && next_account_id_val(self@.accounts) <= u64::MAX) ==> (r matches Ok(id) && id@
                == crate::numerals::canonical_numeral(next_account_id_val(self@.accounts))),
            kind == EntryKind::Account && self@.accounts.len() > 0 && !accounts_ids_wf(
                self@.accounts,
            ) ==> r == Err::<String, LedgerError>(LedgerError::IdParse),
            kind == EntryKind::Account && self@.accounts.len() > 0 && accounts_ids_wf(
                self@.accounts,
            ) && next_account_id_val(self@.accounts) > u64::MAX ==> r == Err::<String, LedgerError>(
                LedgerError::Allocation,
            ),
            kind == EntryKind::Transaction && (self@.transactions.len() == 0
                || transactions_ids_wf(self@.transactions) && next_transaction_id_val(
                self@.transactions,
            ) <= u64::MAX) ==> (r matches Ok(id) && id@ == crate::numerals::canonical_numeral(
                next_transaction_id_val(self@.transactions),
            )),
            kind == EntryKind::Transaction && self@.transactions.len() > 0 && !transactions_ids_wf(
                self@.transactions,
            ) ==> r == Err::<String, LedgerError>(LedgerError::IdParse),
            kind == EntryKind::Transaction && self@.transactions.len() > 0 && transactions_ids_wf(
                self@.transactions,
            ) && next_transaction_id_val(self@.transactions) > u64::MAX ==> r == Err::<String, LedgerError>(
                LedgerError::Allocation,
            ),
    {
        let max = match kind {
            EntryKind::Account => self.max_id_account(),
            EntryKind::Transaction => self.max_id_transaction(),
        };
        match max {
            Ok(m) => {
                if m == u64::MAX {
                    Err(LedgerError::Allocation)
                } else {
                    Ok(crate::numerals::format_u64(m + 1))
                }
            },
            Err(e) => {
                match e {
                    LedgerError::Allocation => Ok(crate::numerals::format_u64(1)),
                    _ => Err(e),
                }
            },
        }
    }
}

/// The views of a sequence of borrowed transactions.
pub open spec fn ref_transactions_view(s: Seq<&Transaction>) -> Seq<TransactionV> {
    s.map_values(|t: &Transaction| t@)
}

/// The register of an account: the stored transactions, in store order,
/// whose ids the account lists.
pub open spec fn register_spec(c: CompanyV, a: AccountV) -> Seq<TransactionV> {
    c.transactions.filter(|t: TransactionV| a.transactions.contains(t.id))
}

/// The store invariant: every id parses and no id value repeats.
pub open spec fn company_wf(c: CompanyV) -> bool {
    accounts_ids_wf(c.accounts) && transactions_ids_wf(c.transactions)
        && crate::sorting::accounts_ids_distinct(c.accounts)
        && crate::sorting::transactions_ids_distinct(c.transactions)
}

impl Company {
    /// The last stored account with this id, if any.
    pub fn get_acccount_by_id(&self, id: &str) -> (r: Option<&Account>)
        ensures
            r is Some <==> has_account_id(self@, id@),
            r matches Some(a) ==> a@ == self@.accounts[last_account_index(self@.accounts, id@)],
    {
        proof {
            lemma_last_account_index(self@.accounts, id@);
        }
        match find_account_index(&self.accounts, id) {
            Some(i) => Some(&self.accounts[i]),
            None => None,
        }
    }

    /// Every stored account, in store order.  An empty ledger yields an
    /// empty sequence.
    pub fn get_accounts(&self) -> (r: Vec<&Account>)
        ensures
            r@.len() == self@.accounts.len(),
            forall|i: int| 0 <= i < r@.len() ==> (#[trigger] r@[i])@ == self@.accounts[i],
    {
        let mut out: Vec<&Account> = Vec::new();
        let mut i: usize = 0;
        while i < self.accounts.len()
            invariant
                0 <= i <= self.accounts@.len(),
                out@.len() == i,
                forall|j: int| 0 <= j < i ==> (#[trigger] out@[j])@ == self@.accounts[j],
            decreases self.accounts@.len() - i,
        {
            out.push(&self.accounts[i]);
            i = i + 1;
        }
        out
    }

    /// The register of the account with this id: every stored transaction
    /// the account lists, in store order.  `None` only when no account
    /// carries the id.
    pub fn get_transactions_by_account(&self, account_id: &str) -> (r: Option<Vec<&Transaction>>)
        ensures
            r is Some <==> has_account_id(self@, account_id@),
            r matches Some(ts) ==> ref_transactions_view(ts@) == register_spec(
                self@,
                self@.accounts[last_account_index(self@.accounts, account_id@)],
            ),
    {
        let account = match self.get_acccount_by_id(account_id) {
            Some(a) => a,
            None => {
                return None;
            },
        };
        let ghost av = self@.accounts[last_account_index(self@.accounts, account_id@)];
        let ghost pred = |t: TransactionV| av.transactions.contains(t.id);
        let mut out: Vec<&Transaction> = Vec::new();
        let mut i: usize = 0;
        proof {
            reveal(Seq::filter);
            assert(self@.transactions.subrange(0, 0) =~= Seq::<TransactionV>::empty());
        }
        while i < self.transactions.len()
            invariant
                0 <= i <= self.transactions@.len(),
                self@.transactions.len() == self.transactions@.len(),
                av == self@.accounts[last_account_index(self@.accounts, account_id@)],
                account@ == av,
                pred == (|t: TransactionV| av.transactions.contains(t.id)),
                ref_transactions_view(out@) == self@.transactions.subrange(0, i as int).filter(
                    pred,
                ),
            decreases self.transactions@.len() - i,
        {
            proof {
                reveal(Seq::filter);
                let p = self@.transactions.subrange(0, i + 1);
                assert(p.drop_last() =~= self@.transactions.subrange(0, i as int));
                assert(p.last() == self@.transactions[i as int]);
                assert(self@.transactions[i as int] == self.transactions@[i as int]@);
            }
            let ghost out0 = out@;
            if crate::text::contains_match(&account.transactions, self.transactions[i].id.as_str())
                {
                out.push(&self.transactions[i]);
                proof {
                    assert(ref_transactions_view(out@) =~= ref_transactions_view(out0).push(
                        self@.transactions[i as int],
                    ));
                }
            }
            i = i + 1;
        }
        proof {
            assert(self@.transactions.subrange(0, self.transactions@.len() as int)
                =~= self@.transactions);
        }
        Some(out)
    }

    /// Checks the store invariant: every id a numeral of the id space and
    /// no repeated id value.
    ///
    /// Fails with `IdParse` when some id does not parse, and with
    /// `DuplicateId` when all parse but a value repeats.
    pub fn validate(&self) -> (r: Result<(), LedgerError>)
        ensures
            r is Ok <==> company_wf(self@),
            r == Err::<(), LedgerError>(LedgerError::IdParse) <==> !(accounts_ids_wf(self@.accounts)
                && transactions_ids_wf(self@.transactions)),
            r == Err::<(), LedgerError>(LedgerError::DuplicateId) <==> accounts_ids_wf(
                self@.accounts,
            ) && transactions_ids_wf(self@.transactions) && !(crate::sorting::accounts_ids_distinct(
                self@.accounts,
            ) && crate::sorting::transactions_ids_distinct(self@.transactions)),
    {
        let ghost sa = self@.accounts;
        let ghost st = self@.transactions;
        let mut avals: Vec<u64> = Vec::new();
        let mut i: usize = 0;
        while i < self.accounts.len()
            invariant
                sa == self@.accounts,
                sa.len() == self.accounts@.len(),
                0 <= i <= sa.len(),
                avals@.len() == i,
                forall|j: int| 0 <= j < i ==> account_id_wf(#[trigger] sa[j]),
                forall|j: int| 0 <= j < i ==> avals@[j] == account_id_val(#[trigger] sa[j]),
            decreases sa.len() - i,
        {
            proof {
                assert(sa[i as int] == self.accounts@[i as int]@);
            }
            match crate::numerals::parse_u64(self.accounts[i].id.as_str()) {
                Some(n) => {
                    avals.push(n);
                },
                None => {
                    proof {
                        assert(!account_id_wf(sa[i as int]));
                    }
                    return Err(LedgerError::IdParse);
                },
            }
            i = i + 1;
        }
        let mut tvals: Vec<u64> = Vec::new();
        let mut k: usize = 0;
        while k < self.transactions.len()
            invariant
                st == self@.transactions,
                st.len() == self.transactions@.len(),
                0 <= k <= st.len(),
                tvals@.len() == k,
                forall|j: int| 0 <= j < k ==> transaction_id_wf(#[trigger] st[j]),
                forall|j: int| 0 <= j < k ==> tvals@[j] == transaction_id_val(#[trigger] st[j]),
            decreases st.len() - k,
        {
            proof {
                assert(st[k as int] == self.transactions@[k as int]@);
            }
            match crate::numerals::parse_u64(self.transactions[k].id.as_str()) {
                Some(n) => {
                    tvals.push(n);
                },
                None => {
                    proof {
                        assert(!transaction_id_wf(st[k as int]));
                    }
                    return Err(LedgerError::IdParse);
                },
            }
            k = k + 1;
        }
        match find_duplicate(&avals) {
            Some(pq) => {
                proof {
                    assert(account_id_val(sa[pq.0 as int]) == account_id_val(sa[pq.1 as int]));
                    assert(!crate::sorting::accounts_ids_distinct(sa));
                }
                return Err(LedgerError::DuplicateId);
            },
            None => {
                proof {
                    assert forall|p: int, q: int|
                        #![trigger sa[p], sa[q]]
                        0 <= p < q < sa.len() implies account_id_val(sa[p]) != account_id_val(
                        sa[q],
                    ) by {
                        assert(avals@[p] != avals@[q]);
                    }
                }
            },
        }
        match find_duplicate(&tvals) {
            Some(pq) => {
                proof {
                    assert(transaction_id_val(st[pq.0 as int]) == transaction_id_val(
                        st[pq.1 as int],
                    ));
                    assert(!crate::sorting::transactions_ids_distinct(st));
                }
                return Err(LedgerError::DuplicateId);
            },
            None => {
                proof {
                    assert forall|p: int, q: int|
                        #![trigger st[p], st[q]]
                        0 <= p < q < st.len() implies transaction_id_val(st[p])
                        != transaction_id_val(st[q]) by {
                        assert(tvals@[p] != tvals@[q]);
                    }
                }
            },
        }
        Ok(())
    }
}

/// The polarity a type token asks for: `d` or `c`, anything else invalid.
pub open spec fn type_token(s: Seq<char>) -> Option<AccountType> {
    if s == "d"@ {
        Some(AccountType::Debit)
    } else if s == "c"@ {
        Some(AccountType::Credit)
    } else {
        None
    }
}

/// The effective type of an account being created or retyped.
///
/// At the root, and under a parent id that resolves to no account, a valid
/// candidate is taken and an invalid one leaves the current type.  Under a
/// parent that exists, the type is forced to the parent's: a child never has
/// a different polarity than its parent.
pub open spec fn resolve_type_spec(
    c: CompanyV,
    candidate: Option<AccountType>,
    parent: Seq<char>,
    current: Option<AccountType>,
) -> Option<AccountType> {
    if parent == "0"@ {
        if candidate is Some {
            candidate
        } else {
            current
        }
    } else if has_account_id(c, parent) {
        c.accounts[last_account_index(c.accounts, parent)].account_type
    } else {
        if candidate is Some {
            candidate
        } else {
            current
        }
    }
}

impl Company {
    /// The effective type for a candidate type token and a parent id, given
    /// the current type.  The parent's polarity wins whenever the parent
    /// exists.
    pub fn resolve_type_on_create(
        &self,
        candidate: &str,
        parent_id: &str,
        current: Option<AccountType>,
    ) -> (r: Option<AccountType>)
        ensures
            r == resolve_type_spec(self@, type_token(candidate@), parent_id@, current),
    {
        let cand: Option<AccountType> = if str_eq(candidate, "d") {
            Some(AccountType::Debit)
        } else if str_eq(candidate, "c") {
            Some(AccountType::Credit)
        } else {
            None
        };
        if str_eq(parent_id, "0") {
            match cand {
                Some(t) => Some(t),
                None => current,
            }
        } else {
            match self.get_acccount_by_id(parent_id) {
                Some(p) => p.account_type,
                None => match cand {
                    Some(t) => Some(t),
                    None => current,
                },
            }
        }
    }
}

impl Account {
    /// Gives the account the next free account id of the company.
    pub fn set_id_in_company(&mut self, company: &Company)
        requires
            company@.accounts.len() == 0 || (accounts_ids_wf(company@.accounts)
                && next_account_id_val(company@.accounts) <= u64::MAX),
        ensures
            final(self)@ == (AccountV {
                id: crate::numerals::canonical_numeral(next_account_id_val(company@.accounts)),
                ..old(self)@
            }),
    {
        match company.allocate_next_id(EntryKind::Account) {
            Ok(id) => {
                self.id = id;
                proof {
                    assert(final(self)@ =~= (AccountV {
                        id: crate::numerals::canonical_numeral(
                            next_account_id_val(company@.accounts),
                        ),
                        ..old(self)@
                    }));
                }
            },
            Err(_) => {
                proof {
                    assert(false);
                }
            },
        }
    }

    /// Sets the account's type from a requested token, letting an existing
    /// parent's polarity win as `resolve_type_spec` says.
    pub fn set_type_in_company(&mut self, requested_type: &str, company: &Company)
        ensures
            final(self)@ == (AccountV {
                account_type: resolve_type_spec(
                    company@,
                    type_token(requested_type@),
                    old(self)@.parent,
                    old(self)@.account_type,
                ),
                ..old(self)@
            }),
    {
        let resolved = company.resolve_type_on_create(
            requested_type,
            self.parent.as_str(),
            self.account_type,
        );
        self.account_type = resolved;
        proof {
            assert(final(self)@ =~= (AccountV {
                account_type: resolve_type_spec(
                    company@,
                    type_token(requested_type@),
                    old(self)@.parent,
                    old(self)@.account_type,
                ),
                ..old(self)@
            }));
        }
    }
}

impl Transaction {
    /// Gives the transaction the next free transaction id of the company.
    pub fn set_id_in_company(&mut self, company: &Company)
        requires
            company@.transactions.len() == 0 || (transactions_ids_wf(company@.transactions)
                && next_transaction_id_val(company@.transactions) <= u64::MAX),
        ensures
            final(self)@ == (TransactionV {
                id: crate::numerals::canonical_numeral(
                    next_transaction_id_val(company@.transactions),
                ),
                ..old(self)@
            }),
    {
        match company.allocate_next_id(EntryKind::Transaction) {
            Ok(id) => {
                self.id = id;
                proof {
                    assert(final(self)@ =~= (TransactionV {
                        id: crate::numerals::canonical_numeral(
                            next_transaction_id_val(company@.transactions),
                        ),
                        ..old(self)@
                    }));
                }
            },
            Err(_) => {
                proof {
                    assert(false);
                }
            },
        }
    }
}

/// A pair of positions holding the same value, if the vector has one.
fn find_duplicate(v: &Vec<u64>) -> (r: Option<(usize, usize)>)
    ensures
        r matches Some(pq) ==> pq.0 < pq.1 < v@.len() && v@[pq.0 as int] == v@[pq.1 as int],
        r is None <==> forall|p: int, q: int|
            #![trigger v@[p], v@[q]]
            0 <= p < q < v@.len() ==> v@[p] != v@[q],
{
    let mut i: usize = 0;
    while i < v.len()
        invariant
            0 <= i <= v@.len(),
            forall|p: int, q: int|
                #![trigger v@[p], v@[q]]
                0 <= p < q < v@.len() && p < i ==> v@[p] != v@[q],
        decreases v@.len() - i,
    {
        let mut j: usize = i + 1;
        while j < v.len()
            invariant
                0 <= i < j <= v@.len(),
                forall|q: int| i < q < j ==> v@[i as int] != #[trigger] v@[q],
            decreases v@.len() - j,
        {
            if v[i] == v[j] {
                return Some((i, j));
            }
            j = j + 1;
        }
        i = i + 1;
    }
    None
}

} // verus!
