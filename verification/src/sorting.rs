//! Sorting of accounts and transactions by the numeric value of their ids.

use crate::account::{account_id_val, account_id_wf, Account, AccountV};
use crate::transaction::{transaction_id_val, transaction_id_wf, Transaction, TransactionV};
use core::cmp::Ordering;
use vstd::prelude::*;

verus! {

/// The views of a sequence of accounts.
pub open spec fn accounts_view(s: Seq<Account>) -> Seq<AccountV> {
    s.map_values(|a: Account| a@)
}

/// The views of a sequence of transactions.
pub open spec fn transactions_view(s: Seq<Transaction>) -> Seq<TransactionV> {
    s.map_values(|t: Transaction| t@)
}

/// Every account id is a numeral that fits the id space.
pub open spec fn accounts_ids_wf(s: Seq<AccountV>) -> bool {
    forall|i: int| 0 <= i < s.len() ==> account_id_wf(#[trigger] s[i])
}

/// Every transaction id is a numeral that fits the id space.
pub open spec fn transactions_ids_wf(s: Seq<TransactionV>) -> bool {
    forall|i: int| 0 <= i < s.len() ==> transaction_id_wf(#[trigger] s[i])
}

/// Account id values never decrease along the sequence.
pub open spec fn accounts_sorted_asc(s: Seq<AccountV>) -> bool {
    forall|i: int, j: int|
        #![trigger s[i], s[j]]
        0 <= i < j < s.len() ==> account_id_val(s[i]) <= account_id_val(s[j])
}

/// Account id values never increase along the sequence.
pub open spec fn accounts_sorted_desc(s: Seq<AccountV>) -> bool {
    forall|i: int, j: int|
        #![trigger s[i], s[j]]
        0 <= i < j < s.len() ==> account_id_val(s[i]) >= account_id_val(s[j])
}

/// Transaction id values never decrease along the sequence.
pub open spec fn transactions_sorted_asc(s: Seq<TransactionV>) -> bool {
    forall|i: int, j: int|
        #![trigger s[i], s[j]]
        0 <= i < j < s.len() ==> transaction_id_val(s[i]) <= transaction_id_val(s[j])
}

/// Transaction id values never increase along the sequence.
pub open spec fn transactions_sorted_desc(s: Seq<TransactionV>) -> bool {
    forall|i: int, j: int|
        #![trigger s[i], s[j]]
        0 <= i < j < s.len() ==> transaction_id_val(s[i]) >= transaction_id_val(s[j])
}

/// No two accounts share an id value.
pub open spec fn accounts_ids_distinct(s: Seq<AccountV>) -> bool {
    forall|i: int, j: int|
        #![trigger s[i], s[j]]
        0 <= i < j < s.len() ==> account_id_val(s[i]) != account_id_val(s[j])
}

/// No two transactions share an id value.
pub open spec fn transactions_ids_distinct(s: Seq<TransactionV>) -> bool {
    forall|i: int, j: int|
        #![trigger s[i], s[j]]
        0 <= i < j < s.len() ==> transaction_id_val(s[i]) != transaction_id_val(s[j])
}

/// Two sequences sorted the same way, with the same members and no repeated
/// key, are the same sequence.  In particular sorting is idempotent, and
/// sorting one way after the other leaves what a single sort leaves.
pub proof fn lemma_sorted_unique<T>(a: Seq<T>, b: Seq<T>, key: spec_fn(T) -> nat)
    requires
        forall|i: int, j: int| #![trigger a[i], a[j]] 0 <= i < j < a.len() ==> key(a[i]) <= key(a[j]),
        forall|i: int, j: int| #![trigger b[i], b[j]] 0 <= i < j < b.len() ==> key(b[i]) <= key(b[j]),
        forall|i: int, j: int| #![trigger a[i], a[j]] 0 <= i < j < a.len() ==> key(a[i]) != key(a[j]),
        a.to_multiset() == b.to_multiset(),
    ensures
        a == b,
    decreases a.len(),
{
    broadcast use vstd::seq_lib::group_to_multiset_ensures;

    vstd::seq_lib::to_multiset_len(a);
    vstd::seq_lib::to_multiset_len(b);
    assert(a.to_multiset().len() == b.to_multiset().len());
    assert(a.len() == b.len());
    if a.len() == 0 {
        assert(a =~= b);
    } else {
        let x = a.last();
        let y = b.last();
        assert(a[a.len() - 1] == x && b[b.len() - 1] == y);
        assert(a.contains(x) && b.contains(y));
        assert(b.to_multiset().count(x) > 0 && a.to_multiset().count(y) > 0);
        assert(b.contains(x) && a.contains(y));
        let ai = choose|ai: int| 0 <= ai < a.len() && a[ai] == y;
        let bi = choose|bi: int| 0 <= bi < b.len() && b[bi] == x;
        assert(key(y) <= key(x));
        assert(key(x) <= key(y));
        assert(ai == a.len() - 1);
        assert(x == y);
        let a1 = a.drop_last();
        let b1 = b.drop_last();
        assert(a =~= a1.push(x));
        assert(b =~= b1.push(x));
        assert(a1.to_multiset().insert(x) == b1.to_multiset().insert(x));
        assert(a1.to_multiset() =~= b1.to_multiset()) by {
            broadcast use vstd::multiset::group_multiset_axioms;

            assert forall|z: T| a1.to_multiset().count(z) == b1.to_multiset().count(z) by {
                assert(a1.to_multiset().insert(x).count(z) == a1.to_multiset().count(z) + (
                if z == x {
                    1int
                } else {
                    0int
                }));
                assert(b1.to_multiset().insert(x).count(z) == b1.to_multiset().count(z) + (
                if z == x {
                    1int
                } else {
                    0int
                }));
            }
        };
        lemma_sorted_unique(a1, b1, key);
        assert(a =~= b);
    }
}

/// A permutation of a sequence with no repeated key has no repeated key.
pub proof fn lemma_distinct_keys_permutation<T>(a: Seq<T>, b: Seq<T>, key: spec_fn(T) -> nat)
    requires
        forall|i: int, j: int| #![trigger a[i], a[j]] 0 <= i < j < a.len() ==> key(a[i]) != key(a[j]),
        a.to_multiset() == b.to_multiset(),
    ensures
        forall|i: int, j: int| #![trigger b[i], b[j]] 0 <= i < j < b.len() ==> key(b[i]) != key(b[j]),
{
    broadcast use vstd::seq_lib::group_to_multiset_ensures;
    broadcast use vstd::multiset::group_multiset_axioms;

    assert forall|i: int, j: int|
        #![trigger b[i], b[j]]
        0 <= i < j < b.len() implies key(b[i]) != key(b[j]) by {
        if key(b[i]) == key(b[j]) {
            if b[i] == b[j] {
                let b1 = b.remove(i);
                assert(b1[j - 1] == b[j]);
                assert(b1.contains(b[i]));
                assert(b1.to_multiset().count(b[i]) > 0);
                assert(b.to_multiset().count(b[i]) >= 2);
                assert(a.to_multiset().count(b[i]) >= 2);
                assert(a.contains(b[i]));
                let i1 = choose|i1: int| 0 <= i1 < a.len() && a[i1] == b[i];
                let a1 = a.remove(i1);
                assert(a1.to_multiset().count(b[i]) >= 1);
                assert(a1.contains(b[i]));
                let i2 = choose|i2: int| 0 <= i2 < a1.len() && a1[i2] == b[i];
                if i2 < i1 {
                    assert(a[i2] == a1[i2]);
                    assert(key(a[i2]) == key(a[i1]));
                } else {
                    assert(a[i2 + 1] == a1[i2]);
                    assert(key(a[i1]) == key(a[i2 + 1]));
                }
            } else {
                assert(b.contains(b[i]) && b.contains(b[j]));
                assert(a.to_multiset().count(b[i]) > 0 && a.to_multiset().count(b[j]) > 0);
                assert(a.contains(b[i]) && a.contains(b[j]));
                let i1 = choose|i1: int| 0 <= i1 < a.len() && a[i1] == b[i];
                let i2 = choose|i2: int| 0 <= i2 < a.len() && a[i2] == b[j];
                assert(i1 != i2);
                if i1 < i2 {
                    assert(key(a[i1]) == key(a[i2]));
                } else {
                    assert(key(a[i2]) == key(a[i1]));
                }
            }
        }
    }
}

/// A permutation of accounts with no repeated id value has none either.
pub proof fn lemma_accounts_ids_distinct_permutation(a: Seq<AccountV>, b: Seq<AccountV>)
    requires
        accounts_ids_distinct(a),
        a.to_multiset() == b.to_multiset(),
    ensures
        accounts_ids_distinct(b),
{
    lemma_distinct_keys_permutation(a, b, |x: AccountV| account_id_val(x));
}

/// A permutation of transactions with no repeated id value has none either.
pub proof fn lemma_transactions_ids_distinct_permutation(a: Seq<TransactionV>, b: Seq<TransactionV>)
    requires
        transactions_ids_distinct(a),
        a.to_multiset() == b.to_multiset(),
    ensures
        transactions_ids_distinct(b),
{
    lemma_distinct_keys_permutation(a, b, |x: TransactionV| transaction_id_val(x));
}

/// Sorting accounts is idempotent, and sorting one way after the other
/// leaves what a single sort leaves: with no repeated id value, only one
/// ascending arrangement of given accounts exists, so any two ascending
/// sorts of the same accounts agree.
pub proof fn lemma_sorted_accounts_unique(a: Seq<AccountV>, b: Seq<AccountV>)
    requires
        accounts_sorted_asc(a),
        accounts_sorted_asc(b),
        accounts_ids_distinct(a),
        a.to_multiset() == b.to_multiset(),
    ensures
        a == b,
{
    lemma_sorted_unique(a, b, |x: AccountV| account_id_val(x));
}

/// The transaction counterpart: any two ascending sorts of the same
/// transactions, with no repeated id value, agree.
pub proof fn lemma_sorted_transactions_unique(a: Seq<TransactionV>, b: Seq<TransactionV>)
    requires
        transactions_sorted_asc(a),
        transactions_sorted_asc(b),
        transactions_ids_distinct(a),
        a.to_multiset() == b.to_multiset(),
    ensures
        a == b,
{
    lemma_sorted_unique(a, b, |x: TransactionV| transaction_id_val(x));
}

/// Removing an element commutes with taking account views.
pub proof fn lemma_accounts_view_remove(s: Seq<Account>, i: int)
    requires
        0 <= i < s.len(),
    ensures
        accounts_view(s.remove(i)) == accounts_view(s).remove(i),
{
    assert(accounts_view(s.remove(i)) =~= accounts_view(s).remove(i));
}

/// Pushing an element commutes with taking account views.
pub proof fn lemma_accounts_view_push(s: Seq<Account>, a: Account)
    ensures
        accounts_view(s.push(a)) == accounts_view(s).push(a@),
{
    assert(accounts_view(s.push(a)) =~= accounts_view(s).push(a@));
}

/// Sorts accounts by numeric id, taking in turn the first remaining account
/// with the least (ascending) or greatest (descending) id.
pub fn sort_accounts_vec(v: Vec<Account>, ascending: bool) -> (out: Vec<Account>)
    requires
        accounts_ids_wf(accounts_view(v@)),
    ensures
        accounts_view(out@).to_multiset() == accounts_view(v@).to_multiset(),
        accounts_ids_wf(accounts_view(out@)),
        ascending ==> accounts_sorted_asc(accounts_view(out@)),
        !ascending ==> accounts_sorted_desc(accounts_view(out@)),
{
    broadcast use vstd::seq_lib::group_to_multiset_ensures;
    broadcast use vstd::multiset::group_multiset_axioms;

    let mut input = v;
    let mut out: Vec<Account> = Vec::new();
    proof {
        assert(accounts_view(out@) =~= Seq::<AccountV>::empty());
        vstd::seq_lib::to_multiset_len(accounts_view(out@));
        vstd::multiset::lemma_multiset_empty_len(accounts_view(out@).to_multiset());
        assert(accounts_view(out@).to_multiset().add(accounts_view(input@).to_multiset())
            =~= accounts_view(v@).to_multiset());
    }
    while input.len() > 0
        invariant
            accounts_ids_wf(accounts_view(input@)),
            accounts_ids_wf(accounts_view(out@)),
            accounts_view(out@).to_multiset().add(accounts_view(input@).to_multiset())
                == accounts_view(v@).to_multiset(),
            ascending ==> accounts_sorted_asc(accounts_view(out@)),
            !ascending ==> accounts_sorted_desc(accounts_view(out@)),
            ascending ==> forall|i: int, j: int|
                #![trigger accounts_view(out@)[i], accounts_view(input@)[j]]
                0 <= i < out@.len() && 0 <= j < input@.len() ==> account_id_val(
                    accounts_view(out@)[i],
                ) <= account_id_val(accounts_view(input@)[j]),
            !ascending ==> forall|i: int, j: int|
                #![trigger accounts_view(out@)[i], accounts_view(input@)[j]]
                0 <= i < out@.len() && 0 <= j < input@.len() ==> account_id_val(
                    accounts_view(out@)[i],
                ) >= account_id_val(accounts_view(input@)[j]),
        decreases input@.len(),
    {
        let mut best: usize = 0;
        let mut i: usize = 1;
        while i < input.len()
            invariant
                0 < input@.len(),
                accounts_ids_wf(accounts_view(input@)),
                best < i,
                1 <= i <= input@.len(),
                ascending ==> forall|j: int|
                    0 <= j < i ==> account_id_val(accounts_view(input@)[best as int])
                        <= account_id_val(#[trigger] accounts_view(input@)[j]),
                !ascending ==> forall|j: int|
                    0 <= j < i ==> account_id_val(accounts_view(input@)[best as int])
                        >= account_id_val(#[trigger] accounts_view(input@)[j]),
            decreases input@.len() - i,
        {
            proof {
                assert(account_id_wf(accounts_view(input@)[best as int]));
                assert(account_id_wf(accounts_view(input@)[i as int]));
                assert(accounts_view(input@)[best as int] == input@[best as int]@);
                assert(accounts_view(input@)[i as int] == input@[i as int]@);
            }
            let c = input[best].cmp(&input[i]);
            if ascending {
                match c {
                    Ordering::Greater => {
                        best = i;
                    },
                    _ => {},
                }
            } else {
                match c {
                    Ordering::Less => {
                        best = i;
                    },
                    _ => {},
                }
            }
            i = i + 1;
        }
        let ghost in_seq0 = input@;
        let ghost out_seq0 = out@;
        let ghost in0 = accounts_view(input@);
        let ghost out0 = accounts_view(out@);
        let x = input.remove(best);
        out.push(x);
        proof {
            lemma_accounts_view_remove(in_seq0, best as int);
            assert(accounts_view(input@) == in0.remove(best as int));
            lemma_accounts_view_push(out_seq0, x);
            assert(accounts_view(out@) == out0.push(x@));
            assert(in0[best as int] == x@);
            assert(in0.contains(x@));
            vstd::seq_lib::to_multiset_contains(in0, x@);
            vstd::seq_lib::to_multiset_build(out0, x@);
            vstd::seq_lib::to_multiset_remove(in0, best as int);
            assert(in0.to_multiset().count(x@) > 0);
            assert(accounts_view(out@).to_multiset().add(accounts_view(input@).to_multiset())
                =~= accounts_view(v@).to_multiset()) by {
                assert(accounts_view(out@).to_multiset() =~= out0.to_multiset().insert(x@));
                assert(accounts_view(input@).to_multiset() =~= in0.to_multiset().remove(x@));
                assert forall|z: AccountV|
                    accounts_view(out@).to_multiset().add(
                        accounts_view(input@).to_multiset(),
                    ).count(z) == accounts_view(v@).to_multiset().count(z) by {
                    assert(out0.to_multiset().add(in0.to_multiset()).count(z) == accounts_view(
                        v@,
                    ).to_multiset().count(z));
                }
            }
        }
    }
    out
}

/// Removing an element commutes with taking transaction views.
pub proof fn lemma_transactions_view_remove(s: Seq<Transaction>, i: int)
    requires
        0 <= i < s.len(),
    ensures
        transactions_view(s.remove(i)) == transactions_view(s).remove(i),
{
    assert(transactions_view(s.remove(i)) =~= transactions_view(s).remove(i));
}

/// Pushing an element commutes with taking transaction views.
pub proof fn lemma_transactions_view_push(s: Seq<Transaction>, t: Transaction)
    ensures
        transactions_view(s.push(t)) == transactions_view(s).push(t@),
{
    assert(transactions_view(s.push(t)) =~= transactions_view(s).push(t@));
}

/// Sorts transactions by numeric id, taking in turn the first remaining
/// transaction with the least (ascending) or greatest (descending) id.
pub fn sort_transactions_vec(v: Vec<Transaction>, ascending: bool) -> (out: Vec<Transaction>)
    requires
        transactions_ids_wf(transactions_view(v@)),
    ensures
        transactions_view(out@).to_multiset() == transactions_view(v@).to_multiset(),
        transactions_ids_wf(transactions_view(out@)),
        ascending ==> transactions_sorted_asc(transactions_view(out@)),
        !ascending ==> transactions_sorted_desc(transactions_view(out@)),
{
    broadcast use vstd::seq_lib::group_to_multiset_ensures;
    broadcast use vstd::multiset::group_multiset_axioms;

    let mut input = v;
    let mut out: Vec<Transaction> = Vec::new();
    proof {
        assert(transactions_view(out@) =~= Seq::<TransactionV>::empty());
        vstd::seq_lib::to_multiset_len(transactions_view(out@));
        vstd::multiset::lemma_multiset_empty_len(transactions_view(out@).to_multiset());
        assert(transactions_view(out@).to_multiset().add(transactions_view(input@).to_multiset())
            =~= transactions_view(v@).to_multiset());
    }
    while input.len() > 0
        invariant
            transactions_ids_wf(transactions_view(input@)),
            transactions_ids_wf(transactions_view(out@)),
            transactions_view(out@).to_multiset().add(transactions_view(input@).to_multiset())
                == transactions_view(v@).to_multiset(),
            ascending ==> transactions_sorted_asc(transactions_view(out@)),
            !ascending ==> transactions_sorted_desc(transactions_view(out@)),
            ascending ==> forall|i: int, j: int|
                #![trigger transactions_view(out@)[i], transactions_view(input@)[j]]
                0 <= i < out@.len() && 0 <= j < input@.len() ==> transaction_id_val(
                    transactions_view(out@)[i],
                ) <= transaction_id_val(transactions_view(input@)[j]),
            !ascending ==> forall|i: int, j: int|
                #![trigger transactions_view(out@)[i], transactions_view(input@)[j]]
                0 <= i < out@.len() && 0 <= j < input@.len() ==> transaction_id_val(
                    transactions_view(out@)[i],
                ) >= transaction_id_val(transactions_view(input@)[j]),
        decreases input@.len(),
    {
        let mut best: usize = 0;
        let mut i: usize = 1;
        while i < input.len()
            invariant
                0 < input@.len(),
                transactions_ids_wf(transactions_view(input@)),
                best < i,
                1 <= i <= input@.len(),
                ascending ==> forall|j: int|
                    0 <= j < i ==> transaction_id_val(transactions_view(input@)[best as int])
                        <= transaction_id_val(#[trigger] transactions_view(input@)[j]),
                !ascending ==> forall|j: int|
                    0 <= j < i ==> transaction_id_val(transactions_view(input@)[best as int])
                        >= transaction_id_val(#[trigger] transactions_view(input@)[j]),
            decreases input@.len() - i,
        {
            proof {
                assert(transaction_id_wf(transactions_view(input@)[best as int]));
                assert(transaction_id_wf(transactions_view(input@)[i as int]));
                assert(transactions_view(input@)[best as int] == input@[best as int]@);
                assert(transactions_view(input@)[i as int] == input@[i as int]@);
            }
            let c = input[best].cmp(&input[i]);
            if ascending {
                match c {
                    Ordering::Greater => {
                        best = i;
                    },
                    _ => {},
                }
            } else {
                match c {
                    Ordering::Less => {
                        best = i;
                    },
                    _ => {},
                }
            }
            i = i + 1;
        }
        let ghost in_seq0 = input@;
        let ghost out_seq0 = out@;
        let ghost in0 = transactions_view(input@);
        let ghost out0 = transactions_view(out@);
        let x = input.remove(best);
        out.push(x);
        proof {
            lemma_transactions_view_remove(in_seq0, best as int);
            assert(transactions_view(input@) == in0.remove(best as int));
            lemma_transactions_view_push(out_seq0, x);
            assert(transactions_view(out@) == out0.push(x@));
            assert(in0[best as int] == x@);
            assert(in0.contains(x@));
            vstd::seq_lib::to_multiset_contains(in0, x@);
            vstd::seq_lib::to_multiset_build(out0, x@);
            vstd::seq_lib::to_multiset_remove(in0, best as int);
            assert(in0.to_multiset().count(x@) > 0);
            assert(transactions_view(out@).to_multiset().add(
                transactions_view(input@).to_multiset(),
            ) =~= transactions_view(v@).to_multiset()) by {
                assert(transactions_view(out@).to_multiset() =~= out0.to_multiset().insert(x@));
                assert(transactions_view(input@).to_multiset() =~= in0.to_multiset().remove(x@));
                assert forall|z: TransactionV|
                    transactions_view(out@).to_multiset().add(
                        transactions_view(input@).to_multiset(),
                    ).count(z) == transactions_view(v@).to_multiset().count(z) by {
                    assert(out0.to_multiset().add(in0.to_multiset()).count(z)
                        == transactions_view(v@).to_multiset().count(z));
                }
            }
        }
    }
    out
}

} // verus!


