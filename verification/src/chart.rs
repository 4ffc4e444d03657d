//! The hierarchy resolver: parent chains and the chart of accounts.

use crate::account::{Account, AccountV};
use crate::company::{last_account_index, lemma_last_account_index, Company, CompanyV};
use crate::sorting::accounts_view;
use crate::text::str_eq;
use crate::LedgerError;
use vstd::prelude::*;

verus! {

/// How a parent-chain walk ends.
#[verifier::ext_equal]
pub enum ChainOutcome {
    /// The chain reached the root sentinel.
    Done(Seq<AccountV>),
    /// The walk revisited an id already on the chain, or ran out of steps.
    Cycle,
    /// A parent id resolved to no account.
    Missing,
}

/// Some link of the chain carries this id.
pub open spec fn chain_has_id(chain: Seq<AccountV>, id: Seq<char>) -> bool {
    exists|i: int| 0 <= i < chain.len() && (#[trigger] chain[i]).id == id
}

/// One parent-chain walk: from the chain built so far, follow the last
/// link's parent until the root sentinel, a missing parent, a revisited id,
/// or exhausted fuel.
pub open spec fn chain_walk(accs: Seq<AccountV>, chain: Seq<AccountV>, fuel: nat) -> ChainOutcome
    decreases fuel,
{
    let tail = chain.last();
    if tail.parent == "0"@ {
        ChainOutcome::Done(chain)
    } else if last_account_index(accs, tail.parent) == -1 {
        ChainOutcome::Missing
    } else {
        let p = accs[last_account_index(accs, tail.parent)];
        if chain_has_id(chain, p.id) {
            ChainOutcome::Cycle
        } else if fuel == 0 {
            ChainOutcome::Cycle
        } else {
            chain_walk(accs, chain.push(p), (fuel - 1) as nat)
        }
    }
}

/// The outcome of the walk that starts at one account, with fuel for as
/// many steps as the store has accounts.
pub open spec fn account_chain(c: CompanyV, a: AccountV) -> ChainOutcome {
    chain_walk(c.accounts, seq![a], c.accounts.len())
}

/// What a finished walk built, stated over the chain alone: the prefix is
/// kept, every later link is the account its predecessor's parent names,
/// and the last link sits at the root.
proof fn lemma_chain_walk_done(accs: Seq<AccountV>, prefix: Seq<AccountV>, fuel: nat)
    requires
        prefix.len() >= 1,
    ensures
        chain_walk(accs, prefix, fuel) matches ChainOutcome::Done(chain) ==> chain.len()
            >= prefix.len() && chain.subrange(0, prefix.len() as int) == prefix && (forall|k: int|
            prefix.len() - 1 <= k < chain.len() - 1 ==> (#[trigger] chain[k]).parent != "0"@
                && last_account_index(accs, chain[k].parent) >= 0 && chain[k + 1] == accs[
            last_account_index(accs, chain[k].parent)]) && chain.last().parent == "0"@,
    decreases fuel,
{
    let tail = prefix.last();
    if tail.parent == "0"@ {
        assert(prefix.subrange(0, prefix.len() as int) =~= prefix);
    } else if last_account_index(accs, tail.parent) == -1 {
    } else {
        let p = accs[last_account_index(accs, tail.parent)];
        if !chain_has_id(prefix, p.id) && fuel > 0 {
            lemma_chain_walk_done(accs, prefix.push(p), (fuel - 1) as nat);
            match chain_walk(accs, prefix, fuel) {
                ChainOutcome::Done(chain) => {
                    assert(chain_walk(accs, prefix.push(p), (fuel - 1) as nat)
                        == ChainOutcome::Done(chain));
                    assert(chain.subrange(0, prefix.len() as int + 1) == prefix.push(p));
                    assert forall|j: int| 0 <= j < prefix.len() implies chain.subrange(
                        0,
                        prefix.len() as int,
                    )[j] == prefix[j] by {
                        assert(chain.subrange(0, prefix.len() as int + 1)[j] == prefix.push(p)[j]);
                    }
                    assert(chain.subrange(0, prefix.len() as int) =~= prefix);
                    assert(chain[prefix.len() - 1] == prefix.last());
                    assert(chain[prefix.len() as int] == p);
                    assert forall|k: int|
                        prefix.len() - 1 <= k < chain.len() - 1 implies (#[trigger] chain[k]).parent
                        != "0"@ && last_account_index(accs, chain[k].parent) >= 0 && chain[k + 1]
                        == accs[last_account_index(accs, chain[k].parent)] by {
                        lemma_last_account_index(accs, chain[k].parent);
                        if k == prefix.len() - 1 {
                            assert(chain[k] == prefix.last());
                            assert(chain[k + 1] == p);
                        }
                    }
                },
                _ => {},
            }
        }
    }
}

/// What one account's successful walk means, structurally: the chain starts
/// at the account, each later link is the stored account named by its
/// predecessor's `parent`, and the chain ends at the root sentinel.
pub proof fn lemma_account_chain_done(c: CompanyV, a: AccountV, chain: Seq<AccountV>)
    requires
        account_chain(c, a) == ChainOutcome::Done(chain),
    ensures
        chain.len() >= 1,
        chain[0] == a,
        forall|k: int|
            0 <= k < chain.len() - 1 ==> (#[trigger] chain[k]).parent != "0"@
                && last_account_index(c.accounts, chain[k].parent) >= 0 && chain[k + 1]
                == c.accounts[last_account_index(c.accounts, chain[k].parent)],
        chain.last().parent == "0"@,
{
    lemma_chain_walk_done(c.accounts, seq![a], c.accounts.len());
    assert(chain.subrange(0, 1) == seq![a]);
    assert(chain[0] == chain.subrange(0, 1)[0]);
}

/// Cycle safety, in any store: when two stored accounts' parent ids
/// resolve to each other, the walk that starts at either of them ends in
/// `Cycle` after at most two steps — it never runs unbounded.  With the
/// chart's contract, which yields `Ok` only when every account's walk
/// ends at the root, such a store never yields a chart.  An account whose
/// parent resolves to itself is the one-step case of the same law.
pub proof fn lemma_mutual_parents_cycle(c: CompanyV, i: int, j: int)
    requires
        0 <= i < c.accounts.len(),
        0 <= j < c.accounts.len(),
        c.accounts[i].parent != "0"@,
        c.accounts[j].parent != "0"@,
        last_account_index(c.accounts, c.accounts[i].parent) == j,
        last_account_index(c.accounts, c.accounts[j].parent) == i,
    ensures
        account_chain(c, c.accounts[i]) is Cycle,
{
    let accs = c.accounts;
    let a = accs[i];
    let b = accs[j];
    let fuel = accs.len();
    assert(seq![a].last() == a);
    if chain_has_id(seq![a], b.id) {
        assert(account_chain(c, a) is Cycle);
    } else {
        assert(fuel > 0);
        assert(seq![a].push(b) =~= seq![a, b]);
        assert(seq![a, b].last() == b);
        assert(chain_has_id(seq![a, b], a.id)) by {
            assert(seq![a, b][0] == a);
        }
        assert(chain_walk(accs, seq![a, b], (fuel - 1) as nat) is Cycle);
        assert(account_chain(c, a) is Cycle);
    }
}

/// The views of a chart: each chain of accounts as its chain of views.
pub open spec fn chart_view(s: Seq<Vec<Account>>) -> Seq<Seq<AccountV>> {
    s.map_values(|v: Vec<Account>| accounts_view(v@))
}

/// Whether some link of the chain carries this id.
fn chain_contains_id(chain: &Vec<Account>, id: &str) -> (r: bool)
    ensures
        r == chain_has_id(accounts_view(chain@), id@),
{
    let ghost s = accounts_view(chain@);
    let mut i: usize = 0;
    while i < chain.len()
        invariant
            s == accounts_view(chain@),
            s.len() == chain@.len(),
            0 <= i <= s.len(),
            forall|j: int| 0 <= j < i ==> (#[trigger] s[j]).id != id@,
        decreases s.len() - i,
    {
        proof {
            assert(s[i as int] == chain@[i as int]@);
        }
        if str_eq(chain[i].id.as_str(), id) {
            return true;
        }
        i = i + 1;
    }
    false
}

impl Company {
    /// Walks the parent chain upward from one account.
    ///
    /// Fails with `Cycle` when a parent id revisits the chain and with
    /// `NotFound` when a parent id resolves to no account.
    fn walk_chain(&self, start: &Account) -> (r: Result<Vec<Account>, LedgerError>)
        ensures
            r matches Ok(ch) ==> account_chain(self@, start@) == ChainOutcome::Done(
                accounts_view(ch@),
            ),
            r == Err::<Vec<Account>, LedgerError>(LedgerError::Cycle) <==> account_chain(
                self@,
                start@,
            ) is Cycle,
            r == Err::<Vec<Account>, LedgerError>(LedgerError::NotFound) <==> account_chain(
                self@,
                start@,
            ) is Missing,
            r matches Err(e) ==> e == LedgerError::Cycle || e == LedgerError::NotFound,
    {
        let ghost accs = self@.accounts;
        let mut chain: Vec<Account> = Vec::new();
        chain.push(start.duplicate());
        let mut fuel: usize = self.accounts.len();
        proof {
            assert(accounts_view(chain@) =~= seq![start@]);
        }
        loop
            invariant
                accs == self@.accounts,
                chain@.len() >= 1,
                fuel <= accs.len(),
                chain_walk(accs, seq![start@], accs.len() as nat) == chain_walk(
                    accs,
                    accounts_view(chain@),
                    fuel as nat,
                ),
            decreases fuel,
        {
            let ghost cv = accounts_view(chain@);
            proof {
                assert(cv.last() == chain@[chain@.len() - 1]@);
                lemma_last_account_index(accs, cv.last().parent);
            }
            let tail_parent = chain[chain.len() - 1].parent.clone();
            if str_eq(tail_parent.as_str(), "0") {
                return Ok(chain);
            }
            match crate::company::find_account_index(&self.accounts, tail_parent.as_str()) {
                None => {
                    return Err(LedgerError::NotFound);
                },
                Some(pi) => {
                    let p = self.accounts[pi].duplicate();
                    proof {
                        assert(p@ == accs[last_account_index(accs, cv.last().parent)]);
                    }
                    if chain_contains_id(&chain, p.id.as_str()) {
                        return Err(LedgerError::Cycle);
                    }
                    if fuel == 0 {
                        return Err(LedgerError::Cycle);
                    }
                    chain.push(p);
                    fuel = fuel - 1;
                    proof {
                        assert(accounts_view(chain@) =~= cv.push(p@));
                    }
                },
            }
        }
    }

    /// The chart of accounts: one parent-to-root chain per stored account,
    /// each chain leaf first, in store order.
    ///
    /// Fails with `Cycle` or `NotFound` as the first failing walk does.
    pub fn get_chart_of_accounts(&self) -> (r: Result<Vec<Vec<Account>>, LedgerError>)
        ensures
            r matches Ok(chart) ==> chart@.len() == self@.accounts.len() && forall|i: int|
                0 <= i < chart@.len() ==> account_chain(self@, self@.accounts[i])
                    == ChainOutcome::Done(#[trigger] chart_view(chart@)[i]),
            r matches Err(e) ==> exists|i: int|
                0 <= i < self@.accounts.len() && !(#[trigger] account_chain(
                    self@,
                    self@.accounts[i],
                ) is Done) && (e == LedgerError::Cycle <==> account_chain(
                    self@,
                    self@.accounts[i],
                ) is Cycle) && (forall|j: int|
                    0 <= j < i ==> #[trigger] account_chain(self@, self@.accounts[j]) is Done),
    {
        let mut chart: Vec<Vec<Account>> = Vec::new();
        let mut i: usize = 0;
        while i < self.accounts.len()
            invariant
                self@.accounts.len() == self.accounts@.len(),
                0 <= i <= self.accounts@.len(),
                chart@.len() == i,
                forall|j: int|
                    0 <= j < i ==> account_chain(self@, self@.accounts[j]) == ChainOutcome::Done(
                        #[trigger] chart_view(chart@)[j],
                    ),
            decreases self.accounts@.len() - i,
        {
            proof {
                assert(self@.accounts[i as int] == self.accounts@[i as int]@);
            }
            let ghost chart0 = chart@;
            match self.walk_chain(&self.accounts[i]) {
                Ok(chain) => {
                    let ghost chv = accounts_view(chain@);
                    chart.push(chain);
                    proof {
                        assert(chart_view(chart@) =~= chart_view(chart0).push(chv));
                    }
                },
                Err(e) => {
                    proof {
                        assert(!(account_chain(self@, self@.accounts[i as int]) is Done));
                        assert forall|j: int|
                            0 <= j < i as int implies #[trigger] account_chain(
                            self@,
                            self@.accounts[j],
                        ) is Done by {
                            assert(account_chain(self@, self@.accounts[j]) == ChainOutcome::Done(
                                chart_view(chart@)[j],
                            ));
                        }
                    }
                    return Err(e);
                },
            }
            i = i + 1;
        }
        Ok(chart)
    }
}

} // verus!
