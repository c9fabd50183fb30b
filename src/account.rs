//! Accounts and the pool they form.

use vstd::prelude::*;

verus! {

/// An account's identifier: an opaque string, compared by value.
#[derive(Debug, Clone, PartialEq, Eq, Hash)]
pub struct AccountId(pub String);

/// An account of the pool: its identifier and its balance.
#[derive(Debug)]
pub struct Account {
    pub id: AccountId,
    pub balance: u64,
}

/// What the logic reads of an account: its identifier's text and its balance.
pub struct AccountView {
    pub id: Seq<char>,
    pub balance: u64,
}

impl View for Account {
    type V = AccountView;

    open spec fn view(&self) -> AccountView {
        AccountView { id: self.id.0@, balance: self.balance }
    }
}

/// The pool as the logic reads it.
pub open spec fn pool_view(accounts: Seq<Account>) -> Seq<AccountView> {
    accounts.map_values(|a: Account| a@)
}

impl AccountId {
    /// A copy of this identifier.
    pub fn duplicate(&self) -> (r: AccountId)
        ensures
            r == *self,
    {
        AccountId(self.0.clone())
    }

    /// Whether the two identifiers hold the same string.
    pub fn same_as(&self, other: &AccountId) -> (r: bool)
        ensures
            r == (self.0@ == other.0@),
    {
        self.0 == other.0
    }
}

/// The sum of the balances of `accounts`.
pub open spec fn total(accounts: Seq<AccountView>) -> int
    decreases accounts.len(),
{
    if accounts.len() == 0 {
        0
    } else {
        total(accounts.drop_last()) + accounts.last().balance
    }
}

/// No two accounts of the pool share an identifier.
pub open spec fn ids_distinct(accounts: Seq<AccountView>) -> bool {
    forall|i: int, j: int|
        0 <= i < accounts.len() && 0 <= j < accounts.len() && i != j
            ==> #[trigger] accounts[i].id != #[trigger] accounts[j].id
}

/// Some account of the pool has identifier `id`.
pub open spec fn has_id(accounts: Seq<AccountView>, id: Seq<char>) -> bool {
    exists|i: int| 0 <= i < accounts.len() && #[trigger] accounts[i].id == id
}

/// Replacing one account's balance changes the total by the difference.
pub proof fn lemma_total_update(accounts: Seq<AccountView>, k: int, a: AccountView)
    requires
        0 <= k < accounts.len(),
    ensures
        total(accounts.update(k, a)) == total(accounts) - accounts[k].balance + a.balance,
    decreases accounts.len(),
{
    let u = accounts.update(k, a);
    if k == accounts.len() - 1 {
        assert(u.drop_last() =~= accounts.drop_last());
    } else {
        assert(u.drop_last() =~= accounts.drop_last().update(k, a));
        lemma_total_update(accounts.drop_last(), k, a);
    }
}

/// No balance exceeds the total.
pub proof fn lemma_balance_le_total(accounts: Seq<AccountView>, k: int)
    requires
        0 <= k < accounts.len(),
    ensures
        accounts[k].balance <= total(accounts),
        total(accounts) >= 0,
    decreases accounts.len(),
{
    lemma_total_nonneg(accounts.drop_last());
    if k < accounts.len() - 1 {
        lemma_balance_le_total(accounts.drop_last(), k);
    }
}

/// The total is never negative.
pub proof fn lemma_total_nonneg(accounts: Seq<AccountView>)
    ensures
        total(accounts) >= 0,
    decreases accounts.len(),
{
    if accounts.len() > 0 {
        lemma_total_nonneg(accounts.drop_last());
    }
}

/// Two balances at distinct positions sum to at most the total.
pub proof fn lemma_two_balances_le_total(accounts: Seq<AccountView>, i: int, j: int)
    requires
        0 <= i < accounts.len(),
        0 <= j < accounts.len(),
        i != j,
    ensures
        accounts[i].balance + accounts[j].balance <= total(accounts),
    decreases accounts.len(),
{
    let n = accounts.len() - 1;
    lemma_total_nonneg(accounts.drop_last());
    if i == n {
        lemma_balance_le_total(accounts.drop_last(), j);
    } else if j == n {
        lemma_balance_le_total(accounts.drop_last(), i);
    } else {
        lemma_two_balances_le_total(accounts.drop_last(), i, j);
    }
}

/// The sum of the balances, or `None` where it does not fit in a `u64`.
pub fn checked_total(accounts: &Vec<Account>) -> (r: Option<u64>)
    ensures
        r matches Some(t) ==> t == total(pool_view(accounts@)),
        r is None ==> total(pool_view(accounts@)) > u64::MAX,
{
    let mut sum: u64 = 0;
    let mut i: usize = 0;
    while i < accounts.len()
        invariant
            i <= accounts.len(),
            sum == total(pool_view(accounts@).subrange(0, i as int)),
        decreases accounts.len() - i,
    {
        let ghost pv = pool_view(accounts@);
        let ghost prefix = pv.subrange(0, i as int + 1);
        assert(prefix.drop_last() =~= pv.subrange(0, i as int));
        if sum > u64::MAX - accounts[i].balance {
            proof {
                lemma_total_prefix_le(pv, i as int + 1);
            }
            return None;
        }
        sum = sum + accounts[i].balance;
        i = i + 1;
    }
    assert(pool_view(accounts@).subrange(0, i as int) =~= pool_view(accounts@));
    Some(sum)
}

/// A prefix's total is at most the whole total.
pub proof fn lemma_total_prefix_le(accounts: Seq<AccountView>, n: int)
    requires
        0 <= n <= accounts.len(),
    ensures
        total(accounts.subrange(0, n)) <= total(accounts),
    decreases accounts.len() - n,
{
    if n < accounts.len() {
        let p = accounts.subrange(0, n + 1);
        assert(p.drop_last() =~= accounts.subrange(0, n));
        lemma_total_prefix_le(accounts, n + 1);
    } else {
        assert(accounts.subrange(0, n) =~= accounts);
    }
}

} // verus!
