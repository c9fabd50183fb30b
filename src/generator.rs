//! The transaction generator and its two selection strategies.

use vstd::prelude::*;
use crate::account::{
    Account, AccountId, AccountView, checked_total, has_id, ids_distinct, lemma_total_update,
    lemma_two_balances_le_total, pool_view, total,
};
use crate::stream::{filtered, sent_by};
use crate::rng::{SeededRng, lemma_next_draw_in_range, next_draw};

verus! {

/// A generated transfer: sender, receiver and amount.
pub type Transfer = (AccountId, AccountId, u64);

/// A transfer as the logic reads it: sender's and receiver's identifiers, and
/// the amount.
pub type TransferView = (Seq<char>, Seq<char>, u64);

pub open spec fn transfer_view(t: Transfer) -> TransferView {
    (t.0.0@, t.1.0@, t.2)
}

pub open spec fn transfers_view(txs: Seq<Transfer>) -> Seq<TransferView> {
    txs.map_values(|t: Transfer| transfer_view(t))
}

/// The selection policy a generator is asked for.
#[derive(Clone, Copy, Debug, PartialEq, Eq)]
pub enum GeneratorKind {
    UniformRandom,
    WinnerLoser,
}

/// The selection policy with the state it needs.
#[derive(Clone, Copy, Debug, PartialEq, Eq)]
pub enum Strategy {
    /// Sender and receiver are drawn uniformly among all accounts.
    UniformRandom,
    /// One account, drawn when the generator is made, is the winner. On most
    /// steps a loser pays the winner; on the others the winner pays a loser.
    WinnerLoser { winner: usize },
}

/// Out of `BIAS_OUT_OF` steps of the winner-loser policy, `BIAS_TO_WINNER`
/// on average carry money to the winner.
pub const BIAS_TO_WINNER: u64 = 4;

pub const BIAS_OUT_OF: u64 = 5;

/// Why a generation session could not be run.
#[derive(Clone, Copy, Debug, PartialEq, Eq)]
pub enum GenerationError {
    /// A transfer needs two accounts.
    TooFewAccounts,
    /// The balances add up to `u64::MAX` or more.
    BalanceOverflow,
    /// A configuration names a generator other than `random` and
    /// `winner-loser`.
    UnknownGenerator,
    /// A generated transfer's sender has no password.
    MissingPassword,
}

/// The state of a generator: the pool, the policy, and the random source's
/// seed together with the bounds of every draw made from it.
pub struct GenModel {
    pub accounts: Seq<AccountView>,
    pub strategy: Strategy,
    pub seed: Seq<u64>,
    pub calls: Seq<(u64, u64)>,
}

/// The positions of one transfer and its amount.
pub struct Choice {
    pub sender: int,
    pub receiver: int,
    pub amount: u64,
}

/// A draw `k` from `[0, n - 1)` read as a position in `[0, n)` other than
/// `skipped`.
pub open spec fn skip_one(k: u64, skipped: int) -> int {
    if k >= skipped {
        k + 1
    } else {
        k as int
    }
}

/// A step can be taken: two accounts, and some money among them.
pub open spec fn can_step(m: GenModel) -> bool {
    m.accounts.len() >= 2 && total(m.accounts) > 0
}

/// Sender and receiver positions that the policy picks among `n` accounts
/// from its two draws: for the uniform policy the sender and a draw among the
/// other accounts; for the winner-loser policy a biased coin and a draw among
/// the losers.
pub open spec fn parties_from(strategy: Strategy, n: u64, d1: u64, d2: u64) -> (int, int) {
    match strategy {
        Strategy::UniformRandom => (d1 as int, skip_one(d2, d1 as int)),
        Strategy::WinnerLoser { winner } => {
            let other = skip_one(d2, winner as int);
            if d1 < BIAS_TO_WINNER {
                (other, winner as int)
            } else {
                (winner as int, other)
            }
        },
    }
}

/// The bound of a policy's first draw among `n` accounts.
pub open spec fn first_bound(strategy: Strategy, n: u64) -> u64 {
    match strategy {
        Strategy::UniformRandom => n,
        Strategy::WinnerLoser { .. } => BIAS_OUT_OF,
    }
}

/// Sender and receiver positions chosen by the policy, and the draws made.
pub open spec fn parties(m: GenModel) -> (int, int, Seq<(u64, u64)>) {
    let n = m.accounts.len() as u64;
    let b = first_bound(m.strategy, n);
    let d1 = next_draw(m.seed, m.calls, 0, b);
    let c1 = m.calls.push((0, b));
    let d2 = next_draw(m.seed, c1, 0, (n - 1) as u64);
    let (i, j) = parties_from(m.strategy, n, d1, d2);
    (i, j, c1.push((0, (n - 1) as u64)))
}

/// The positions `parties_from` gives, for draws in their ranges.
pub fn choose_parties(strategy: Strategy, n: u64, d1: u64, d2: u64) -> (r: (usize, usize))
    requires
        2 <= n <= usize::MAX,
        d1 < first_bound(strategy, n),
        d2 < n - 1,
        strategy matches Strategy::WinnerLoser { winner } ==> winner < n,
    ensures
        (r.0 as int, r.1 as int) == parties_from(strategy, n, d1, d2),
        r.0 < n && r.1 < n && r.0 != r.1,
{
    match strategy {
        Strategy::UniformRandom => {
            let j = if d2 >= d1 { d2 + 1 } else { d2 };
            (d1 as usize, j as usize)
        },
        Strategy::WinnerLoser { winner } => {
            let other = if d2 >= winner as u64 { d2 + 1 } else { d2 };
            if d1 < BIAS_TO_WINNER {
                (other as usize, winner)
            } else {
                (winner, other as usize)
            }
        },
    }
}

/// Moves `amount` from the account at `i` to the account at `j`.
pub fn apply_transfer(accounts: &mut Vec<Account>, i: usize, j: usize, amount: u64)
    requires
        i < old(accounts)@.len(),
        j < old(accounts)@.len(),
        i != j,
        amount <= old(accounts)@[i as int].balance,
        old(accounts)@[j as int].balance + amount <= u64::MAX,
    ensures
        final(accounts)@.len() == old(accounts)@.len(),
        pool_view(final(accounts)@) == with_balance(
            with_balance(pool_view(old(accounts)@), i as int, (old(accounts)@[i as int].balance - amount) as u64),
            j as int,
            (old(accounts)@[j as int].balance + amount) as u64,
        ),
{
    let bi = accounts[i].balance;
    let bj = accounts[j].balance;
    set_balance(accounts, i, bi - amount);
    assert(accounts@[j as int].balance == pool_view(accounts@)[j as int].balance);
    set_balance(accounts, j, bj + amount);
}

/// `accounts` with the balance at `k` replaced by `b`.
pub open spec fn with_balance(accounts: Seq<AccountView>, k: int, b: u64) -> Seq<AccountView> {
    accounts.update(k, AccountView { id: accounts[k].id, balance: b })
}

/// One step of generation: the transfer made, if any, and the next state.
/// The amount is drawn from `[0, sender's balance]`, taken from the sender and
/// given to the receiver.
pub open spec fn step(m: GenModel) -> (Option<Choice>, GenModel) {
    if !can_step(m) {
        (None, m)
    } else {
        let (i, j, c2) = parties(m);
        let bal = m.accounts[i].balance;
        let amount = next_draw(m.seed, c2, 0, (bal + 1) as u64);
        let a1 = with_balance(m.accounts, i, (bal - amount) as u64);
        let a2 = with_balance(a1, j, (a1[j].balance + amount) as u64);
        (
            Some(Choice { sender: i, receiver: j, amount }),
            GenModel { accounts: a2, strategy: m.strategy, seed: m.seed, calls: c2.push((0, (bal + 1) as u64)) },
        )
    }
}

/// The transfer that a choice stands for in the pool it was made on.
pub open spec fn transfer_of(accounts: Seq<AccountView>, c: Choice) -> TransferView {
    (accounts[c.sender].id, accounts[c.receiver].id, c.amount)
}

/// Up to `n` steps from `m`: the transfers made, in order, and the state
/// reached. Generation stops early once no step can be taken.
pub open spec fn run(m: GenModel, n: nat) -> (Seq<TransferView>, GenModel)
    decreases n,
{
    if n == 0 {
        (Seq::empty(), m)
    } else {
        match step(m).0 {
            None => (Seq::empty(), m),
            Some(c) => {
                let rest = run(step(m).1, (n - 1) as nat);
                (seq![transfer_of(m.accounts, c)] + rest.0, rest.1)
            },
        }
    }
}

/// The state of a fresh generator. The winner-loser policy draws its winner
/// first.
pub open spec fn initial_model(accounts: Seq<AccountView>, seed: Seq<u64>, kind: GeneratorKind) -> GenModel {
    let n = accounts.len() as u64;
    match kind {
        GeneratorKind::UniformRandom => GenModel {
            accounts,
            strategy: Strategy::UniformRandom,
            seed,
            calls: Seq::empty(),
        },
        GeneratorKind::WinnerLoser => GenModel {
            accounts,
            strategy: Strategy::WinnerLoser { winner: next_draw(seed, Seq::empty(), 0, n) as usize },
            seed,
            calls: seq![(0, n)],
        },
    }
}

/// A model a generator can be in: two accounts or more with distinct ids,
/// balances adding up to less than `u64::MAX`, and a winner among the accounts.
pub open spec fn model_wf(m: GenModel) -> bool {
    &&& 2 <= m.accounts.len() <= u64::MAX
    &&& ids_distinct(m.accounts)
    &&& total(m.accounts) < u64::MAX
    &&& (m.strategy matches Strategy::WinnerLoser { winner } ==> winner < m.accounts.len())
}

/// `pool` after transfer `t`, applied by identifier: the sender loses the
/// amount and the receiver gains it.
pub open spec fn applied(pool: Seq<AccountView>, t: TransferView) -> Seq<AccountView> {
    pool.map_values(
        |a: AccountView|
            if a.id == t.0 {
                AccountView { id: a.id, balance: (a.balance - t.2) as u64 }
            } else if a.id == t.1 {
                AccountView { id: a.id, balance: (a.balance + t.2) as u64 }
            } else {
                a
            },
    )
}

/// `t` can be made on `pool`: sender and receiver are two distinct accounts
/// of the pool, the amount is at most the sender's balance, and the
/// receiver's new balance fits.
pub open spec fn valid_transfer(pool: Seq<AccountView>, t: TransferView) -> bool {
    &&& t.0 != t.1
    &&& exists|i: int, j: int|
        #![trigger pool[i], pool[j]]
        0 <= i < pool.len() && 0 <= j < pool.len() && pool[i].id == t.0 && pool[j].id == t.1
            && t.2 <= pool[i].balance && pool[j].balance + t.2 <= u64::MAX
}

/// Applying `txs` to `pool` in order, each one valid where it is applied,
/// ends at `fin`.
pub open spec fn transfers_follow(pool: Seq<AccountView>, txs: Seq<TransferView>, fin: Seq<AccountView>) -> bool
    decreases txs.len(),
{
    if txs.len() == 0 {
        fin == pool
    } else {
        valid_transfer(pool, txs[0]) && transfers_follow(applied(pool, txs[0]), txs.drop_first(), fin)
    }
}

/// One step from a well-formed model that can step makes a valid transfer
/// between two distinct positions, with an amount at most the sender's
/// balance; the pool it leaves is the old one with that transfer applied, it
/// keeps the total, and the model stays well formed.
pub proof fn lemma_step_laws(m: GenModel)
    requires
        model_wf(m),
        can_step(m),
    ensures
        step(m).0 matches Some(c) && {
            &&& 0 <= c.sender < m.accounts.len()
            &&& 0 <= c.receiver < m.accounts.len()
            &&& c.sender != c.receiver
            &&& c.amount <= m.accounts[c.sender].balance
            &&& valid_transfer(m.accounts, transfer_of(m.accounts, c))
            &&& applied(m.accounts, transfer_of(m.accounts, c)) == step(m).1.accounts
        },
        model_wf(step(m).1),
        total(step(m).1.accounts) == total(m.accounts),
{
    let n = m.accounts.len() as u64;
    let (i, j, c2) = parties(m);
    match m.strategy {
        Strategy::UniformRandom => {
            lemma_next_draw_in_range(m.seed, m.calls, 0, n);
            lemma_next_draw_in_range(m.seed, m.calls.push((0, n)), 0, (n - 1) as u64);
        },
        Strategy::WinnerLoser { winner } => {
            lemma_next_draw_in_range(m.seed, m.calls.push((0, BIAS_OUT_OF)), 0, (n - 1) as u64);
        },
    }
    assert(0 <= i < n && 0 <= j < n && i != j);
    let bal = m.accounts[i].balance;
    lemma_two_balances_le_total(m.accounts, i, j);
    lemma_next_draw_in_range(m.seed, c2, 0, (bal + 1) as u64);
    let amount = next_draw(m.seed, c2, 0, (bal + 1) as u64);
    let a0 = m.accounts;
    let a1 = with_balance(a0, i, (bal - amount) as u64);
    let a2 = with_balance(a1, j, (a1[j].balance + amount) as u64);
    lemma_total_update(a0, i, AccountView { id: a0[i].id, balance: (bal - amount) as u64 });
    lemma_total_update(a1, j, AccountView { id: a1[j].id, balance: (a1[j].balance + amount) as u64 });
    let t = transfer_of(a0, Choice { sender: i, receiver: j, amount });
    assert(a0[i].id != a0[j].id);
    assert(valid_transfer(a0, t));
    assert forall|p: int| 0 <= p < a0.len() implies #[trigger] applied(a0, t)[p] == a2[p] by {
        if p != i && p != j {
            assert(a0[p].id != a0[i].id);
            assert(a0[p].id != a0[j].id);
        }
    }
    assert(applied(a0, t) =~= a2);
    assert forall|p: int, q: int|
        0 <= p < a2.len() && 0 <= q < a2.len() && p != q implies #[trigger] a2[p].id != #[trigger] a2[q].id by {
        assert(a0[p].id != a0[q].id);
    }
}

/// The laws of a run of `n` steps from a well-formed model: each transfer is
/// valid on the pool it is made on, and applying them in order gives the
/// final pool; the total is kept; and a pool that holds money yields exactly
/// `n` transfers.
pub proof fn lemma_run_laws(m: GenModel, n: nat)
    requires
        model_wf(m),
    ensures
        model_wf(run(m, n).1),
        total(run(m, n).1.accounts) == total(m.accounts),
        transfers_follow(m.accounts, run(m, n).0, run(m, n).1.accounts),
        total(m.accounts) > 0 ==> run(m, n).0.len() == n,
        run(m, n).0.len() <= n,
    decreases n,
{
    if n > 0 && can_step(m) {
        lemma_step_laws(m);
        let m2 = step(m).1;
        lemma_run_laws(m2, (n - 1) as nat);
        let c = step(m).0->Some_0;
        let t = transfer_of(m.accounts, c);
        let rest = run(m2, (n - 1) as nat).0;
        assert((seq![t] + rest)[0] == t);
        assert((seq![t] + rest).drop_first() =~= rest);
    }
}

/// Each transfer of a sequence that follows from `pool` moves money between
/// two distinct accounts of `pool`.
pub proof fn lemma_follow_ids(pool: Seq<AccountView>, txs: Seq<TransferView>, fin: Seq<AccountView>)
    requires
        transfers_follow(pool, txs, fin),
    ensures
        forall|k: int|
            0 <= k < txs.len() ==> #[trigger] txs[k].0 != txs[k].1 && has_id(pool, txs[k].0) && has_id(
                pool,
                txs[k].1,
            ),
    decreases txs.len(),
{
    if txs.len() > 0 {
        let next = applied(pool, txs[0]);
        lemma_follow_ids(next, txs.drop_first(), fin);
        assert forall|k: int| 0 <= k < txs.len() implies #[trigger] txs[k].0 != txs[k].1 && has_id(pool, txs[k].0)
            && has_id(pool, txs[k].1) by {
            if k == 0 {
                let (i, j) = choose|i: int, j: int|
                    #![trigger pool[i], pool[j]]
                    0 <= i < pool.len() && 0 <= j < pool.len() && pool[i].id == txs[0].0 && pool[j].id == txs[0].1
                        && txs[0].2 <= pool[i].balance && pool[j].balance + txs[0].2 <= u64::MAX;
                assert(pool[i].id == txs[0].0);
                assert(pool[j].id == txs[0].1);
            } else {
                assert(txs.drop_first()[k - 1] == txs[k]);
                let i = choose|i: int| 0 <= i < next.len() && #[trigger] next[i].id == txs[k].0;
                assert(pool[i].id == next[i].id);
                let j = choose|j: int| 0 <= j < next.len() && #[trigger] next[j].id == txs[k].1;
                assert(pool[j].id == next[j].id);
            }
        }
    }
}

/// One more step extends a run by the transfer that step makes, if any.
pub proof fn lemma_run_extend(m: GenModel, i: nat)
    ensures
        run(m, i + 1).1 == step(run(m, i).1).1,
        run(m, i + 1).0 == run(m, i).0 + match step(run(m, i).1).0 {
            Some(c) => seq![transfer_of(run(m, i).1.accounts, c)],
            None => Seq::<TransferView>::empty(),
        },
    decreases i,
{
    if i == 0 {
        match step(m).0 {
            Some(c) => {
                assert(run(step(m).1, 0).0 =~= Seq::<TransferView>::empty());
                assert(seq![transfer_of(m.accounts, c)] + Seq::<TransferView>::empty() =~= Seq::<TransferView>::empty() + seq![transfer_of(m.accounts, c)]);
            },
            None => {
                assert(Seq::<TransferView>::empty() + Seq::<TransferView>::empty() =~= Seq::<TransferView>::empty());
            },
        }
    } else {
        match step(m).0 {
            Some(c) => {
                lemma_run_extend(step(m).1, (i - 1) as nat);
                let t = transfer_of(m.accounts, c);
                let r = run(step(m).1, (i - 1) as nat).0;
                let e = match step(run(step(m).1, (i - 1) as nat).1).0 {
                    Some(c2) => seq![transfer_of(run(step(m).1, (i - 1) as nat).1.accounts, c2)],
                    None => Seq::<TransferView>::empty(),
                };
                assert(seq![t] + (r + e) =~= (seq![t] + r) + e);
            },
            None => {
                assert(Seq::<TransferView>::empty() + Seq::<TransferView>::empty() =~= Seq::<TransferView>::empty());
            },
        }
    }
}

/// A lazy producer of transfers over a pool that it owns.
pub struct TransactionGenerator {
    accounts: Vec<Account>,
    strategy: Strategy,
    rng: SeededRng,
    total: u64,
}

fn set_balance(accounts: &mut Vec<Account>, k: usize, b: u64)
    requires
        k < old(accounts)@.len(),
    ensures
        final(accounts)@.len() == old(accounts)@.len(),
        pool_view(final(accounts)@) == with_balance(pool_view(old(accounts)@), k as int, b),
{
    let id = accounts[k].id.duplicate();
    accounts.set(k, Account { id, balance: b });
    assert(pool_view(accounts@) =~= with_balance(pool_view(old(accounts)@), k as int, b));
}

impl TransactionGenerator {
    pub closed spec fn view(&self) -> GenModel {
        GenModel {
            accounts: pool_view(self.accounts@),
            strategy: self.strategy,
            seed: self.rng.seed(),
            calls: self.rng.calls(),
        }
    }

    /// The pool has two accounts or more with distinct ids, the balances add
    /// up to less than `u64::MAX`, and the winner is one of the accounts.
    pub closed spec fn wf(&self) -> bool {
        &&& 2 <= self.accounts@.len() <= u64::MAX
        &&& ids_distinct(pool_view(self.accounts@))
        &&& self.total == total(pool_view(self.accounts@))
        &&& self.total < u64::MAX
        &&& (self.strategy matches Strategy::WinnerLoser { winner } ==> winner < self.accounts@.len())
    }

    /// A generator of the given kind over `accounts`, drawing from a source
    /// seeded with `seed`.
    pub fn new(accounts: Vec<Account>, seed: &Vec<u64>, kind: GeneratorKind) -> (r: Result<
        TransactionGenerator,
        GenerationError,
    >)
        requires
            ids_distinct(pool_view(accounts@)),
        ensures
            accounts@.len() < 2 <==> r == Err::<TransactionGenerator, _>(GenerationError::TooFewAccounts),
            accounts@.len() >= 2 && total(pool_view(accounts@)) >= u64::MAX
                <==> r == Err::<TransactionGenerator, _>(GenerationError::BalanceOverflow),
            accounts@.len() >= 2 && total(pool_view(accounts@)) < u64::MAX ==> r is Ok,
            r matches Ok(g) ==> g.wf() && g@ == initial_model(pool_view(accounts@), seed@, kind),
    {
        if accounts.len() < 2 {
            return Err(GenerationError::TooFewAccounts);
        }
        let t = match checked_total(&accounts) {
            Some(t) => t,
            None => {
                return Err(GenerationError::BalanceOverflow);
            },
        };
        if t == u64::MAX {
            return Err(GenerationError::BalanceOverflow);
        }
        let mut rng = SeededRng::new(seed);
        let strategy = match kind {
            GeneratorKind::UniformRandom => Strategy::UniformRandom,
            GeneratorKind::WinnerLoser => {
                let w = rng.next_in(0, accounts.len() as u64);
                Strategy::WinnerLoser { winner: w as usize }
            },
        };
        proof {
            let e = Seq::<(u64, u64)>::empty();
            assert(e.push((0u64, accounts@.len() as u64)) =~= seq![(0u64, accounts@.len() as u64)]);
        }
        Ok(TransactionGenerator { accounts, strategy, rng, total: t })
    }

    /// The accounts, with their current balances.
    pub fn accounts(&self) -> (r: &Vec<Account>)
        ensures
            pool_view(r@) == self@.accounts,
    {
        &self.accounts
    }

    /// Ends the session and hands the pool back.
    pub fn into_accounts(self) -> (r: Vec<Account>)
        ensures
            pool_view(r@) == self@.accounts,
    {
        self.accounts
    }

    /// Produces the next transfer and applies it to the pool, or returns
    /// `None` when no account holds any money. The transfer is the one `step`
    /// gives; its parties are distinct accounts, its amount is at most the
    /// sender's balance before it, and the total of the balances is kept.
    pub fn next(&mut self) -> (r: Option<Transfer>)
        requires
            old(self).wf(),
        ensures
            final(self).wf(),
            final(self)@ == step(old(self)@).1,
            r is None <==> !can_step(old(self)@),
            r is None ==> final(self)@ == old(self)@,
            step(old(self)@).0 matches Some(c) ==> {
                &&& r matches Some(t) && transfer_view(t) == transfer_of(old(self)@.accounts, c)
                &&& 0 <= c.sender < old(self)@.accounts.len()
                &&& 0 <= c.receiver < old(self)@.accounts.len()
                &&& c.sender != c.receiver
                &&& old(self)@.accounts[c.sender].id != old(self)@.accounts[c.receiver].id
                &&& c.amount <= old(self)@.accounts[c.sender].balance
            },
            total(final(self)@.accounts) == total(old(self)@.accounts),
    {
        if self.total == 0 {
            return None;
        }
        let n = self.accounts.len() as u64;
        let d1 = match self.strategy {
            Strategy::UniformRandom => self.rng.next_in(0, n),
            Strategy::WinnerLoser { .. } => self.rng.next_in(0, BIAS_OUT_OF),
        };
        let d2 = self.rng.next_in(0, n - 1);
        let (i, j) = choose_parties(self.strategy, n, d1, d2);
        let ghost a0 = pool_view(self.accounts@);
        let bal = self.accounts[i].balance;
        proof {
            lemma_two_balances_le_total(a0, i as int, j as int);
        }
        let amount = self.rng.next_in(0, bal + 1);
        let from = self.accounts[i].id.duplicate();
        let to = self.accounts[j].id.duplicate();
        let rb = self.accounts[j].balance;
        apply_transfer(&mut self.accounts, i, j, amount);
        let ghost a1 = with_balance(a0, i as int, (bal - amount) as u64);
        proof {
            lemma_total_update(a0, i as int, AccountView { id: a0[i as int].id, balance: (bal - amount) as u64 });
            lemma_total_update(a1, j as int, AccountView { id: a1[j as int].id, balance: (rb + amount) as u64 });
            let a2 = pool_view(self.accounts@);
            assert forall|p: int, q: int|
                0 <= p < a2.len() && 0 <= q < a2.len() && p != q
                    implies #[trigger] a2[p].id != #[trigger] a2[q].id by {
                assert(a2[p].id == a0[p].id);
                assert(a2[q].id == a0[q].id);
                assert(a0[p].id != a0[q].id);
            }
        }
        Some((from, to, amount))
    }

    /// Pulls up to `n` transfers: exactly those of `run`. Fewer than `n` come
    /// back only when no account holds any money; as transfers keep the
    /// total, that is so from the start or never.
    pub fn take(&mut self, n: usize) -> (r: Vec<Transfer>)
        requires
            old(self).wf(),
        ensures
            final(self).wf(),
            transfers_view(r@) == run(old(self)@, n as nat).0,
            final(self)@ == run(old(self)@, n as nat).1,
            r@.len() <= n,
            total(old(self)@.accounts) > 0 ==> r@.len() == n,
            total(final(self)@.accounts) == total(old(self)@.accounts),
            transfers_follow(old(self)@.accounts, transfers_view(r@), final(self)@.accounts),
    {
        let mut out: Vec<Transfer> = Vec::new();
        let mut i: usize = 0;
        let ghost start = self@;
        while i < n
            invariant
                self.wf(),
                i <= n,
                start == old(self)@,
                total(self@.accounts) == total(start.accounts),
                out@.len() == i,
                run(start, n as nat).0 == transfers_view(out@) + run(self@, (n - i) as nat).0,
                run(start, n as nat).1 == run(self@, (n - i) as nat).1,
            decreases n - i,
        {
            let ghost before = self@;
            match self.next() {
                Some(t) => {
                    proof {
                        let rest = run(self@, (n - i - 1) as nat);
                        assert(run(before, (n - i) as nat).0 == seq![transfer_view(t)] + rest.0);
                        assert(transfers_view(out@.push(t)) =~= transfers_view(out@).push(transfer_view(t)));
                        assert(transfers_view(out@).push(transfer_view(t)) + rest.0 =~= transfers_view(out@) + (seq![transfer_view(t)] + rest.0));
                    }
                    out.push(t);
                    i = i + 1;
                },
                None => {
                    proof {
                        assert(step(before).0 is None);
                        assert(run(before, (n - i) as nat).0 == Seq::<TransferView>::empty());
                        assert(transfers_view(out@) + Seq::<TransferView>::empty() =~= transfers_view(out@));
                        lemma_run_laws(start, n as nat);
                    }
                    return out;
                },
            }
        }
        proof {
            assert(transfers_view(out@) + Seq::<TransferView>::empty() =~= transfers_view(out@));
            lemma_run_laws(start, n as nat);
        }
        out
    }

    /// Pulls transfers until `count` of them were sent by `target`, or
    /// `max_pulls` were pulled, or no account holds any money. Returns the
    /// transfers sent by `target`, in order, and the number of pulls. Every
    /// pulled transfer was applied to the pool, kept or not. Fewer than
    /// `count` come back only when `max_pulls` pulls were made or the pool
    /// holds no money.
    pub fn take_filtered(&mut self, target: &AccountId, count: usize, max_pulls: usize) -> (r: (
        Vec<Transfer>,
        usize,
    ))
        requires
            old(self).wf(),
        ensures
            final(self).wf(),
            r.1 <= max_pulls,
            transfers_view(r.0@) == filtered(run(old(self)@, r.1 as nat).0, target.0@),
            final(self)@ == run(old(self)@, r.1 as nat).1,
            r.0@.len() <= count,
            r.0@.len() < count ==> r.1 == max_pulls || total(old(self)@.accounts) == 0,
            r.1 > 0 ==> filtered(run(old(self)@, (r.1 - 1) as nat).0, target.0@).len() < count,
            total(final(self)@.accounts) == total(old(self)@.accounts),
            transfers_follow(old(self)@.accounts, run(old(self)@, r.1 as nat).0, final(self)@.accounts),
    {
        let ghost start = self@;
        let mut out: Vec<Transfer> = Vec::new();
        let mut i: usize = 0;
        proof {
            assert(filtered(Seq::<TransferView>::empty(), target.0@) =~= Seq::<TransferView>::empty()) by {
                reveal(Seq::filter);
            }
        }
        while i < max_pulls && out.len() < count
            invariant
                self.wf(),
                start == old(self)@,
                model_wf(start),
                i <= max_pulls,
                out@.len() <= count,
                self@ == run(start, i as nat).1,
                transfers_view(out@) == filtered(run(start, i as nat).0, target.0@),
                i > 0 ==> filtered(run(start, (i - 1) as nat).0, target.0@).len() < count,
            decreases max_pulls - i,
        {
            let ghost before = out@;
            let ghost prev = run(start, i as nat);
            proof {
                lemma_run_extend(start, i as nat);
            }
            match self.next() {
                Some(t) => {
                    proof {
                        let pred = |x: TransferView| sent_by(x, target.0@);
                        prev.0.lemma_filter_push(transfer_view(t), pred);
                        assert(prev.0 + seq![transfer_view(t)] =~= prev.0.push(transfer_view(t)));
                    }
                    if t.0.same_as(target) {
                        out.push(t);
                        proof {
                            assert(transfers_view(out@) =~= transfers_view(before).push(transfer_view(t)));
                        }
                    }
                    i = i + 1;
                },
                None => {
                    proof {
                        lemma_run_laws(start, i as nat);
                    }
                    return (out, i);
                },
            }
        }
        proof {
            lemma_run_laws(start, i as nat);
        }
        (out, i)
    }
}

} // verus!
