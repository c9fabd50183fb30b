//! Requests built from generated transfers, and a whole generation session.

use vstd::prelude::*;
use vstd::string::{StrSliceExecFns, StringExecFns};
use crate::account::{Account, AccountId, AccountView, has_id, ids_distinct, pool_view, total};
use crate::generator::{
    GenerationError, GeneratorKind, TransactionGenerator, Transfer, TransferView, initial_model,
    run, transfer_view, transfers_view,
};
use crate::generator::{lemma_follow_ids, transfers_follow};
use crate::stream::{filtered, lemma_filter_exact};

verus! {

pub const JSONRPC_VERSION: &'static str = "2.0";

pub const METHOD_NAME: &'static str = "personal_sendTransaction";

/// The password that unlocks an account for sending.
#[derive(Debug, Clone, PartialEq)]
pub struct Password(pub String);

/// A transfer as a request states it: the amount in hexadecimal text.
#[derive(Debug, Clone, PartialEq)]
pub struct Transaction {
    pub from: AccountId,
    pub to: AccountId,
    pub value: String,
}

/// The parameters of a send request: the transaction and the sender's password.
#[derive(Debug, Clone, PartialEq)]
pub struct PersonalSendTransactionParams(pub Transaction, pub Password);

/// A JSON-RPC request envelope.
#[derive(Debug, Clone, PartialEq)]
pub struct Wrapper<P> {
    pub jsonrpc: String,
    pub method: String,
    pub params: P,
    pub id: usize,
}

pub type PersonalSendTransaction = Wrapper<PersonalSendTransactionParams>;

/// The lower-case hexadecimal digits of `v`, most significant first, with no
/// leading zero.
pub open spec fn hex_digits(v: nat) -> Seq<char>
    decreases v,
{
    if v < 16 {
        seq![hex_digit(v)]
    } else {
        hex_digits(v / 16).push(hex_digit(v % 16))
    }
}

pub open spec fn hex_digit(d: nat) -> char {
    seq!['0', '1', '2', '3', '4', '5', '6', '7', '8', '9', 'a', 'b', 'c', 'd', 'e', 'f'][d as int]
}

/// `v` as `0x` followed by its lower-case hexadecimal digits.
pub open spec fn hex_text(v: u64) -> Seq<char> {
    seq!['0', 'x'] + hex_digits(v as nat)
}

/// Appends the hexadecimal digits of `v` to `s`.
fn push_hex_digits(s: &mut String, v: u64)
    ensures
        final(s)@ == old(s)@ + hex_digits(v as nat),
    decreases v,
{
    if v >= 16 {
        push_hex_digits(s, v / 16);
    }
    let d = (v % 16) as usize;
    let digits = "0123456789abcdef";
    proof {
        reveal_strlit("0123456789abcdef");
    }
    let digit = digits.substring_char(d, d + 1);
    assert(digit@ =~= seq![hex_digit(d as nat)]);
    s.append(digit);
    proof {
        if v >= 16 {
            assert(hex_digits(v as nat) == hex_digits((v / 16) as nat).push(hex_digit((v % 16) as nat)));
        }
    }
    assert(s@ =~= old(s)@ + hex_digits(v as nat));
}

/// `v` as `0x` followed by its lower-case hexadecimal digits, with no leading
/// zero.
pub fn hex_amount(v: u64) -> (r: String)
    ensures
        r@ == hex_text(v),
{
    let mut s = "0x".to_owned();
    proof {
        reveal_strlit("0x");
    }
    push_hex_digits(&mut s, v);
    assert(s@ =~= hex_text(v));
    s
}

/// `e` is the request numbered `id` for transfer `t`, unlocked with `password`.
pub open spec fn is_request_for(e: PersonalSendTransaction, t: TransferView, id: int, password: Seq<char>) -> bool {
    &&& e.jsonrpc@ == JSONRPC_VERSION@
    &&& e.method@ == METHOD_NAME@
    &&& e.params.0.from.0@ == t.0
    &&& e.params.0.to.0@ == t.1
    &&& e.params.0.value@ == hex_text(t.2)
    &&& e.params.1.0@ == password
    &&& e.id == id
}

impl Wrapper<PersonalSendTransactionParams> {
    /// A send request numbered `id`.
    pub fn new(params: PersonalSendTransactionParams, id: usize) -> (r: PersonalSendTransaction)
        ensures
            r.jsonrpc@ == JSONRPC_VERSION@,
            r.method@ == METHOD_NAME@,
            r.params == params,
            r.id == id,
    {
        Wrapper { jsonrpc: JSONRPC_VERSION.to_owned(), method: METHOD_NAME.to_owned(), params, id }
    }
}

/// The generator kind a configuration names: `random` or `winner-loser`.
pub fn generator_kind(name: &str) -> (r: Result<GeneratorKind, GenerationError>)
    ensures
        name@ == "random"@ ==> r == Ok::<_, GenerationError>(GeneratorKind::UniformRandom),
        name@ == "winner-loser"@ ==> r == Ok::<_, GenerationError>(GeneratorKind::WinnerLoser),
        name@ != "random"@ && name@ != "winner-loser"@ ==> r == Err::<GeneratorKind, _>(
            GenerationError::UnknownGenerator,
        ),
{
    proof {
        reveal_strlit("random");
        reveal_strlit("winner-loser");
        assert("random"@.len() != "winner-loser"@.len());
    }
    let s = name.to_owned();
    if s == "random".to_owned() {
        Ok(GeneratorKind::UniformRandom)
    } else if s == "winner-loser".to_owned() {
        Ok(GeneratorKind::WinnerLoser)
    } else {
        Err(GenerationError::UnknownGenerator)
    }
}

/// No two entries of the password list share an account identifier.
pub open spec fn keys_distinct(passwords: Seq<(AccountId, Password)>) -> bool {
    forall|i: int, j: int|
        0 <= i < passwords.len() && 0 <= j < passwords.len() && i != j
            ==> #[trigger] passwords[i].0.0@ != #[trigger] passwords[j].0.0@
}

/// Some entry of the list is for account `id`.
pub open spec fn has_password(passwords: Seq<(AccountId, Password)>, id: Seq<char>) -> bool {
    exists|k: int| 0 <= k < passwords.len() && #[trigger] passwords[k].0.0@ == id
}

/// The password listed for account `id`.
pub open spec fn password_of(passwords: Seq<(AccountId, Password)>, id: Seq<char>) -> Seq<char> {
    let k = choose|k: int| 0 <= k < passwords.len() && #[trigger] passwords[k].0.0@ == id;
    passwords[k].1.0@
}

fn find_password(passwords: &Vec<(AccountId, Password)>, id: &AccountId) -> (r: Option<usize>)
    requires
        keys_distinct(passwords@),
    ensures
        r matches Some(k) ==> k < passwords@.len() && passwords@[k as int].1.0@ == password_of(
            passwords@,
            id.0@,
        ),
        r is None <==> !has_password(passwords@, id.0@),
{
    let mut i: usize = 0;
    while i < passwords.len()
        invariant
            i <= passwords.len(),
            keys_distinct(passwords@),
            forall|k: int| 0 <= k < i ==> passwords@[k].0.0@ != id.0@,
        decreases passwords.len() - i,
    {
        if passwords[i].0.same_as(id) {
            proof {
                let k = choose|k: int| 0 <= k < passwords@.len() && #[trigger] passwords@[k].0.0@ == id.0@;
                assert(passwords@[i as int].0.0@ == id.0@);
                assert(has_password(passwords@, id.0@));
                assert(0 <= k < passwords@.len() && passwords@[k].0.0@ == id.0@);
                if k != i {
                    assert(passwords@[k].0.0@ != passwords@[i as int].0.0@);
                }
            }
            return Some(i);
        }
        i = i + 1;
    }
    None
}

/// The kind that `name` stands for, where it names one.
pub open spec fn kind_named(name: Seq<char>) -> GeneratorKind {
    if name == "random"@ {
        GeneratorKind::UniformRandom
    } else {
        GeneratorKind::WinnerLoser
    }
}

/// Every account of the pool has a password.
pub open spec fn all_have_passwords(pool: Seq<AccountView>, passwords: Seq<(AccountId, Password)>) -> bool {
    forall|k: int| 0 <= k < pool.len() ==> has_password(passwords, #[trigger] pool[k].id)
}

/// Every sender among `txs` is an account of `pool`.
pub open spec fn senders_in(txs: Seq<TransferView>, pool: Seq<AccountView>) -> bool {
    forall|k: int| 0 <= k < txs.len() ==> has_id(pool, #[trigger] txs[k].0)
}

/// Whether every account of the pool has a password.
fn check_passwords(accounts: &Vec<Account>, passwords: &Vec<(AccountId, Password)>) -> (r: bool)
    requires
        keys_distinct(passwords@),
    ensures
        r == all_have_passwords(pool_view(accounts@), passwords@),
{
    let mut i: usize = 0;
    while i < accounts.len()
        invariant
            i <= accounts.len(),
            keys_distinct(passwords@),
            forall|k: int| 0 <= k < i ==> has_password(passwords@, #[trigger] pool_view(accounts@)[k].id),
        decreases accounts.len() - i,
    {
        if find_password(passwords, &accounts[i].id).is_none() {
            assert(pool_view(accounts@)[i as int].id == accounts@[i as int].id.0@);
            return false;
        }
        i = i + 1;
    }
    true
}

/// The send requests for `txs`, numbered from 0, each unlocked with its
/// sender's password.
fn build_requests(txs: &Vec<Transfer>, passwords: &Vec<(AccountId, Password)>) -> (r: Vec<PersonalSendTransaction>)
    requires
        keys_distinct(passwords@),
        forall|k: int| 0 <= k < txs@.len() ==> has_password(passwords@, #[trigger] txs@[k].0.0@),
    ensures
        r@.len() == txs@.len(),
        forall|k: int|
            0 <= k < txs@.len() ==> is_request_for(
                #[trigger] r@[k],
                transfer_view(txs@[k]),
                k,
                password_of(passwords@, txs@[k].0.0@),
            ),
{
    let mut requests: Vec<PersonalSendTransaction> = Vec::new();
    let mut i: usize = 0;
    while i < txs.len()
        invariant
            i <= txs.len(),
            keys_distinct(passwords@),
            forall|k: int| 0 <= k < txs@.len() ==> has_password(passwords@, #[trigger] txs@[k].0.0@),
            requests@.len() == i,
            forall|k: int|
                0 <= k < i ==> is_request_for(
                    #[trigger] requests@[k],
                    transfer_view(txs@[k]),
                    k,
                    password_of(passwords@, txs@[k].0.0@),
                ),
        decreases txs.len() - i,
    {
        let t = &txs[i];
        let k = match find_password(passwords, &t.0) {
            Some(k) => k,
            None => {
                assert(has_password(passwords@, txs@[i as int].0.0@));
                return requests;
            },
        };
        let transaction = Transaction { from: t.0.duplicate(), to: t.1.duplicate(), value: hex_amount(t.2) };
        let password = Password(passwords[k].1.0.clone());
        requests.push(PersonalSendTransaction::new(PersonalSendTransactionParams(transaction, password), i));
        i = i + 1;
    }
    requests
}

/// The outcome of a generation session.
pub struct Session {
    /// The requests, numbered from 0.
    pub requests: Vec<PersonalSendTransaction>,
    /// The pool with its final balances.
    pub accounts: Vec<Account>,
    /// How many transfers were asked of the generator.
    pub pulls: usize,
    /// Whether `count` requests were produced; when not, the session ran
    /// short and says so here.
    pub complete: bool,
}

/// The transfers a session reports out of those generated.
pub open spec fn reported(generated: Seq<TransferView>, sender: Option<AccountId>) -> Seq<TransferView> {
    match sender {
        Some(t) => filtered(generated, t.0@),
        None => generated,
    }
}

/// What a successful session from `pool` has produced.
pub open spec fn session_result(
    pool: Seq<AccountView>,
    seed: Seq<u64>,
    kind: GeneratorKind,
    count: nat,
    sender: Option<AccountId>,
    max_pulls: nat,
    passwords: Seq<(AccountId, Password)>,
    s: Session,
) -> bool {
    let m = initial_model(pool, seed, kind);
    let generated = run(m, s.pulls as nat).0;
    let txs = reported(generated, sender);
    &&& pool_view(s.accounts@) == run(m, s.pulls as nat).1.accounts
    &&& transfers_follow(pool, generated, pool_view(s.accounts@))
    &&& total(pool_view(s.accounts@)) == total(pool)
    &&& s.requests@.len() == txs.len()
    &&& s.requests@.len() <= count
    &&& s.complete == (s.requests@.len() == count)
    &&& forall|k: int|
        0 <= k < txs.len() ==> {
            &&& is_request_for(#[trigger] s.requests@[k], txs[k], k, password_of(passwords, txs[k].0))
            &&& txs[k].0 != txs[k].1
            &&& has_id(pool, txs[k].0)
            &&& has_id(pool, txs[k].1)
        }
    &&& match sender {
        None => {
            &&& s.pulls == count
            &&& total(pool) > 0 ==> s.complete
        },
        Some(t) => {
            &&& s.pulls <= max_pulls
            &&& !s.complete ==> s.pulls == max_pulls || total(pool) == 0
            &&& s.pulls > 0 ==> filtered(run(m, (s.pulls - 1) as nat).0, t.0@).len() < count
        },
    }
}

/// Runs a generation session: makes the generator named by `generator_type`
/// over `accounts` and wraps transfers in send requests numbered from 0, each
/// with its sender's password. Without `filter_from_id`, the first `count`
/// transfers are reported. With it, transfers are pulled until `count` of
/// them were sent by that account, or `max_pulls` were pulled; only those are
/// reported, though every pulled transfer was applied to the pool. A session
/// that reports fewer than `count` says so in `complete`.
pub fn generate_transactions(
    generator_type: &str,
    accounts: Vec<Account>,
    seed: &Vec<u64>,
    count: usize,
    filter_from_id: Option<AccountId>,
    max_pulls: usize,
    passwords: &Vec<(AccountId, Password)>,
) -> (r: Result<Session, GenerationError>)
    requires
        ids_distinct(pool_view(accounts@)),
        keys_distinct(passwords@),
    ensures
        generator_type@ != "random"@ && generator_type@ != "winner-loser"@ ==> r == Err::<Session, _>(
            GenerationError::UnknownGenerator,
        ),
        generator_type@ == "random"@ || generator_type@ == "winner-loser"@ ==> {
            let pool = pool_view(accounts@);
            &&& accounts@.len() < 2 ==> r == Err::<Session, _>(GenerationError::TooFewAccounts)
            &&& accounts@.len() >= 2 && total(pool) >= u64::MAX ==> r == Err::<Session, _>(
                GenerationError::BalanceOverflow,
            )
            &&& accounts@.len() >= 2 && total(pool) < u64::MAX && !all_have_passwords(pool, passwords@)
                ==> r == Err::<Session, _>(GenerationError::MissingPassword)
            &&& accounts@.len() >= 2 && total(pool) < u64::MAX && all_have_passwords(pool, passwords@)
                ==> r is Ok
            &&& r matches Ok(s) ==> session_result(
                pool,
                seed@,
                kind_named(generator_type@),
                count as nat,
                filter_from_id,
                max_pulls as nat,
                passwords@,
                s,
            )
        },
{
    proof {
        reveal_strlit("random");
        reveal_strlit("winner-loser");
        assert("random"@.len() != "winner-loser"@.len());
    }
    let kind = match generator_kind(generator_type) {
        Ok(kind) => kind,
        Err(e) => {
            return Err(e);
        },
    };
    let ghost pool = pool_view(accounts@);
    let known = check_passwords(&accounts, passwords);
    let mut generator = match TransactionGenerator::new(accounts, seed, kind) {
        Ok(g) => g,
        Err(e) => {
            return Err(e);
        },
    };
    if !known {
        return Err(GenerationError::MissingPassword);
    }
    let ghost m = generator@;
    let (txs, pulls) = match &filter_from_id {
        Some(t) => generator.take_filtered(t, count, max_pulls),
        None => (generator.take(count), count),
    };
    let ghost generated = run(m, pulls as nat).0;
    let ghost fin = generator@.accounts;
    proof {
        lemma_follow_ids(pool, generated, fin);
        let rep = reported(generated, filter_from_id);
        assert(transfers_view(txs@) == rep);
        if let Some(t) = filter_from_id {
            lemma_filter_exact(generated, t.0@);
        }
        assert forall|k: int| 0 <= k < txs@.len() implies {
            &&& has_password(passwords@, #[trigger] txs@[k].0.0@)
            &&& rep[k].0 != rep[k].1
            &&& has_id(pool, rep[k].0)
            &&& has_id(pool, rep[k].1)
        } by {
            assert(rep[k] == transfer_view(txs@[k]));
            if filter_from_id is None {
                assert(rep[k] == generated[k]);
                assert(generated[k].0 != generated[k].1);
            } else {
                assert(generated.contains(rep[k]));
                let g = choose|g: int| 0 <= g < generated.len() && generated[g] == rep[k];
                assert(generated[g].0 != generated[g].1);
            }
            assert(has_id(pool, rep[k].0));
            let i = choose|i: int| 0 <= i < pool.len() && #[trigger] pool[i].id == rep[k].0;
            assert(has_password(passwords@, pool[i].id));
        }
    }
    let requests = build_requests(&txs, passwords);
    let n = requests.len();
    Ok(Session { requests, accounts: generator.into_accounts(), pulls, complete: n == count })
}

} // verus!
