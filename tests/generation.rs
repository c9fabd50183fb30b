use txgen::account::{Account, AccountId};
use txgen::envelope::{generate_transactions, generator_kind, hex_amount, Password, PersonalSendTransaction};
use txgen::generator::{apply_transfer, choose_parties, GenerationError, GeneratorKind, Strategy, TransactionGenerator, Transfer};
use txgen::stream::filter_from;

fn id(s: &str) -> AccountId {
    AccountId(s.to_string())
}

fn pool(balances: &[(&str, u64)]) -> Vec<Account> {
    balances.iter().map(|(n, b)| Account { id: id(n), balance: *b }).collect()
}

fn generator(balances: &[(&str, u64)], seed: &[u64], kind: GeneratorKind) -> TransactionGenerator {
    match TransactionGenerator::new(pool(balances), &seed.to_vec(), kind) {
        Ok(g) => g,
        Err(e) => panic!("generator refused: {:?}", e),
    }
}

fn balances(g: &TransactionGenerator) -> Vec<u64> {
    g.accounts().iter().map(|a| a.balance).collect()
}

fn passwords(names: &[&str]) -> Vec<(AccountId, Password)> {
    names.iter().map(|n| (id(n), Password(format!("pw-{}", n)))).collect()
}

#[test]
fn random_transactions() {
    let mut g = generator(&[("a", 1000), ("b", 1000)], &[1, 2, 3, 4], GeneratorKind::UniformRandom);
    let txs = g.take(10);
    let expected: Vec<Transfer> = vec![
        (id("a"), id("b"), 472),
        (id("a"), id("b"), 392),
        (id("b"), id("a"), 380),
        (id("a"), id("b"), 33),
        (id("a"), id("b"), 194),
        (id("b"), id("a"), 834),
        (id("a"), id("b"), 1037),
        (id("a"), id("b"), 67),
        (id("a"), id("b"), 4),
        (id("a"), id("b"), 8),
    ];
    assert_eq!(txs, expected);
    assert_eq!(balances(&g), vec![7, 1993]);
}

#[test]
fn seeded_winner_loser_sequence() {
    let mut g = generator(&[("a", 1000), ("b", 1000), ("c", 1000)], &[1, 2, 3, 4], GeneratorKind::WinnerLoser);
    let txs = g.take(8);
    let expected: Vec<Transfer> = vec![
        (id("c"), id("b"), 145),
        (id("a"), id("c"), 420),
        (id("a"), id("c"), 68),
        (id("a"), id("c"), 189),
        (id("a"), id("c"), 279),
        (id("c"), id("a"), 626),
        (id("c"), id("b"), 672),
        (id("b"), id("c"), 154),
    ];
    assert_eq!(txs, expected);
    assert_eq!(balances(&g), vec![670, 1663, 667]);
}

#[test]
fn same_seed_same_run() {
    for kind in [GeneratorKind::UniformRandom, GeneratorKind::WinnerLoser] {
        let mut g1 = generator(&[("a", 50), ("b", 7), ("c", 300)], &[99], kind);
        let mut g2 = generator(&[("a", 50), ("b", 7), ("c", 300)], &[99], kind);
        assert_eq!(g1.take(40), g2.take(40));
        assert_eq!(balances(&g1), balances(&g2));
    }
}

#[test]
fn other_seed_other_run() {
    let mut g1 = generator(&[("a", 1000), ("b", 1000)], &[1], GeneratorKind::UniformRandom);
    let mut g2 = generator(&[("a", 1000), ("b", 1000)], &[2], GeneratorKind::UniformRandom);
    assert_ne!(g1.take(10), g2.take(10));
}

#[test]
fn every_step_keeps_the_rules() {
    for kind in [GeneratorKind::UniformRandom, GeneratorKind::WinnerLoser] {
        let mut g = generator(&[("a", 10), ("b", 0), ("c", 5), ("d", 1_000_000)], &[5, 6], kind);
        let names = ["a", "b", "c", "d"];
        for _ in 0..200 {
            let before = balances(&g);
            let t = g.next().expect("money is in the pool");
            let after = balances(&g);
            let from = names.iter().position(|n| t.0 == id(n)).unwrap();
            let to = names.iter().position(|n| t.1 == id(n)).unwrap();
            assert_ne!(t.0, t.1);
            assert!(t.2 <= before[from]);
            assert_eq!(after[from], before[from] - t.2);
            assert_eq!(after[to], before[to] + t.2);
            assert_eq!(after.iter().sum::<u64>(), before.iter().sum::<u64>());
        }
    }
}

#[test]
fn zero_amounts_are_kept() {
    let mut g = generator(&[("a", 5), ("b", 0), ("c", 0)], &[7], GeneratorKind::UniformRandom);
    let txs = g.take(6);
    assert_eq!(txs.len(), 6);
    assert!(txs.iter().all(|t| t.2 == 0));
    assert_eq!(balances(&g), vec![5, 0, 0]);
}

#[test]
fn empty_pool_money_ends_the_sequence() {
    let mut g = generator(&[("a", 0), ("b", 0)], &[1], GeneratorKind::UniformRandom);
    assert_eq!(g.next(), None);
    assert_eq!(g.take(5), vec![]);
}

#[test]
fn take_zero_yields_nothing() {
    let mut g = generator(&[("a", 100), ("b", 100)], &[3], GeneratorKind::UniformRandom);
    assert!(g.take(0).is_empty());
    assert_eq!(balances(&g), vec![100, 100]);
    assert_eq!(g.take(3).len(), 3);
}

#[test]
fn filter_keeps_the_senders_transfers_in_order() {
    let mut g = generator(&[("a", 100), ("b", 100), ("c", 100)], &[11], GeneratorKind::UniformRandom);
    let all = g.take(30);
    let kept = filter_from(&all, &id("b"));
    let by_hand: Vec<Transfer> = all.iter().filter(|t| t.0 == id("b")).cloned().collect();
    assert_eq!(kept, by_hand);
    assert!(!kept.is_empty());
    assert!(filter_from(&all, &id("nobody")).is_empty());
}

#[test]
fn filter_of_nothing() {
    assert!(filter_from(&vec![], &id("a")).is_empty());
}

#[test]
fn too_few_accounts() {
    let r = TransactionGenerator::new(pool(&[("a", 10)]), &vec![1], GeneratorKind::UniformRandom);
    assert_eq!(r.err(), Some(GenerationError::TooFewAccounts));
    let r = TransactionGenerator::new(vec![], &vec![1], GeneratorKind::WinnerLoser);
    assert_eq!(r.err(), Some(GenerationError::TooFewAccounts));
}

#[test]
fn balances_that_overflow() {
    let r = TransactionGenerator::new(pool(&[("a", u64::MAX), ("b", 0)]), &vec![1], GeneratorKind::UniformRandom);
    assert_eq!(r.err(), Some(GenerationError::BalanceOverflow));
    let r = TransactionGenerator::new(pool(&[("a", u64::MAX - 1), ("b", 5)]), &vec![1], GeneratorKind::UniformRandom);
    assert_eq!(r.err(), Some(GenerationError::BalanceOverflow));
    assert!(TransactionGenerator::new(pool(&[("a", u64::MAX - 1), ("b", 0)]), &vec![1], GeneratorKind::UniformRandom).is_ok());
}

#[test]
fn largest_balance_moves() {
    let mut g = generator(&[("a", u64::MAX - 1), ("b", 0)], &[4], GeneratorKind::UniformRandom);
    for _ in 0..20 {
        g.next().unwrap();
        assert_eq!(balances(&g).iter().map(|b| *b as u128).sum::<u128>(), (u64::MAX - 1) as u128);
    }
}

#[test]
fn generator_names() {
    assert_eq!(generator_kind("random"), Ok(GeneratorKind::UniformRandom));
    assert_eq!(generator_kind("winner-loser"), Ok(GeneratorKind::WinnerLoser));
    assert_eq!(generator_kind("Random"), Err(GenerationError::UnknownGenerator));
    assert_eq!(generator_kind(""), Err(GenerationError::UnknownGenerator));
}

#[test]
fn session_builds_numbered_requests() {
    let s = generate_transactions(
        "random",
        pool(&[("a", 1000), ("b", 1000)]),
        &vec![1, 2, 3, 4],
        3,
        None,
        0,
        &passwords(&["a", "b"]),
    )
    .unwrap();
    let reqs = &s.requests;
    assert_eq!(reqs.len(), 3);
    assert!(s.complete);
    assert_eq!(s.pulls, 3);
    let values: Vec<&str> = reqs.iter().map(|r| r.params.0.value.as_str()).collect();
    assert_eq!(values, vec!["0x1d8", "0x188", "0x17c"]);
    for (k, r) in reqs.iter().enumerate() {
        assert_eq!(r.id, k);
        assert_eq!(r.jsonrpc, "2.0");
        assert_eq!(r.method, "personal_sendTransaction");
    }
    assert_eq!(reqs[0].params.1, Password("pw-a".to_string()));
    assert_eq!(reqs[2].params.0.from, id("b"));
    assert_eq!(reqs[2].params.1, Password("pw-b".to_string()));
    let left: Vec<u64> = s.accounts.iter().map(|a| a.balance).collect();
    assert_eq!(left, vec![1000 - 472 - 392 + 380, 1000 + 472 + 392 - 380]);
}

#[test]
fn session_counts_after_filtering() {
    let s = generate_transactions(
        "random",
        pool(&[("a", 1000), ("b", 1000)]),
        &vec![1, 2, 3, 4],
        2,
        Some(id("b")),
        100,
        &passwords(&["a", "b"]),
    )
    .unwrap();
    let values: Vec<&str> = s.requests.iter().map(|r| r.params.0.value.as_str()).collect();
    assert_eq!(values, vec!["0x17c", "0x342"]);
    assert_eq!(s.requests[1].id, 1);
    assert!(s.complete);
    assert_eq!(s.pulls, 6);
    let left: Vec<u64> = s.accounts.iter().map(|a| a.balance).collect();
    assert_eq!(left, vec![1123, 877]);
}

#[test]
fn session_signals_a_short_filtered_run() {
    let s = generate_transactions(
        "random",
        pool(&[("a", 1000), ("b", 1000)]),
        &vec![1, 2, 3, 4],
        2,
        Some(id("b")),
        4,
        &passwords(&["a", "b"]),
    )
    .unwrap();
    assert_eq!(s.requests.len(), 1);
    assert!(!s.complete);
    assert_eq!(s.pulls, 4);
    let left: Vec<u64> = s.accounts.iter().map(|a| a.balance).collect();
    assert_eq!(left, vec![483, 1517]);
    let s = generate_transactions(
        "random",
        pool(&[("a", 10), ("b", 10)]),
        &vec![9],
        3,
        Some(id("nobody")),
        20,
        &passwords(&["a", "b"]),
    )
    .unwrap();
    assert!(s.requests.is_empty());
    assert!(!s.complete);
    assert_eq!(s.pulls, 20);
    assert_eq!(s.accounts.iter().map(|a| a.balance).sum::<u64>(), 20);
}

#[test]
fn session_on_a_pool_without_money() {
    let s = generate_transactions("winner-loser", pool(&[("a", 0), ("b", 0)]), &vec![1], 3, None, 0, &passwords(&["a", "b"]))
        .unwrap();
    assert!(s.requests.is_empty());
    assert!(!s.complete);
}

#[test]
fn session_errors() {
    let pw = passwords(&["a", "b"]);
    let p = || pool(&[("a", 1), ("b", 1)]);
    assert_eq!(generate_transactions("uniform", p(), &vec![1], 1, None, 0, &pw).err(), Some(GenerationError::UnknownGenerator));
    assert_eq!(
        generate_transactions("random", pool(&[("a", 1)]), &vec![1], 1, None, 0, &pw).err(),
        Some(GenerationError::TooFewAccounts)
    );
    assert_eq!(
        generate_transactions("winner-loser", pool(&[("a", u64::MAX), ("b", 1)]), &vec![1], 1, None, 0, &pw).err(),
        Some(GenerationError::BalanceOverflow)
    );
    assert_eq!(
        generate_transactions("random", p(), &vec![1], 5, None, 0, &passwords(&["a"])).err(),
        Some(GenerationError::MissingPassword)
    );
    let s = generate_transactions("random", p(), &vec![1], 0, None, 0, &pw).unwrap();
    assert!(s.requests.is_empty());
    assert!(s.complete);
}

#[test]
fn parties_from_draws() {
    assert_eq!(choose_parties(Strategy::UniformRandom, 4, 2, 1), (2, 1));
    assert_eq!(choose_parties(Strategy::UniformRandom, 4, 2, 2), (2, 3));
    assert_eq!(choose_parties(Strategy::UniformRandom, 2, 0, 0), (0, 1));
    assert_eq!(choose_parties(Strategy::WinnerLoser { winner: 1 }, 3, 0, 1), (2, 1));
    assert_eq!(choose_parties(Strategy::WinnerLoser { winner: 1 }, 3, 3, 0), (0, 1));
    assert_eq!(choose_parties(Strategy::WinnerLoser { winner: 1 }, 3, 4, 0), (1, 0));
}

#[test]
fn transfer_moves_the_amount() {
    let mut accounts = pool(&[("a", 10), ("b", 3), ("c", 7)]);
    apply_transfer(&mut accounts, 2, 0, 7);
    let left: Vec<u64> = accounts.iter().map(|a| a.balance).collect();
    assert_eq!(left, vec![17, 3, 0]);
    assert_eq!(accounts[2].id, id("c"));
}

#[test]
fn request_fields() {
    let params = txgen::envelope::PersonalSendTransactionParams(
        txgen::envelope::Transaction { from: id("x"), to: id("y"), value: "0x1".to_string() },
        Password("user".to_string()),
    );
    let r = PersonalSendTransaction::new(params.clone(), 7);
    assert_eq!(r.jsonrpc, "2.0");
    assert_eq!(r.method, "personal_sendTransaction");
    assert_eq!(r.params, params);
    assert_eq!(r.id, 7);
}

#[test]
fn hex_amounts() {
    assert_eq!(hex_amount(0), "0x0");
    assert_eq!(hex_amount(15), "0xf");
    assert_eq!(hex_amount(16), "0x10");
    assert_eq!(hex_amount(255), "0xff");
    assert_eq!(hex_amount(1_000_000_000_000_000_000), "0xde0b6b3a7640000");
    assert_eq!(hex_amount(u64::MAX), "0xffffffffffffffff");
}
