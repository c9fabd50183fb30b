//! Combinators over generated transfers, and the laws they obey.

use vstd::prelude::*;
use crate::account::{Account, AccountId, pool_view};
use crate::generator::{
    GenModel, GeneratorKind, Transfer, TransferView, initial_model, run, step, transfer_view,
    transfers_view,
};

verus! {

/// The transfer was sent by the account whose identifier is `target`.
pub open spec fn sent_by(t: TransferView, target: Seq<char>) -> bool {
    t.0 == target
}

/// The transfers of `txs` sent by `target`, in their order.
pub open spec fn filtered(txs: Seq<TransferView>, target: Seq<char>) -> Seq<TransferView> {
    txs.filter(|t: TransferView| sent_by(t, target))
}

/// A copy of a transfer.
pub fn duplicate_transfer(t: &Transfer) -> (r: Transfer)
    ensures
        r == *t,
{
    (t.0.duplicate(), t.1.duplicate(), t.2)
}

/// Keeps the transfers sent by `target`. The transfers were generated, and
/// applied to the pool, whether kept or not.
pub fn filter_from(txs: &Vec<Transfer>, target: &AccountId) -> (r: Vec<Transfer>)
    ensures
        transfers_view(r@) == filtered(transfers_view(txs@), target.0@),
{
    let mut out: Vec<Transfer> = Vec::new();
    let mut i: usize = 0;
    while i < txs.len()
        invariant
            i <= txs.len(),
            transfers_view(out@) == filtered(transfers_view(txs@.subrange(0, i as int)), target.0@),
        decreases txs.len() - i,
    {
        let ghost before = out@;
        proof {
            let pred = |t: TransferView| sent_by(t, target.0@);
            let pre = transfers_view(txs@.subrange(0, i as int));
            pre.lemma_filter_push(transfer_view(txs@[i as int]), pred);
            assert(transfers_view(txs@.subrange(0, i as int + 1)) =~= pre.push(transfer_view(txs@[i as int])));
        }
        if txs[i].0.same_as(target) {
            out.push(duplicate_transfer(&txs[i]));
            assert(transfers_view(out@) =~= transfers_view(before).push(transfer_view(txs@[i as int])));
        }
        i = i + 1;
    }
    assert(txs@.subrange(0, i as int) =~= txs@);
    out
}

/// Taking `n` transfers yields at most `n` of them, and none for `n == 0`.
pub proof fn lemma_take_bound(m: GenModel, n: nat)
    ensures
        run(m, n).0.len() <= n,
        n == 0 ==> run(m, n).0.len() == 0,
    decreases n,
{
    if n > 0 {
        lemma_take_bound(step(m).1, (n - 1) as nat);
    }
}

/// Filtering by sender keeps exactly the transfers sent by the target: each
/// kept transfer was sent by it, each transfer sent by it is kept, and the
/// kept ones come in their original order (a subsequence).
pub proof fn lemma_filter_exact(txs: Seq<TransferView>, target: Seq<char>)
    ensures
        forall|i: int|
            0 <= i < filtered(txs, target).len() ==> sent_by(#[trigger] filtered(txs, target)[i], target),
        forall|i: int| 0 <= i < txs.len() && sent_by(#[trigger] txs[i], target) ==> filtered(txs, target).contains(txs[i]),
        filtered(txs, target).len() <= txs.len(),
        forall|i: int|
            0 <= i < filtered(txs, target).len() ==> txs.contains(#[trigger] filtered(txs, target)[i]),
        forall|k: int| 0 <= k <= txs.len() ==>
            #[trigger] filtered(txs.subrange(0, k), target).len() <= filtered(txs, target).len(),
{
    let pred = |t: TransferView| sent_by(t, target);
    txs.lemma_filter_len(pred);
    assert forall|i: int| 0 <= i < filtered(txs, target).len() implies txs.contains(
        #[trigger] filtered(txs, target)[i],
    ) by {
        let x = filtered(txs, target)[i];
        assert(filtered(txs, target).contains(x));
        txs.lemma_filter_contains_rev(pred, x);
    }
    assert forall|i: int| 0 <= i < filtered(txs, target).len() implies sent_by(
        #[trigger] filtered(txs, target)[i],
        target,
    ) by {
        txs.lemma_filter_pred(pred, i);
    }
    assert forall|i: int| 0 <= i < txs.len() && sent_by(#[trigger] txs[i], target) implies filtered(
        txs,
        target,
    ).contains(txs[i]) by {
        txs.lemma_filter_contains(pred, i);
    }
    assert forall|k: int| 0 <= k <= txs.len() implies #[trigger] filtered(txs.subrange(0, k), target).len()
        <= filtered(txs, target).len() by {
        txs.subrange(0, k).lemma_filter_monotone(txs, pred);
    }
}

/// Two sessions started from pools that hold the same identifiers and
/// balances in the same order, with the same seed and kind, produce the same
/// transfers and end on the same balances, for every number of pulls.
pub proof fn lemma_deterministic(
    pool1: Seq<Account>,
    pool2: Seq<Account>,
    seed1: Seq<u64>,
    seed2: Seq<u64>,
    kind: GeneratorKind,
    n: nat,
)
    requires
        pool_view(pool1) == pool_view(pool2),
        seed1 == seed2,
    ensures
        run(initial_model(pool_view(pool1), seed1, kind), n).0 == run(
            initial_model(pool_view(pool2), seed2, kind),
            n,
        ).0,
        run(initial_model(pool_view(pool1), seed1, kind), n).1.accounts == run(
            initial_model(pool_view(pool2), seed2, kind),
            n,
        ).1.accounts,
{
}

} // verus!
