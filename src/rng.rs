//! The seeded random source, backed by `rand`'s ISAAC-64 generator.

use rand::Rng;
use rand::SeedableRng;
use vstd::prelude::*;
use vstd::arithmetic::div_mod::lemma_small_mod;

verus! {

#[verifier::external_type_specification]
#[verifier::external_body]
pub struct ExIsaac64Rng(rand::Isaac64Rng);

/// The value returned by the last of `calls`, where `calls` lists, in order,
/// the bounds `(low, high)` of every `gen_range` call made so far on an
/// ISAAC-64 generator seeded with `seed`.
pub uninterp spec fn isaac64_draw(seed: Seq<u64>, calls: Seq<(u64, u64)>) -> u64;

/// The value that the next `gen_range(low, high)` call returns, given the seed
/// and the bounds of the calls made before it. The actual draw already lies
/// in `[low, high)`, so reducing it into that range leaves it as it is; the
/// reduction makes the range visible to every reader of this function.
pub open spec fn next_draw(seed: Seq<u64>, calls: Seq<(u64, u64)>, low: u64, high: u64) -> u64 {
    if low < high {
        (low + (isaac64_draw(seed, calls.push((low, high))) - low) % ((high - low) as int)) as u64
    } else {
        low
    }
}

/// A drawn value lies in its range.
pub proof fn lemma_next_draw_in_range(seed: Seq<u64>, calls: Seq<(u64, u64)>, low: u64, high: u64)
    requires
        low < high,
    ensures
        low <= next_draw(seed, calls, low, high) < high,
{
    let w = (high - low) as int;
    let x = isaac64_draw(seed, calls.push((low, high))) - low;
    assert(0 <= x % w < w) by (nonlinear_arith)
        requires w > 0;
}

/// Relies on `<rand::Isaac64Rng as SeedableRng<&[u64]>>::from_seed`: builds
/// the generator from the seed words.
#[verifier::external_body]
fn isaac64_from_seed(seed: &[u64]) -> rand::Isaac64Rng {
    rand::Isaac64Rng::from_seed(seed)
}

/// A seeded source that records, as ghost state, its seed and the bounds of
/// every draw made from it. The underlying generator is reached only through
/// `draw`, so the recorded history is the generator's whole history.
pub struct SeededRng {
    rng: rand::Isaac64Rng,
    seed: Ghost<Seq<u64>>,
    calls: Ghost<Seq<(u64, u64)>>,
}

impl SeededRng {
    pub closed spec fn seed(&self) -> Seq<u64> {
        self.seed@
    }

    pub closed spec fn calls(&self) -> Seq<(u64, u64)> {
        self.calls@
    }

    /// A fresh source seeded with `seed`; no draw has been made from it.
    pub fn new(seed: &Vec<u64>) -> (r: SeededRng)
        ensures
            r.seed() == seed@,
            r.calls() == Seq::<(u64, u64)>::empty(),
    {
        let rng = isaac64_from_seed(seed.as_slice());
        SeededRng { rng, seed: Ghost(seed@), calls: Ghost(Seq::empty()) }
    }

    /// Relies on `rand::Rng::gen_range` on ISAAC-64: it panics unless
    /// `low < high`, returns a value in `[low, high)`, and that value is fixed
    /// by the seed and the bounds of the calls before it.
    #[verifier::external_body]
    pub(crate) fn draw(&mut self, low: u64, high: u64) -> (r: u64)
        requires
            low < high,
        ensures
            low <= r < high,
            r == isaac64_draw(old(self).seed(), old(self).calls().push((low, high))),
            final(self).seed() == old(self).seed(),
            final(self).calls() == old(self).calls().push((low, high)),
    {
        self.rng.gen_range(low, high)
    }

    /// Draws the next value of `[low, high)`.
    pub fn next_in(&mut self, low: u64, high: u64) -> (r: u64)
        requires
            low < high,
        ensures
            low <= r < high,
            r == next_draw(old(self).seed(), old(self).calls(), low, high),
            final(self).seed() == old(self).seed(),
            final(self).calls() == old(self).calls().push((low, high)),
    {
        let r = self.draw(low, high);
        proof {
            lemma_small_mod((r - low) as nat, (high - low) as nat);
        }
        r
    }
}

} // verus!
