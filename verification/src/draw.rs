use rand::rngs::StdRng;
use rand::Rng;
use rand::SeedableRng;
use vstd::prelude::*;

verus! {

#[verifier::external_type_specification]
#[verifier::external_body]
pub struct ExStdRng(StdRng);

/// The value that the `k`-th call (counting from 0) of `gen_range(0..bound)` on an `i32`
/// range returns, on a `StdRng` made by `seed_from_u64(seed)` and asked only for values
/// of that range since.
pub uninterp spec fn drawn_below(seed: u64, bound: i32, k: nat) -> i32;

/// A stream of values drawn uniformly below a fixed bound from a generator seeded with a
/// fixed seed. The fields are private: only `draw_next` advances the generator, and each
/// of its calls counts one value served, so the generator has always served exactly
/// `draws` values of the bound.
pub struct PieceBag {
    seed: u64,
    bound: i32,
    draws: Ghost<nat>,
    rng: StdRng,
}

/// `rand::SeedableRng::seed_from_u64` for `StdRng`: the generator that `seed` selects.
/// Nothing is stated of its state; what it yields is named by `drawn_below`, applied
/// to the seed, by `draw_next` below.
#[verifier::external_body]
fn seeded_rng(seed: u64) -> StdRng {
    StdRng::seed_from_u64(seed)
}

/// `rand::Rng::gen_range(0..bound)` on the bag's generator, `bound` being positive (an
/// empty range panics): the value lies in the half-open range, as rand documents, and it
/// is the value that the generator seeded with the bag's seed yields at this draw, since
/// the bag's generator has served exactly `draws` values of that range before. Each
/// call serves one more value, so the bag's count of values served goes up by one: the
/// count `draws` is bookkeeping that exists only for the proofs, and this call is the
/// only place that advances the generator or the count.
#[verifier::external_body]
fn draw_next(bag: &mut PieceBag) -> (v: i32)
    requires
        old(bag).bound() > 0,
    ensures
        0 <= v < old(bag).bound(),
        v == drawn_below(old(bag).seed(), old(bag).bound(), old(bag).draws()),
        final(bag).seed() == old(bag).seed(),
        final(bag).bound() == old(bag).bound(),
        final(bag).draws() == old(bag).draws() + 1,
{
    bag.rng.gen_range(0..bag.bound)
}

impl PieceBag {
    /// The seed the bag's generator was made from.
    pub closed spec fn seed(&self) -> u64 {
        self.seed
    }

    /// The values are drawn from `0..bound()`.
    pub closed spec fn bound(&self) -> i32 {
        self.bound
    }

    /// The number of values drawn so far.
    pub closed spec fn draws(&self) -> nat {
        self.draws@
    }

    /// A bag drawing values below `bound` from a generator seeded with `seed`.
    pub fn new(seed: u64, bound: i32) -> (bag: Self)
        requires
            bound > 0,
        ensures
            bag.seed() == seed,
            bag.bound() == bound,
            bag.draws() == 0,
    {
        PieceBag { seed, bound, draws: Ghost(0), rng: seeded_rng(seed) }
    }

    /// The bound below which values are drawn.
    pub fn bound_value(&self) -> (b: i32)
        ensures
            b == self.bound(),
    {
        self.bound
    }

    /// The next value: the `draws()`-th one that the seed gives for this bound.
    pub fn draw(&mut self) -> (v: i32)
        requires
            old(self).bound() > 0,
        ensures
            0 <= v < old(self).bound(),
            v == drawn_below(old(self).seed(), old(self).bound(), old(self).draws()),
            final(self).seed() == old(self).seed(),
            final(self).bound() == old(self).bound(),
            final(self).draws() == old(self).draws() + 1,
    {
        draw_next(self)
    }
}

} // verus!
