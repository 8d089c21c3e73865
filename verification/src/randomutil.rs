//! The seedable random source.
//!
//! A generator is a value that is handed to whoever draws from it; no
//! generator is shared behind the caller's back. What a generator yields is
//! settled by the seed it was started from and by what has been drawn from it
//! since: two generators started from one seed yield the same numbers.
use vstd::prelude::*;
use rand::{Rng, SeedableRng, StdRng};

verus! {

/// The generator of the `rand` crate. Nothing is known of its fields here.
#[verifier::external_type_specification]
#[verifier::external_body]
pub struct ExStdRng(StdRng);

/// The generator that `rand` makes of the one-word seed `[seed]`.
pub uninterp spec fn seeded(seed: usize) -> StdRng;

/// What `rand`'s `Rng::gen_range` draws from a generator for the bounds `low`
/// and `high`, and the generator it leaves behind.
pub uninterp spec fn ranged(rng: StdRng, low: usize, high: usize) -> (usize, StdRng);

/// The 32 bits that `rand`'s `Rng::next_u32` draws from a generator, and the
/// generator it leaves behind.
pub uninterp spec fn stepped(rng: StdRng) -> (u32, StdRng);

/// A generator together with the seed it was last started from.
pub struct ThreadSeedableRng {
    rng: StdRng,
    seed: usize,
}

/// `rand`'s `SeedableRng::from_seed` for `StdRng`, on the one-word seed
/// `[seed]`: it starts from an empty generator and seeds it, so that what
/// comes back depends on the seed alone.
#[verifier::external_body]
fn std_rng_from_seed(seed: usize) -> (rng: StdRng)
    ensures
        rng == seeded(seed),
{
    let words: &[usize] = &[seed];
    SeedableRng::from_seed(words)
}

/// `rand`'s `SeedableRng::reseed` for `StdRng`, on the one-word seed `[seed]`:
/// it overwrites every field of the generator, so that nothing is left of
/// what the generator was before, and leaves what `from_seed` makes of the
/// same seed.
#[verifier::external_body]
fn std_rng_reseed(rng: &mut StdRng, seed: usize)
    ensures
        *final(rng) == seeded(seed),
{
    let words: &[usize] = &[seed];
    rng.reseed(words)
}

/// `rand`'s `Rng::gen_range` on `usize`. It panics unless `low < high`, and
/// returns `low` plus a remainder modulo `high - low`: the result lies in
/// `[low, high)`. The number and the generator afterwards are settled by the
/// generator before and the bounds.
#[verifier::external_body]
fn std_rng_gen_range(rng: &mut StdRng, low: usize, high: usize) -> (v: usize)
    requires
        low < high,
    ensures
        low <= v < high,
        v == ranged(*old(rng), low, high).0,
        *final(rng) == ranged(*old(rng), low, high).1,
{
    rng.gen_range(low, high)
}

/// `rand`'s `Rng::next_u32`: the next 32 bits of the generator. The bits and
/// the generator afterwards are settled by the generator before.
#[verifier::external_body]
fn std_rng_next_u32(rng: &mut StdRng) -> (bits: u32)
    ensures
        bits == stepped(*old(rng)).0,
        *final(rng) == stepped(*old(rng)).1,
{
    rng.next_u32()
}

impl ThreadSeedableRng {
    /// The seed that this generator was last started from.
    pub closed spec fn spec_seed(&self) -> usize {
        self.seed
    }

    /// The generator as it stands: what it was started from together with
    /// all that has been drawn from it since.
    pub closed spec fn generator(&self) -> StdRng {
        self.rng
    }

    /// A generator that has just been started from `seed`.
    pub closed spec fn fresh(seed: usize) -> ThreadSeedableRng {
        ThreadSeedableRng { rng: seeded(seed), seed }
    }

    /// The seed that this generator was last started from.
    #[verifier::when_used_as_spec(spec_seed)]
    pub fn seed(&self) -> (s: usize)
        ensures
            s == self.seed(),
    {
        self.seed
    }

    /// Draws a number from `[low, high)`: the number that `rand` draws from
    /// the generator as it stands, which moves on by that draw. The seed
    /// stays what it was.
    pub fn gen_range(&mut self, low: usize, high: usize) -> (v: usize)
        requires
            low < high,
        ensures
            low <= v < high,
            v == ranged(old(self).generator(), low, high).0,
            final(self).generator() == ranged(old(self).generator(), low, high).1,
            final(self).seed() == old(self).seed(),
    {
        std_rng_gen_range(&mut self.rng, low, high)
    }

    /// Draws 32 bits: the bits that `rand` draws from the generator as it
    /// stands, which moves on by that draw. The seed stays what it was.
    pub fn next_u32(&mut self) -> (bits: u32)
        ensures
            bits == stepped(old(self).generator()).0,
            final(self).generator() == stepped(old(self).generator()).1,
            final(self).seed() == old(self).seed(),
    {
        std_rng_next_u32(&mut self.rng)
    }
}

/// A generator started from `seed`.
pub fn thread_seedable_rng(seed: usize) -> (rng: ThreadSeedableRng)
    ensures
        rng == ThreadSeedableRng::fresh(seed),
        rng.generator() == seeded(seed),
        rng.seed() == seed,
{
    ThreadSeedableRng { rng: std_rng_from_seed(seed), seed }
}

/// Starts a generator afresh from `seed`: what it yields from now on depends
/// on `seed` alone, not on what was drawn before.
pub fn thread_seedable_reseed(rng: &mut ThreadSeedableRng, seed: usize)
    ensures
        *final(rng) == ThreadSeedableRng::fresh(seed),
        final(rng).generator() == seeded(seed),
        final(rng).seed() == seed,
{
    std_rng_reseed(&mut rng.rng, seed);
    rng.seed = seed;
}

/// A generator is its seed and its state: two that agree in both are one.
pub proof fn lemma_generators_equal(a: ThreadSeedableRng, b: ThreadSeedableRng)
    requires
        a.generator() == b.generator(),
        a.seed() == b.seed(),
    ensures
        a == b,
{
}

/// A generator that has just been started from a seed is the generator that
/// `rand` makes of that seed, and remembers the seed.
pub proof fn lemma_fresh(seed: usize)
    ensures
        ThreadSeedableRng::fresh(seed).generator() == seeded(seed),
        ThreadSeedableRng::fresh(seed).seed() == seed,
{
}

/// The seed settles the draws: two generators that have just been started
/// from one seed, whatever either was before, yield the same bits and the
/// same number for the same bounds, and are the same generator afterwards.
pub proof fn lemma_seed_settles_the_draws(
    a: ThreadSeedableRng,
    b: ThreadSeedableRng,
    seed: usize,
    low: usize,
    high: usize,
)
    requires
        a == ThreadSeedableRng::fresh(seed),
        b == ThreadSeedableRng::fresh(seed),
    ensures
        stepped(a.generator()) == stepped(b.generator()),
        ranged(a.generator(), low, high) == ranged(b.generator(), low, high),
{
}

} // verus!
