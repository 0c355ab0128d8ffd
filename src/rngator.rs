use vstd::prelude::*;
use rand::Rng;
use rand::SeedableRng;

verus! {

#[verifier::external_type_specification]
#[verifier::external_body]
pub struct ExPcg64(rand_pcg::Lcg128Xsl64);

#[verifier::external_type_specification]
#[verifier::external_body]
pub struct ExThreadRng(rand::rngs::ThreadRng);

/// The PCG generator that `Pcg64::seed_from_u64` builds from `seed`.
pub uninterp spec fn pcg64_of(seed: u64) -> rand_pcg::Pcg64;

/// Relies on rand_core's `SeedableRng::seed_from_u64` for `Pcg64`: a
/// generator whose state is expanded from `seed` alone.
#[verifier::external_body]
fn pcg64_from_seed(seed: u64) -> (r: rand_pcg::Pcg64)
    ensures
        r == pcg64_of(seed),
{
    rand_pcg::Pcg64::seed_from_u64(seed)
}

/// Relies on rand's `thread_rng`: a handle on the generator of the calling
/// thread, seeded from the operating system.
#[verifier::external_body]
fn thread_generator() -> (r: rand::rngs::ThreadRng) {
    rand::thread_rng()
}

/// Relies on rand's `Rng::gen_range` over `0..n` for `Pcg64`: a value below
/// `n`; it panics on an empty range, which `requires` rules out.
#[verifier::external_body]
fn pcg64_below(g: &mut rand_pcg::Pcg64, n: usize) -> (r: usize)
    requires
        n > 0,
    ensures
        r < n,
{
    g.gen_range(0..n)
}

/// Relies on rand's `Rng::gen_range` over `0..n` for `ThreadRng`: a value
/// below `n`; it panics on an empty range, which `requires` rules out.
#[verifier::external_body]
fn thread_below(g: &mut rand::rngs::ThreadRng, n: usize) -> (r: usize)
    requires
        n > 0,
    ensures
        r < n,
{
    g.gen_range(0..n)
}

/// The random stream handed to one site of work (one scanline, or scene
/// construction): either a seeded PCG generator, reproducible from its
/// seed, or the thread's own entropy-seeded generator.
pub enum SiteRng {
    Seeded(rand_pcg::Pcg64),
    Thread(rand::rngs::ThreadRng),
}

impl SiteRng {
    /// A uniformly drawn index below `n`.
    pub fn below(&mut self, n: usize) -> (r: usize)
        requires
            n > 0,
        ensures
            r < n,
            (*final(self) is Seeded) == (*old(self) is Seeded),
    {
        match self {
            SiteRng::Seeded(g) => pcg64_below(g, n),
            SiteRng::Thread(g) => thread_below(g, n),
        }
    }
}

/// The seed of the stream of site `site_id` under the global seed `seed`:
/// their sum, wrapping at 2^64.
pub open spec fn stream_seed_of(seed: u64, site_id: u64) -> u64 {
    ((seed + site_id) % 0x1_0000_0000_0000_0000) as u64
}

/// A source of per-site random streams.
pub trait Rngator {
    /// The stream of site `site_id`.
    fn rng(&self, site_id: u64) -> SiteRng;
}

/// Streams drawn from each thread's own generator: not reproducible.
pub struct ThreadRngator {}

impl Rngator for ThreadRngator {
    fn rng(&self, site_id: u64) -> (r: SiteRng)
        ensures
            r is Thread,
    {
        SiteRng::Thread(thread_generator())
    }
}

/// Streams seeded deterministically from one global seed and the site.
pub struct SeedableRngator {
    pub seed: u64,
}

impl SeedableRngator {
    pub fn new(seed: u64) -> (r: SeedableRngator)
        ensures
            r.seed == seed,
    {
        SeedableRngator { seed }
    }

    /// The seed of site `site_id`'s stream.
    pub fn stream_seed(&self, site_id: u64) -> (r: u64)
        ensures
            r == stream_seed_of(self.seed, site_id),
    {
        self.seed.wrapping_add(site_id)
    }
}

impl Rngator for SeedableRngator {
    fn rng(&self, site_id: u64) -> (r: SiteRng)
        ensures
            r == SiteRng::Seeded(pcg64_of(stream_seed_of(self.seed, site_id))),
    {
        SiteRng::Seeded(pcg64_from_seed(self.stream_seed(site_id)))
    }
}

/// Two different sites under one global seed get different stream seeds:
/// no two scanlines of a render share a random stream.
pub proof fn lemma_streams_distinct(seed: u64, site_a: u64, site_b: u64)
    requires
        site_a != site_b,
    ensures
        stream_seed_of(seed, site_a) != stream_seed_of(seed, site_b),
{
}

} // verus!
