use vstd::prelude::*;

use nanorand::Rng;

verus! {

/// Holds nanorand's buffered WyRand generator.  The holder is opaque to the
/// verifier: the generator's type is bounded by a trait of the outside crate,
/// which cannot be declared here.
#[verifier::external_body]
pub struct Prng {
    inner: nanorand::BufferedRng<nanorand::WyRand, 8>,
}

/// Relies on nanorand's WyRand::new and BufferedRng::new: a generator seeded
/// from system entropy, handing out its output stream one byte at a time.
#[verifier::external_body]
pub(crate) fn entropy_rng() -> Prng {
    Prng { inner: nanorand::BufferedRng::new(nanorand::WyRand::new()) }
}

/// Relies on nanorand's WyRand::new_seed and BufferedRng::new: a generator
/// with the given seed and an empty buffer, for deterministic runs.
#[verifier::external_body]
pub(crate) fn seeded_rng(seed: u64) -> Prng {
    Prng { inner: nanorand::BufferedRng::new(nanorand::WyRand::new_seed(seed)) }
}

/// Relies on nanorand's Rng::fill_bytes: the next byte of the generator's
/// pseudorandom stream.  Nothing is promised of the value.
#[verifier::external_body]
pub(crate) fn next_byte(rng: &mut Prng) -> u8 {
    let mut buf = [0u8; 1];
    rng.inner.fill_bytes(&mut buf);
    buf[0]
}

} // verus!
