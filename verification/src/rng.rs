//! The source-of-randomness capability and the ways to seed a generator.

use vstd::prelude::*;
use crate::error::Error;

verus! {

/// A value whose behaviour is a function of a state.
///
/// The state is the mathematical content of the value: what its future output depends
/// on and nothing else. Contracts speak of generators through their states.
pub trait Stateful {
    /// The mathematical content of a value of this type.
    type State;

    /// The state this value is in.
    spec fn state(&self) -> Self::State;
}

/// A random number generator (not necessarily suitable for cryptography).
///
/// A generator is modelled as a state machine: each operation is a function of the
/// generator's state that gives the output and the state that follows. Whoever
/// implements the trait says what those functions are; every contract that speaks of
/// a generator's output goes through them. A reproducible generator is thereby
/// reproducible by contract: generators in equal states give equal outputs, call by
/// call.
pub trait Rng: Stateful + Sized {
    /// The next 32-bit output, and the state after it was drawn.
    spec fn spec_next_u32(state: Self::State) -> (u32, Self::State);

    /// The next 64-bit output, and the state after it was drawn.
    spec fn spec_next_u64(state: Self::State) -> (u64, Self::State);

    /// The next `len` bytes, and the state after they were drawn.
    spec fn spec_fill_bytes(state: Self::State, len: nat) -> (Seq<u8>, Self::State);

    /// The outcome of trying to draw `len` bytes, and the state after the attempt.
    spec fn spec_try_fill(state: Self::State, len: nat) -> (Result<Seq<u8>, Error>, Self::State);

    /// Return the next random u32.
    fn next_u32(&mut self) -> (value: u32)
        ensures
            (value, (*final(self)).state()) == Self::spec_next_u32((*old(self)).state()),
    ;

    /// Return the next random u64.
    fn next_u64(&mut self) -> (value: u64)
        ensures
            (value, (*final(self)).state()) == Self::spec_next_u64((*old(self)).state()),
    ;

    /// Fill `dest` entirely with random data.
    fn fill_bytes(&mut self, dest: &mut [u8])
        ensures
            final(dest)@.len() == old(dest)@.len(),
            (final(dest)@, (*final(self)).state()) == Self::spec_fill_bytes(
                (*old(self)).state(),
                old(dest)@.len(),
            ),
    ;

    /// Fill `dest` entirely with random data, or report why that was not possible.
    ///
    /// If a generator can fail, this is the only method that reports it.
    fn try_fill(&mut self, dest: &mut [u8]) -> (result: Result<(), Error>)
        ensures
            final(dest)@.len() == old(dest)@.len(),
            (*final(self)).state() == Self::spec_try_fill((*old(self)).state(), old(dest)@.len()).1,
            match result {
                Ok(()) => Self::spec_try_fill((*old(self)).state(), old(dest)@.len()).0 == Ok::<
                    Seq<u8>,
                    Error,
                >(final(dest)@),
                Err(e) => Self::spec_try_fill((*old(self)).state(), old(dest)@.len()).0 == Err::<
                    Seq<u8>,
                    Error,
                >(e),
            },
    ;
}

/// A marker trait for an [`Rng`] which may be considered for use in cryptography.
pub trait CryptoRng: Rng {
}

/// Creation of a generator from the output of another one.
///
/// A generator is seeded from a fixed number of bytes, which are drawn from the source
/// with one fallible fill.
pub trait SeedFromRng: Stateful + Sized {
    /// The number of bytes in a seed.
    spec fn spec_seed_len() -> nat;

    /// The state of the generator that `seed` gives.
    spec fn spec_from_seed_bytes(seed: Seq<u8>) -> Self::State;

    /// Creates a new instance, seeded from another generator.
    fn from_rng<R: Rng>(rng: &mut R) -> (result: Result<Self, Error>)
        ensures
            (*final(rng)).state() == R::spec_try_fill((*old(rng)).state(), Self::spec_seed_len()).1,
            match result {
                Ok(seeded) => R::spec_try_fill((*old(rng)).state(), Self::spec_seed_len()).0
                    matches Ok(seed) && seeded.state() == Self::spec_from_seed_bytes(seed),
                Err(e) => R::spec_try_fill((*old(rng)).state(), Self::spec_seed_len()).0 == Err::<
                    Seq<u8>,
                    Error,
                >(e),
            },
    ;
}

/// The outcome of seeding a generator of type `G` from a source in state `source`: the
/// state of the new generator or the failure of the source, and the state of the source
/// after the seed was asked for.
pub open spec fn seeding_outcome<G: SeedFromRng, R: Rng>(source: R::State) -> (
    Result<G::State, Error>,
    R::State,
) {
    let (outcome, after) = R::spec_try_fill(source, G::spec_seed_len());
    match outcome {
        Ok(seed) => (Ok(G::spec_from_seed_bytes(seed)), after),
        Err(e) => (Err(e), after),
    }
}

/// A random number generator that can be explicitly seeded to produce the same stream
/// of randomness multiple times.
pub trait SeedableRng<Seed>: Rng {
    /// The state of the generator that `seed` gives.
    spec fn spec_from_seed(seed: Seed) -> Self::State;

    /// Create a new generator with the given seed.
    fn from_seed(seed: Seed) -> (rng: Self)
        ensures
            rng.state() == Self::spec_from_seed(seed),
    ;
}

impl<R: Stateful> Stateful for Box<R> {
    type State = R::State;

    open spec fn state(&self) -> Self::State {
        (**self).state()
    }
}

/// An owned indirection to a generator is a generator: every operation is handed on
/// to the generator behind it, so outputs, consumption and failures are the same.
impl<R: Rng> Rng for Box<R> {
    open spec fn spec_next_u32(state: Self::State) -> (u32, Self::State) {
        R::spec_next_u32(state)
    }

    open spec fn spec_next_u64(state: Self::State) -> (u64, Self::State) {
        R::spec_next_u64(state)
    }

    open spec fn spec_fill_bytes(state: Self::State, len: nat) -> (Seq<u8>, Self::State) {
        R::spec_fill_bytes(state, len)
    }

    open spec fn spec_try_fill(state: Self::State, len: nat) -> (
        Result<Seq<u8>, Error>,
        Self::State,
    ) {
        R::spec_try_fill(state, len)
    }

    fn next_u32(&mut self) -> (value: u32) {
        (**self).next_u32()
    }

    fn next_u64(&mut self) -> (value: u64) {
        (**self).next_u64()
    }

    fn fill_bytes(&mut self, dest: &mut [u8]) {
        (**self).fill_bytes(dest)
    }

    fn try_fill(&mut self, dest: &mut [u8]) -> (result: Result<(), Error>) {
        (**self).try_fill(dest)
    }
}

impl<'a, R: Stateful> Stateful for &'a mut R {
    type State = R::State;

    open spec fn state(&self) -> Self::State {
        (**self).state()
    }
}

/// A mutable reference to a generator is a generator: every operation is handed on to
/// the generator behind it.
impl<'a, R: Rng> Rng for &'a mut R {
    open spec fn spec_next_u32(state: Self::State) -> (u32, Self::State) {
        R::spec_next_u32(state)
    }

    open spec fn spec_next_u64(state: Self::State) -> (u64, Self::State) {
        R::spec_next_u64(state)
    }

    open spec fn spec_fill_bytes(state: Self::State, len: nat) -> (Seq<u8>, Self::State) {
        R::spec_fill_bytes(state, len)
    }

    open spec fn spec_try_fill(state: Self::State, len: nat) -> (
        Result<Seq<u8>, Error>,
        Self::State,
    ) {
        R::spec_try_fill(state, len)
    }

    fn next_u32(&mut self) -> (value: u32) {
        (**self).next_u32()
    }

    fn next_u64(&mut self) -> (value: u64) {
        (**self).next_u64()
    }

    fn fill_bytes(&mut self, dest: &mut [u8]) {
        (**self).fill_bytes(dest)
    }

    fn try_fill(&mut self, dest: &mut [u8]) -> (result: Result<(), Error>) {
        (**self).try_fill(dest)
    }
}

} // verus!
