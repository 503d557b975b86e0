//! A wrapper around another generator that reseeds it after it has generated a certain
//! number of random bytes.

use vstd::prelude::*;
use crate::block::{
    block_fill, block_next_u32, block_next_u64, BlockRng, BlockRngCore, BlockRngState,
    CryptoBlockRng,
};
use crate::error::Error;
use crate::rng::{seeding_outcome, CryptoRng, Rng, SeedFromRng, Stateful};

verus! {

/// The state of a reseeding core: the states of the generator inside and of the source
/// of new seeds, the byte budget between two reseeds, and what is left of it.
pub struct ReseedingState<I, S> {
    pub inner: I,
    pub reseeder: S,
    pub threshold: i64,
    pub bytes_until_reseed: i64,
}

/// The budget that a requested threshold stands for: a threshold of zero asks for no
/// reseeding by byte count and stands for the greatest budget there is, and so does
/// every threshold beyond it.
pub open spec fn clamped_threshold(threshold: u64) -> i64 {
    if threshold == 0 || threshold > i64::MAX {
        i64::MAX
    } else {
        threshold as i64
    }
}

/// What is left of `budget` after `bytes` more bytes; it may go below zero, and stays
/// at the least representable value rather than wrap around.
pub open spec fn budget_after(budget: i64, bytes: int) -> i64 {
    if budget - bytes < i64::MIN {
        i64::MIN
    } else {
        (budget - bytes) as i64
    }
}

/// The number of bytes in one block of `R`.
pub open spec fn block_bytes<R: BlockRngCore>() -> int {
    4 * (R::spec_results_len() as int)
}

/// The state of a freshly made core: the whole budget is left.
pub open spec fn fresh_state<I, S>(inner: I, threshold: u64, reseeder: S) -> ReseedingState<I, S> {
    ReseedingState {
        inner,
        reseeder,
        threshold: clamped_threshold(threshold),
        bytes_until_reseed: clamped_threshold(threshold),
    }
}

/// Whether the budget is used up, so that the next block is preceded by a reseed.
pub open spec fn reseed_due<I, S>(state: ReseedingState<I, S>) -> bool {
    state.bytes_until_reseed <= 0
}

/// The number of bytes requested since the budget was last whole.
pub open spec fn bytes_requested<I, S>(state: ReseedingState<I, S>) -> int {
    state.threshold - state.bytes_until_reseed
}

/// The outcome of a reseed: the source of seeds is drawn from in any case; when a new
/// generator could be seeded from it, it takes the place of the old one and the budget
/// is whole again; when not, the failure is the outcome and nothing else changes.
pub open spec fn reseed_outcome<R: BlockRngCore + SeedFromRng, Rsdr: Rng>(
    state: ReseedingState<R::State, Rsdr::State>,
) -> (Result<(), Error>, ReseedingState<R::State, Rsdr::State>) {
    let (seeded, source) = seeding_outcome::<R, Rsdr>(state.reseeder);
    match seeded {
        Ok(inner) => (
            Ok(()),
            ReseedingState {
                inner,
                reseeder: source,
                bytes_until_reseed: state.threshold,
                ..state
            },
        ),
        Err(e) => (Err(e), ReseedingState { reseeder: source, ..state }),
    }
}

/// The state in which the next block is generated: as it is while budget is left; after
/// a reseed when the budget is used up. A failed reseed is passed over: the old
/// generator goes on, and the budget stays used up so that the next block tries again.
pub open spec fn before_block<R: BlockRngCore + SeedFromRng, Rsdr: Rng>(
    state: ReseedingState<R::State, Rsdr::State>,
) -> ReseedingState<R::State, Rsdr::State> {
    if reseed_due(state) {
        reseed_outcome::<R, Rsdr>(state).1
    } else {
        state
    }
}

/// The next block of a reseeding core, and the state after it.
pub open spec fn next_block<R: BlockRngCore + SeedFromRng, Rsdr: Rng>(
    state: ReseedingState<R::State, Rsdr::State>,
) -> (Seq<u32>, ReseedingState<R::State, Rsdr::State>) {
    let ready = before_block::<R, Rsdr>(state);
    let (block, inner) = R::spec_generate(ready.inner);
    (
        block,
        ReseedingState {
            inner,
            bytes_until_reseed: budget_after(ready.bytes_until_reseed, block_bytes::<R>()),
            ..ready
        },
    )
}

/// A block generator that reseeds the generator inside it from a second source once a
/// byte budget is used up.
///
/// The budget is checked when a block is asked for, before the block is generated. A
/// reseed that fails never stops generation.
#[derive(Debug)]
pub struct ReseedingCore<R, Rsdr> {
    inner: R,
    reseeder: Rsdr,
    threshold: i64,
    bytes_until_reseed: i64,
}

impl<R: Stateful, Rsdr: Stateful> Stateful for ReseedingCore<R, Rsdr> {
    type State = ReseedingState<R::State, Rsdr::State>;

    closed spec fn state(&self) -> Self::State {
        ReseedingState {
            inner: self.inner.state(),
            reseeder: self.reseeder.state(),
            threshold: self.threshold,
            bytes_until_reseed: self.bytes_until_reseed,
        }
    }
}

/// What is left of `budget` after `bytes` more bytes.
fn spend(budget: i64, bytes: i64) -> (left: i64)
    requires
        bytes >= 0,
    ensures
        left == budget_after(budget, bytes as int),
{
    match budget.checked_sub(bytes) {
        Some(left) => left,
        None => i64::MIN,
    }
}

impl<R: BlockRngCore + SeedFromRng, Rsdr: Rng> ReseedingCore<R, Rsdr> {
    /// Create a new `ReseedingCore`.
    ///
    /// `threshold` sets the number of generated bytes after which to reseed the
    /// generator. Set it to zero to never reseed based on the number of bytes.
    pub fn new(rng: R, threshold: u64, reseeder: Rsdr) -> (core: Self)
        ensures
            core.state() == fresh_state(rng.state(), threshold, reseeder.state()),
    {
        let threshold = if threshold == 0 {
            i64::MAX
        } else if threshold <= i64::MAX as u64 {
            threshold as i64
        } else {
            i64::MAX
        };
        ReseedingCore { inner: rng, reseeder, threshold, bytes_until_reseed: threshold }
    }

    /// Reseed the internal generator.
    pub fn reseed(&mut self) -> (result: Result<(), Error>)
        ensures
            (result, (*final(self)).state()) == reseed_outcome::<R, Rsdr>((*old(self)).state()),
    {
        match R::from_rng(&mut self.reseeder) {
            Ok(seeded) => {
                self.bytes_until_reseed = self.threshold;
                self.inner = seeded;
                Ok(())
            },
            Err(e) => Err(e),
        }
    }

    /// Reseed, then generate a block. A failure to reseed is passed over.
    pub fn reseed_and_generate(&mut self, results: &mut Vec<u32>)
        ensures
            final(results)@.len() == R::spec_results_len(),
            (*final(self)).state() == ({
                let ready = reseed_outcome::<R, Rsdr>((*old(self)).state()).1;
                ReseedingState {
                    inner: R::spec_generate(ready.inner).1,
                    bytes_until_reseed: budget_after(ready.bytes_until_reseed, block_bytes::<R>()),
                    ..ready
                }
            }),
            final(results)@ == R::spec_generate(
                reseed_outcome::<R, Rsdr>((*old(self)).state()).1.inner,
            ).0,
    {
        proof {
            R::lemma_block(self.inner.state());
        }
        let num_bytes = (R::results_len() * 4) as i64;
        let _ = self.reseed();
        self.bytes_until_reseed = spend(self.bytes_until_reseed, num_bytes);
        self.inner.generate(results);
    }
}

impl<R: BlockRngCore + SeedFromRng, Rsdr: Rng> BlockRngCore for ReseedingCore<R, Rsdr> {
    open spec fn spec_results_len() -> nat {
        R::spec_results_len()
    }

    open spec fn spec_generate(state: Self::State) -> (Seq<u32>, Self::State) {
        next_block::<R, Rsdr>(state)
    }

    proof fn lemma_block(state: Self::State) {
        R::lemma_block(before_block::<R, Rsdr>(state).inner);
    }

    fn results_len() -> (len: usize) {
        R::results_len()
    }

    fn generate(&mut self, results: &mut Vec<u32>) {
        if self.bytes_until_reseed <= 0 {
            return self.reseed_and_generate(results);
        }
        proof {
            R::lemma_block(self.inner.state());
        }
        let num_bytes = (R::results_len() * 4) as i64;
        self.bytes_until_reseed = spend(self.bytes_until_reseed, num_bytes);
        self.inner.generate(results);
    }
}

impl<R, Rsdr> ReseedingCore<R, Rsdr> {
    /// The generator inside.
    pub closed spec fn spec_inner(&self) -> R {
        self.inner
    }

    /// The source of new seeds.
    pub closed spec fn spec_reseeder(&self) -> Rsdr {
        self.reseeder
    }
}

impl<R: Stateful, Rsdr: Stateful> ReseedingCore<R, Rsdr> {
    /// The state holds the states of the generator inside and of the source of seeds.
    pub proof fn lemma_parts_state(&self)
        ensures
            self.state().inner == self.spec_inner().state(),
            self.state().reseeder == self.spec_reseeder().state(),
    {
    }
}

impl<R: Clone + Stateful, Rsdr: Clone + Stateful> Clone for ReseedingCore<R, Rsdr> {
    /// Clones the generator inside and the source of seeds. The clone has the same
    /// threshold and its budget used up: it reseeds before it generates anything.
    fn clone(&self) -> (copy: Self)
        ensures
            cloned(self.spec_inner(), copy.spec_inner()),
            cloned(self.spec_reseeder(), copy.spec_reseeder()),
            copy.state() == (ReseedingState {
                inner: copy.spec_inner().state(),
                reseeder: copy.spec_reseeder().state(),
                threshold: self.state().threshold,
                bytes_until_reseed: 0,
            }),
    {
        ReseedingCore {
            inner: self.inner.clone(),
            reseeder: self.reseeder.clone(),
            threshold: self.threshold,
            bytes_until_reseed: 0,
        }
    }
}

/// A wrapper around any block generator that adds the ability to reseed it.
///
/// `ReseedingRng` reseeds the underlying generator in the following cases:
///
/// - On a manual call to [`ReseedingRng::reseed`].
/// - After `clone()`, the clone will be reseeded on first use.
/// - After the generator has generated a configurable number of random bytes.
///
/// Reseeding the wrapped generator can fail. `ReseedingRng` never fails for that
/// reason: it goes on generating from the generator it has and tries again with the
/// next block. A manual reseed reports the failure instead.
pub struct ReseedingRng<R: BlockRngCore + SeedFromRng, Rsdr: Rng>(
    BlockRng<ReseedingCore<R, Rsdr>>,
);

impl<R: BlockRngCore + SeedFromRng, Rsdr: Rng> Stateful for ReseedingRng<R, Rsdr> {
    type State = BlockRngState<ReseedingState<R::State, Rsdr::State>>;

    closed spec fn state(&self) -> Self::State {
        self.0.state()
    }
}

impl<R: BlockRngCore + SeedFromRng, Rsdr: Rng> ReseedingRng<R, Rsdr> {
    /// The reseeding core inside.
    pub closed spec fn spec_reseeding_core(&self) -> ReseedingCore<R, Rsdr> {
        self.0.spec_core()
    }

    /// The state holds the state of the reseeding core inside, and with it the states
    /// of the generator inside and of the source of seeds.
    pub proof fn lemma_core_state(&self)
        ensures
            self.state().core == self.spec_reseeding_core().state(),
            self.state().core.inner == self.spec_reseeding_core().spec_inner().state(),
            self.state().core.reseeder == self.spec_reseeding_core().spec_reseeder().state(),
    {
        self.0.lemma_core_state();
        self.0.spec_core().lemma_parts_state();
    }

    /// Create a new `ReseedingRng` from an existing generator, combined with a
    /// generator to use as reseeder.
    ///
    /// `threshold` sets the number of generated bytes after which to reseed the
    /// generator. Set it to zero to never reseed based on the number of generated
    /// values.
    pub fn new(rng: R, threshold: u64, reseeder: Rsdr) -> (reseeding: Self)
        ensures
            reseeding.state() == (BlockRngState {
                buffered: Seq::<u32>::empty(),
                core: fresh_state(rng.state(), threshold, reseeder.state()),
            }),
    {
        ReseedingRng(BlockRng::new(ReseedingCore::new(rng, threshold, reseeder)))
    }

    /// Immediately reseed the generator.
    ///
    /// This discards any remaining random data in the cache, also when the reseed
    /// fails; the failure is then reported and the old generator stays.
    pub fn reseed(&mut self) -> (result: Result<(), Error>)
        ensures
            result == reseed_outcome::<R, Rsdr>((*old(self)).state().core).0,
            (*final(self)).state() == (BlockRngState {
                buffered: Seq::<u32>::empty(),
                core: reseed_outcome::<R, Rsdr>((*old(self)).state().core).1,
            }),
    {
        self.0.reset();
        self.0.core_mut().reseed()
    }
}

impl<R: BlockRngCore + SeedFromRng, Rsdr: Rng> Rng for ReseedingRng<R, Rsdr> {
    open spec fn spec_next_u32(state: Self::State) -> (u32, Self::State) {
        block_next_u32::<ReseedingCore<R, Rsdr>>(state)
    }

    open spec fn spec_next_u64(state: Self::State) -> (u64, Self::State) {
        block_next_u64::<ReseedingCore<R, Rsdr>>(state)
    }

    open spec fn spec_fill_bytes(state: Self::State, len: nat) -> (Seq<u8>, Self::State) {
        block_fill::<ReseedingCore<R, Rsdr>>(state, len)
    }

    open spec fn spec_try_fill(state: Self::State, len: nat) -> (
        Result<Seq<u8>, Error>,
        Self::State,
    ) {
        (
            Ok(block_fill::<ReseedingCore<R, Rsdr>>(state, len).0),
            block_fill::<ReseedingCore<R, Rsdr>>(state, len).1,
        )
    }

    fn next_u32(&mut self) -> (value: u32) {
        self.0.next_u32()
    }

    fn next_u64(&mut self) -> (value: u64) {
        self.0.next_u64()
    }

    fn fill_bytes(&mut self, dest: &mut [u8]) {
        self.0.fill_bytes(dest)
    }

    fn try_fill(&mut self, dest: &mut [u8]) -> (result: Result<(), Error>) {
        self.0.try_fill(dest)
    }
}

impl<R: BlockRngCore + SeedFromRng + Clone, Rsdr: Rng + Clone> Clone for ReseedingRng<R, Rsdr> {
    /// The clone has nothing buffered and its budget used up: the first value it hands
    /// out comes from a block generated after a reseed.
    fn clone(&self) -> (copy: Self)
        ensures
            cloned(self.spec_reseeding_core().spec_inner(), copy.spec_reseeding_core().spec_inner()),
            cloned(
                self.spec_reseeding_core().spec_reseeder(),
                copy.spec_reseeding_core().spec_reseeder(),
            ),
            copy.state() == (BlockRngState {
                buffered: Seq::<u32>::empty(),
                core: ReseedingState {
                    inner: copy.spec_reseeding_core().spec_inner().state(),
                    reseeder: copy.spec_reseeding_core().spec_reseeder().state(),
                    threshold: self.state().core.threshold,
                    bytes_until_reseed: 0,
                },
            }),
    {
        ReseedingRng(BlockRng::new(self.0.core_ref().clone()))
    }
}

impl<R: CryptoBlockRng + SeedFromRng, Rsdr: CryptoRng> CryptoRng for ReseedingRng<R, Rsdr> {
}

impl<R: CryptoBlockRng + SeedFromRng, Rsdr: CryptoRng> CryptoBlockRng for ReseedingCore<R, Rsdr> {
}

/// The state after `count` more blocks.
pub open spec fn after_blocks<R: BlockRngCore + SeedFromRng, Rsdr: Rng>(
    state: ReseedingState<R::State, Rsdr::State>,
    count: nat,
) -> ReseedingState<R::State, Rsdr::State>
    decreases count,
{
    if count == 0 {
        state
    } else {
        next_block::<R, Rsdr>(after_blocks::<R, Rsdr>(state, (count - 1) as nat)).1
    }
}

/// The blocks that the next `count` requests give, in order.
pub open spec fn blocks<R: BlockRngCore + SeedFromRng, Rsdr: Rng>(
    state: ReseedingState<R::State, Rsdr::State>,
    count: nat,
) -> Seq<Seq<u32>> {
    Seq::new(count, |i: int| next_block::<R, Rsdr>(after_blocks::<R, Rsdr>(state, i as nat)).0)
}

/// Reproducibility: two cores made from generators in the same state, sources of seeds
/// in the same state and the same threshold give the same blocks, request by request,
/// and are in the same state afterwards.
pub proof fn lemma_reproducible<R: BlockRngCore + SeedFromRng, Rsdr: Rng>(
    inner: R::State,
    threshold: u64,
    reseeder: Rsdr::State,
    first: ReseedingState<R::State, Rsdr::State>,
    second: ReseedingState<R::State, Rsdr::State>,
    count: nat,
)
    requires
        first == fresh_state(inner, threshold, reseeder),
        second == fresh_state(inner, threshold, reseeder),
    ensures
        blocks::<R, Rsdr>(first, count) == blocks::<R, Rsdr>(second, count),
        after_blocks::<R, Rsdr>(first, count) == after_blocks::<R, Rsdr>(second, count),
{
}

/// A reseed is due exactly when the bytes requested since the budget was last whole
/// have reached the threshold.
pub proof fn lemma_reseed_due<I, S>(state: ReseedingState<I, S>)
    ensures
        reseed_due(state) <==> bytes_requested(state) >= state.threshold,
{
}

/// A block is preceded by a reseed exactly when one is due: while budget is left the
/// source of seeds is not touched and the generator inside stays; when the budget is
/// used up the outcome of the reseed is what the block is generated from.
pub proof fn lemma_reseed_exactly_when_due<R: BlockRngCore + SeedFromRng, Rsdr: Rng>(
    state: ReseedingState<R::State, Rsdr::State>,
)
    ensures
        !reseed_due(state) ==> before_block::<R, Rsdr>(state) == state && next_block::<R, Rsdr>(
            state,
        ).1.reseeder == state.reseeder,
        reseed_due(state) ==> before_block::<R, Rsdr>(state) == reseed_outcome::<R, Rsdr>(state).1,
{
}

/// From a whole budget, no reseed happens before the requested bytes reach the
/// threshold: after `count` blocks that together stay below it, the source of seeds
/// is untouched, just those bytes are counted as requested, and no reseed is due.
pub proof fn lemma_no_reseed_below_threshold<R: BlockRngCore + SeedFromRng, Rsdr: Rng>(
    state: ReseedingState<R::State, Rsdr::State>,
    count: nat,
)
    requires
        state.threshold >= 1,
        state.bytes_until_reseed == state.threshold,
        count * block_bytes::<R>() < state.threshold,
    ensures
        after_blocks::<R, Rsdr>(state, count).reseeder == state.reseeder,
        after_blocks::<R, Rsdr>(state, count).threshold == state.threshold,
        bytes_requested(after_blocks::<R, Rsdr>(state, count)) == count * block_bytes::<R>(),
        !reseed_due(after_blocks::<R, Rsdr>(state, count)),
    decreases count,
{
    R::lemma_block(state.inner);
    if count > 0 {
        let earlier = (count - 1) as nat;
        assert(earlier * block_bytes::<R>() < state.threshold) by (nonlinear_arith)
            requires
                count * block_bytes::<R>() < state.threshold,
                earlier == count - 1,
                block_bytes::<R>() >= 0,
        ;
        assert(count * block_bytes::<R>() == earlier * block_bytes::<R>() + block_bytes::<R>())
            by (nonlinear_arith)
            requires
                earlier == count - 1,
        ;
        lemma_no_reseed_below_threshold::<R, Rsdr>(state, earlier);
    } else {
        assert(count * block_bytes::<R>() == 0) by (nonlinear_arith)
            requires
                count == 0,
        ;
    }
}

/// From a whole budget, the first block after the requested bytes have reached the
/// threshold is preceded by a reseed.
pub proof fn lemma_reseed_at_threshold<R: BlockRngCore + SeedFromRng, Rsdr: Rng>(
    state: ReseedingState<R::State, Rsdr::State>,
    count: nat,
)
    requires
        state.threshold >= 1,
        state.bytes_until_reseed == state.threshold,
        count >= 1,
        (count - 1) * block_bytes::<R>() < state.threshold <= count * block_bytes::<R>(),
    ensures
        reseed_due(after_blocks::<R, Rsdr>(state, count)),
{
    R::lemma_block(state.inner);
    let earlier = (count - 1) as nat;
    lemma_no_reseed_below_threshold::<R, Rsdr>(state, earlier);
    assert(count * block_bytes::<R>() == earlier * block_bytes::<R>() + block_bytes::<R>())
        by (nonlinear_arith)
        requires
            earlier == count - 1,
    ;
}

/// A core whose budget is used up, as that of a clone is, reseeds before it gives
/// anything: when the reseed succeeds, its first block is the first block of the newly
/// seeded generator, whatever state the generator inside was in.
pub proof fn lemma_exhausted_reseeds_first<R: BlockRngCore + SeedFromRng, Rsdr: Rng>(
    state: ReseedingState<R::State, Rsdr::State>,
)
    requires
        state.bytes_until_reseed <= 0,
    ensures
        next_block::<R, Rsdr>(state).1.reseeder == seeding_outcome::<R, Rsdr>(state.reseeder).1,
        seeding_outcome::<R, Rsdr>(state.reseeder).0 matches Ok(seeded) ==> next_block::<R, Rsdr>(
            state,
        ).0 == R::spec_generate(seeded).0,
        seeding_outcome::<R, Rsdr>(state.reseeder).0 is Err ==> next_block::<R, Rsdr>(state).0
            == R::spec_generate(state.inner).0 && reseed_due(next_block::<R, Rsdr>(state).1),
{
}

/// A wrapper with nothing buffered and its budget used up, as a clone is, hands out as
/// its first word the first word of the block that follows a reseed: where the source
/// gives a seed, the first word of the generator newly seeded with it, whatever state
/// the generator inside was in.
pub proof fn lemma_exhausted_first_word<R: BlockRngCore + SeedFromRng, Rsdr: Rng>(
    state: BlockRngState<ReseedingState<R::State, Rsdr::State>>,
)
    requires
        state.buffered.len() == 0,
        state.core.bytes_until_reseed <= 0,
    ensures
        block_next_u32::<ReseedingCore<R, Rsdr>>(state).0 == next_block::<R, Rsdr>(state.core).0[0],
        seeding_outcome::<R, Rsdr>(state.core.reseeder).0 matches Ok(seeded) ==> block_next_u32::<
            ReseedingCore<R, Rsdr>,
        >(state).0 == R::spec_generate(seeded).0[0],
{
}

} // verus!
