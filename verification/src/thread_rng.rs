//! The state behind a thread-local generator: a ChaCha generator seeded from the
//! operating system, and the byte budget after which it is seeded anew.

use vstd::prelude::*;
use crate::block::{block_fill, block_next_u32, block_next_u64, BlockRng, BlockRngState};
use crate::chacha::{is_entropy_failure, ChaChaState, Core, CHACHA_SEED_LEN};
use crate::error::Error;
use crate::rng::{Rng, Stateful};

verus! {

/// Number of generated bytes after which to reseed the thread's generator.
pub const RESEED_THRESHOLD: isize = 65536;

/// The state of an [`InnerState`]: the state of its generator and what is left of the
/// byte budget.
pub struct ThreadState {
    pub rng: BlockRngState<ChaChaState>,
    pub bytes_until_reseed: isize,
}

/// Whether `rng` is the state of a generator that has just been seeded: nothing is
/// buffered, and the core stands at the start of the stream of some key.
pub open spec fn just_seeded(rng: BlockRngState<ChaChaState>) -> bool {
    &&& rng.buffered.len() == 0
    &&& rng.core.position == 0
    &&& rng.core.key.len() == CHACHA_SEED_LEN
}

/// Whether `after` can be the state that a reseed leaves `before` in: the budget is
/// whole in any case; the generator is a newly seeded one, or, where seeding failed,
/// the old one.
pub open spec fn reseeded(before: ThreadState, after: ThreadState, success: bool) -> bool {
    &&& after.bytes_until_reseed == RESEED_THRESHOLD
    &&& if success {
        just_seeded(after.rng)
    } else {
        after.rng == before.rng
    }
}

/// Whether `ready` can be the state in which `before` hands out `bytes` bytes: as it
/// was, while budget is left; after a reseed that may have failed, when it is used up.
/// The bytes are taken off the budget in either case.
pub open spec fn checked(before: ThreadState, bytes: int, ready: ThreadState) -> bool {
    if before.bytes_until_reseed <= 0 {
        &&& ready.bytes_until_reseed == RESEED_THRESHOLD - bytes
        &&& (just_seeded(ready.rng) || ready.rng == before.rng)
    } else {
        &&& ready.bytes_until_reseed == before.bytes_until_reseed - bytes
        &&& ready.rng == before.rng
    }
}

/// A cryptographically secure generator that is seeded from the operating system and
/// seeded anew after every 64 KiB of output.
///
/// A failure to seed anew never stops generation: the generator goes on from the state
/// it is in. Only the first seeding and a manual [`InnerState::reseed`] report failure.
pub struct InnerState {
    rng: BlockRng<Core>,
    bytes_until_reseed: isize,
}

impl Stateful for InnerState {
    type State = ThreadState;

    closed spec fn state(&self) -> ThreadState {
        ThreadState { rng: self.rng.state(), bytes_until_reseed: self.bytes_until_reseed }
    }
}

impl InnerState {
    /// Create the state, seeding the generator from the operating system.
    ///
    /// There is no fallback for a generator that cannot be seeded: the failure is all
    /// that comes back.
    pub fn new() -> (result: Result<Self, Error>)
        ensures
            match result {
                Ok(inner) => just_seeded(inner.state().rng) && inner.state().bytes_until_reseed
                    == RESEED_THRESHOLD,
                Err(e) => is_entropy_failure(e),
            },
    {
        InnerState::from_seeding(Core::from_os_entropy())
    }

    /// Create the state from the outcome of seeding a core: where a core was seeded, it
    /// is put behind an empty buffer and given the whole budget; where not, the failure
    /// is handed on as it is.
    pub fn from_seeding(seeded: Result<Core, Error>) -> (result: Result<Self, Error>)
        ensures
            match seeded {
                Ok(core) => result matches Ok(inner) && inner.state() == (ThreadState {
                    rng: BlockRngState { buffered: Seq::<u32>::empty(), core: core.state() },
                    bytes_until_reseed: RESEED_THRESHOLD,
                }),
                Err(e) => result matches Err(f) && f == e,
            },
    {
        match seeded {
            Ok(core) => Ok(
                InnerState { rng: BlockRng::new(core), bytes_until_reseed: RESEED_THRESHOLD },
            ),
            Err(e) => Err(e),
        }
    }

    /// Immediately reseed the generator.
    ///
    /// This discards the budget that was left, also when seeding fails; the failure is
    /// then reported and the generator stays as it was.
    pub fn reseed(&mut self) -> (result: Result<(), Error>)
        ensures
            reseeded((*old(self)).state(), (*final(self)).state(), result is Ok),
            result matches Err(e) ==> is_entropy_failure(e),
    {
        self.reseed_from(Core::from_os_entropy())
    }

    /// Reseed the generator with the outcome of seeding a core. The budget is made
    /// whole in either case. Where a core was seeded, it takes the place of the old
    /// generator, behind an empty buffer; where not, the old generator stays exactly as
    /// it was, buffer and all, and the failure is handed on as it is.
    pub fn reseed_from(&mut self, seeded: Result<Core, Error>) -> (result: Result<(), Error>)
        ensures
            (*final(self)).state().bytes_until_reseed == RESEED_THRESHOLD,
            match seeded {
                Ok(core) => result is Ok && (*final(self)).state().rng == (BlockRngState {
                    buffered: Seq::<u32>::empty(),
                    core: core.state(),
                }),
                Err(e) => {
                    &&& result matches Err(f) && f == e
                    &&& (*final(self)).state().rng == (*old(self)).state().rng
                },
            },
    {
        self.bytes_until_reseed = RESEED_THRESHOLD;
        match seeded {
            Ok(core) => {
                self.rng = BlockRng::new(core);
                Ok(())
            },
            Err(e) => Err(e),
        }
    }

    /// Accounts for `n` bytes about to be generated, reseeding first if the budget is
    /// used up. A failure to reseed is passed over.
    pub fn reseed_check(&mut self, n: isize)
        requires
            n >= 0,
        ensures
            checked((*old(self)).state(), n as int, (*final(self)).state()),
    {
        if self.bytes_until_reseed <= 0 {
            self.reseed_and_charge(Core::from_os_entropy(), n);
        } else {
            self.bytes_until_reseed -= n;
        }
    }

    /// Reseeds with the outcome of seeding a core, then accounts for `n` bytes about to
    /// be generated: this is what is done when the budget is used up. Where a core was
    /// seeded, it takes the place of the old generator, behind an empty buffer; where
    /// not, the failure is passed over and the old generator stays exactly as it was.
    /// The bytes are taken off the whole budget in either case.
    pub fn reseed_and_charge(&mut self, seeded: Result<Core, Error>, n: isize)
        requires
            n >= 0,
        ensures
            (*final(self)).state().bytes_until_reseed == RESEED_THRESHOLD - n,
            match seeded {
                Ok(core) => (*final(self)).state().rng == (BlockRngState {
                    buffered: Seq::<u32>::empty(),
                    core: core.state(),
                }),
                Err(_) => (*final(self)).state().rng == (*old(self)).state().rng,
            },
    {
        let _ = self.reseed_from(seeded);
        self.bytes_until_reseed -= n;
    }

    /// What is left of the byte budget.
    pub fn bytes_until_reseed(&self) -> (left: isize)
        ensures
            left == self.state().bytes_until_reseed,
    {
        self.bytes_until_reseed
    }

    /// Return the next random u32.
    pub fn next_u32(&mut self) -> (value: u32)
        ensures
            exists|ready: ThreadState| #[trigger]
                checked((*old(self)).state(), 4, ready) && (*final(self)).state().bytes_until_reseed
                    == ready.bytes_until_reseed && (value, (*final(self)).state().rng)
                    == block_next_u32::<Core>(ready.rng),
    {
        self.reseed_check(4);
        let ghost ready = self.state();
        let value = self.rng.next_u32();
        assert(checked((*old(self)).state(), 4, ready));
        value
    }

    /// Return the next random u64.
    pub fn next_u64(&mut self) -> (value: u64)
        ensures
            exists|ready: ThreadState| #[trigger]
                checked((*old(self)).state(), 8, ready) && (*final(self)).state().bytes_until_reseed
                    == ready.bytes_until_reseed && (value, (*final(self)).state().rng)
                    == block_next_u64::<Core>(ready.rng),
    {
        self.reseed_check(8);
        let ghost ready = self.state();
        let value = self.rng.next_u64();
        assert(checked((*old(self)).state(), 8, ready));
        value
    }

    /// Fill `dest` entirely with random data.
    pub fn fill_bytes(&mut self, dest: &mut [u8])
        ensures
            final(dest)@.len() == old(dest)@.len(),
            exists|ready: ThreadState| #[trigger]
                checked((*old(self)).state(), bytes_counted(old(dest)@.len()) as int, ready)
                    && (*final(self)).state().bytes_until_reseed == ready.bytes_until_reseed
                    && (final(dest)@, (*final(self)).state().rng) == block_fill::<Core>(
                    ready.rng,
                    old(dest)@.len(),
                ),
    {
        let len = dest.len();
        let n = if len > isize::MAX as usize {
            isize::MAX
        } else {
            len as isize
        };
        self.reseed_check(n);
        let ghost ready = self.state();
        self.rng.fill_bytes(dest);
        assert(checked((*old(self)).state(), bytes_counted(old(dest)@.len()) as int, ready));
    }
}

/// The number of bytes that a fill of `len` bytes takes off the budget: `len`, as far
/// as the budget can count.
pub open spec fn bytes_counted(len: nat) -> isize {
    if len > isize::MAX {
        isize::MAX
    } else {
        len as isize
    }
}

} // verus!
