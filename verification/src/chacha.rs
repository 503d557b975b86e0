//! The ChaCha block generator with 12 rounds as a block generator of this library. The
//! keystream itself is computed by the `rand_chacha` crate.

use vstd::prelude::*;
use crate::block::{BlockRngCore, CryptoBlockRng};
use crate::error::{Error, ErrorKind};
use crate::rng::{Rng, SeedFromRng, Stateful};

verus! {

/// The error of the operating system's source of randomness, as `rand_core` has it.
#[verifier::external_type_specification]
#[verifier::external_body]
pub struct ExOsError(rand_chacha::rand_core::OsError);

/// The `len` bytes of the ChaCha keystream of twelve rounds under key `key` and stream
/// number zero that start at the 32-bit word `word_offset`, each word in little-endian
/// order.
pub uninterp spec fn chacha12_keystream(key: Seq<u8>, word_offset: int, len: nat) -> Seq<u8>;

/// The number of words that the generator produces at a time: four ChaCha blocks.
pub const CHACHA_RESULTS_LEN: usize = 64;

/// The number of bytes in a ChaCha seed.
pub const CHACHA_SEED_LEN: usize = 32;

/// The number of words in one ChaCha block.
pub const CHACHA_BLOCK_WORDS: u128 = 16;

/// Seeds a `rand_chacha::ChaCha12Rng` with `key` (`SeedableRng::from_seed`), moves it to
/// the word `word_offset` of its stream (`ChaCha12Rng::set_word_pos`) and fills `dest`
/// from it (`RngCore::fill_bytes`): `dest` then holds the keystream from that word on.
#[verifier::external_body]
fn chacha12_fill(key: &[u8; 32], word_offset: u128, dest: &mut [u8])
    ensures
        final(dest)@.len() == old(dest)@.len(),
        final(dest)@ == chacha12_keystream(key@, word_offset as int, old(dest)@.len()),
{
    let mut rng = <rand_chacha::ChaCha12Rng as rand_chacha::rand_core::SeedableRng>::from_seed(*key);
    rng.set_word_pos(word_offset);
    rand_chacha::rand_core::RngCore::fill_bytes(&mut rng, dest);
}

/// Calls `TryRngCore::try_fill_bytes` of `rand_core::OsRng`: fills `dest` with bytes
/// from the operating system, or fails. Nothing is known of the bytes.
#[verifier::external_body]
fn os_fill_bytes(dest: &mut [u8]) -> (result: Result<(), rand_chacha::rand_core::OsError>)
    ensures
        final(dest)@.len() == old(dest)@.len(),
{
    rand_chacha::rand_core::TryRngCore::try_fill_bytes(&mut rand_chacha::rand_core::OsRng, dest)
}

/// The state of a ChaCha core: its key and the number of the block it generates next.
pub struct ChaChaState {
    pub key: Seq<u8>,
    pub position: int,
}

/// The state of a core that has just been seeded with `key`.
pub open spec fn seeded(key: Seq<u8>) -> ChaChaState {
    ChaChaState { key, position: 0 }
}

/// The word whose little-endian bytes are the four of `bytes` from `4 * index` on.
pub open spec fn word_at(bytes: Seq<u8>, index: int) -> u32 {
    (bytes[4 * index] as u32) | (bytes[4 * index + 1] as u32) << 8 | (bytes[4 * index + 2] as u32)
        << 16 | (bytes[4 * index + 3] as u32) << 24
}

/// The first `count` words that `bytes` are the little-endian bytes of.
pub open spec fn words_of(bytes: Seq<u8>, count: nat) -> Seq<u32> {
    Seq::new(count, |i: int| word_at(bytes, i))
}

/// The block of 64 words that a core in state `state` generates: four ChaCha blocks of
/// keystream from block `state.position` on.
pub open spec fn chacha_block(state: ChaChaState) -> Seq<u32> {
    words_of(
        chacha12_keystream(
            state.key,
            state.position * CHACHA_BLOCK_WORDS,
            (4 * CHACHA_RESULTS_LEN) as nat,
        ),
        CHACHA_RESULTS_LEN as nat,
    )
}

/// The position four blocks after `position`; the counter of blocks has 64 bits and
/// wraps around.
pub open spec fn advanced(position: int) -> int {
    (position + 4) % 0x1_0000_0000_0000_0000
}

/// Whether `error` is the error that stands for a source of entropy that gave no seed:
/// of kind `Unavailable`, with the message `OS entropy source failed` and no cause.
pub open spec fn is_entropy_failure(error: Error) -> bool {
    &&& error.spec_kind() == ErrorKind::Unavailable
    &&& error.spec_msg() == "OS entropy source failed"@
    &&& error.spec_cause() is None
}

/// The ChaCha block generator with 12 rounds: a cryptographically secure generator of
/// blocks of 64 words.
pub struct Core {
    key: [u8; 32],
    position: u64,
}

impl Stateful for Core {
    type State = ChaChaState;

    closed spec fn state(&self) -> ChaChaState {
        ChaChaState { key: self.key@, position: self.position as int }
    }
}

impl Core {
    /// Create a new generator with the given seed. It starts at block zero.
    pub fn from_seed(seed: [u8; 32]) -> (core: Self)
        ensures
            core.state() == seeded(seed@),
    {
        Core { key: seed, position: 0 }
    }

    /// Create a new generator seeded from the operating system's source of randomness.
    ///
    /// The operating system is asked once for a seed of 32 bytes. Whether it gives one,
    /// and which, is for it to decide: of a success all that is promised is that the
    /// generator is a newly seeded one, of a failure that it is the one failure of
    /// [`Core::from_entropy_outcome`].
    pub fn from_os_entropy() -> (result: Result<Self, Error>)
        ensures
            match result {
                Ok(core) => core.state() == seeded(core.state().key) && core.state().key.len()
                    == CHACHA_SEED_LEN,
                Err(e) => is_entropy_failure(e),
            },
    {
        let mut seed = [0u8; 32];
        let outcome = os_fill_bytes(&mut seed);
        Core::from_entropy_outcome(seed, outcome)
    }

    /// What seeding from a source of entropy comes to, given the seed that the source
    /// was asked to fill and the outcome of the fill: where the fill succeeded, the
    /// generator seeded with what was filled in; where it failed, whatever the
    /// failure was, an error of kind `Unavailable` with the message
    /// `OS entropy source failed` and no cause.
    pub fn from_entropy_outcome<E>(seed: [u8; 32], outcome: Result<(), E>) -> (result: Result<
        Self,
        Error,
    >)
        ensures
            match outcome {
                Ok(()) => result matches Ok(core) && core.state() == seeded(seed@),
                Err(_) => result matches Err(e) && is_entropy_failure(e),
            },
    {
        match outcome {
            Ok(()) => Ok(Core::from_seed(seed)),
            Err(_) => Err(Error::new(ErrorKind::Unavailable, "OS entropy source failed")),
        }
    }

    /// The number of the block that is generated next.
    pub fn block_position(&self) -> (position: u64)
        ensures
            position == self.state().position,
    {
        self.position
    }
}

impl BlockRngCore for Core {
    open spec fn spec_results_len() -> nat {
        CHACHA_RESULTS_LEN as nat
    }

    open spec fn spec_generate(state: ChaChaState) -> (Seq<u32>, ChaChaState) {
        (chacha_block(state), ChaChaState { position: advanced(state.position), ..state })
    }

    proof fn lemma_block(state: ChaChaState) {
    }

    fn results_len() -> (len: usize) {
        CHACHA_RESULTS_LEN
    }

    fn generate(&mut self, results: &mut Vec<u32>) {
        let mut bytes = [0u8; 256];
        chacha12_fill(&self.key, (self.position as u128) * CHACHA_BLOCK_WORDS, &mut bytes);
        results.clear();
        let mut i: usize = 0;
        while i < CHACHA_RESULTS_LEN
            invariant
                i <= CHACHA_RESULTS_LEN,
                bytes@.len() == 256,
                results@.len() == i,
                forall|j: int| 0 <= j < i ==> results@[j] == word_at(bytes@, j),
            decreases CHACHA_RESULTS_LEN - i,
        {
            let word = (bytes[4 * i] as u32) | (bytes[4 * i + 1] as u32) << 8 | (bytes[4 * i
                + 2] as u32) << 16 | (bytes[4 * i + 3] as u32) << 24;
            results.push(word);
            i += 1;
        }
        assert(results@ =~= words_of(bytes@, CHACHA_RESULTS_LEN as nat));
        self.position = self.position.wrapping_add(4);
    }
}

impl CryptoBlockRng for Core {
}

impl SeedFromRng for Core {
    open spec fn spec_seed_len() -> nat {
        CHACHA_SEED_LEN as nat
    }

    open spec fn spec_from_seed_bytes(seed: Seq<u8>) -> ChaChaState {
        seeded(seed)
    }

    fn from_rng<R: Rng>(rng: &mut R) -> (result: Result<Self, Error>) {
        let mut seed = [0u8; 32];
        match rng.try_fill(&mut seed) {
            Ok(()) => Ok(Core::from_seed(seed)),
            Err(e) => Err(e),
        }
    }
}

impl Clone for Core {
    fn clone(&self) -> (copy: Self)
        ensures
            copy.state() == self.state(),
    {
        Core { key: self.key, position: self.position }
    }
}

} // verus!
