//! Generators that produce their output a block at a time, and the buffering that
//! turns such a block generator into a [`Rng`].

use vstd::prelude::*;
use crate::error::Error;
use crate::impls::{le_byte, le_bytes, write_le_bytes};
use crate::rng::{Rng, Stateful};

verus! {

/// A generator that produces a whole block of 32-bit words at a time.
pub trait BlockRngCore: Stateful + Sized {
    /// The number of words in a block.
    spec fn spec_results_len() -> nat;

    /// The next block, and the state after it was generated.
    spec fn spec_generate(state: Self::State) -> (Seq<u32>, Self::State);

    /// A block holds at least three words and its size in bytes is a valid allocation
    /// size; every block generated has that many words.
    proof fn lemma_block(state: Self::State)
        ensures
            2 < Self::spec_results_len(),
            4 * Self::spec_results_len() <= isize::MAX,
            Self::spec_generate(state).0.len() == Self::spec_results_len(),
    ;

    /// The number of words in a block.
    fn results_len() -> (len: usize)
        ensures
            len == Self::spec_results_len(),
    ;

    /// Generate a new block of results. Whatever `results` held, it holds the new
    /// block afterwards.
    fn generate(&mut self, results: &mut Vec<u32>)
        ensures
            final(results)@.len() == Self::spec_results_len(),
            (final(results)@, (*final(self)).state()) == Self::spec_generate((*old(self)).state()),
    ;
}

/// A marker trait for a [`BlockRngCore`] which may be considered for use in cryptography.
pub trait CryptoBlockRng: BlockRngCore {
}

/// The state of a [`BlockRng`]: the words generated and not yet handed out, and the
/// state of the block generator.
pub struct BlockRngState<S> {
    pub buffered: Seq<u32>,
    pub core: S,
}

/// The 64-bit value made of `low` and, above it, `high`.
pub open spec fn join_words(low: u32, high: u32) -> u64 {
    ((high as u64) << 32) | (low as u64)
}

/// The little-endian bytes of a sequence of words, word after word.
pub open spec fn words_le_bytes(words: Seq<u32>) -> Seq<u8> {
    Seq::new(4 * words.len(), |i: int| le_byte(words[i / 4] as u64, (i % 4) as nat))
}

/// The state with a fresh block in its buffer when the buffer was empty, else unchanged.
pub open spec fn refilled<R: BlockRngCore>(state: BlockRngState<R::State>) -> BlockRngState<
    R::State,
> {
    if state.buffered.len() == 0 {
        let (block, core) = R::spec_generate(state.core);
        BlockRngState { buffered: block, core }
    } else {
        state
    }
}

/// The next word of the stream: the first one buffered, from a fresh block if none is.
pub open spec fn block_next_u32<R: BlockRngCore>(state: BlockRngState<R::State>) -> (
    u32,
    BlockRngState<R::State>,
) {
    let full = refilled::<R>(state);
    (full.buffered[0], BlockRngState { buffered: full.buffered.skip(1), ..full })
}

/// The next two words of the stream as one value, the first word its low half. The
/// two words may come from two blocks.
pub open spec fn block_next_u64<R: BlockRngCore>(state: BlockRngState<R::State>) -> (
    u64,
    BlockRngState<R::State>,
) {
    let (low, rest) = block_next_u32::<R>(state);
    let (high, last) = block_next_u32::<R>(rest);
    (join_words(low, high), last)
}

/// The number of bytes that one pass over the buffer contributes to a fill of `len`
/// bytes: all that is buffered, or as much of it as is wanted.
pub open spec fn pass_len(buffered: Seq<u32>, len: nat) -> nat {
    if 4 * buffered.len() <= len {
        4 * buffered.len()
    } else {
        len
    }
}

/// The next `len` bytes of the stream, and the state after them: the little-endian
/// bytes of the buffered words, a fresh block whenever the buffer runs empty. A word
/// of which only some bytes are used is used up.
pub open spec fn block_fill<R: BlockRngCore>(state: BlockRngState<R::State>, len: nat) -> (
    Seq<u8>,
    BlockRngState<R::State>,
)
    decreases len,
{
    if len == 0 {
        (Seq::empty(), state)
    } else {
        let full = refilled::<R>(state);
        let taken = pass_len(full.buffered, len);
        if taken == 0 {
            (Seq::empty(), full)
        } else {
            let words = (taken + 3) / 4;
            let (rest, last) = block_fill::<R>(
                BlockRngState { buffered: full.buffered.skip(words as int), ..full },
                (len - taken) as nat,
            );
            (words_le_bytes(full.buffered).take(taken as int) + rest, last)
        }
    }
}

/// A fill gives as many bytes as were asked for.
pub proof fn lemma_block_fill_len<R: BlockRngCore>(state: BlockRngState<R::State>, len: nat)
    ensures
        block_fill::<R>(state, len).0.len() == len,
    decreases len,
{
    if len > 0 {
        R::lemma_block(state.core);
        let full = refilled::<R>(state);
        let taken = pass_len(full.buffered, len);
        let words = (taken + 3) / 4;
        lemma_block_fill_len::<R>(
            BlockRngState { buffered: full.buffered.skip(words as int), ..full },
            (len - taken) as nat,
        );
    }
}

/// A wrapper type implementing [`Rng`] for some type implementing [`BlockRngCore`].
///
/// It buffers the blocks of the core and hands them out word by word or byte by
/// byte. Values are taken from the buffer in order; no word is handed out twice.
pub struct BlockRng<R: BlockRngCore> {
    results: Vec<u32>,
    index: usize,
    core: R,
}

impl<R: BlockRngCore> Stateful for BlockRng<R> {
    type State = BlockRngState<R::State>;

    closed spec fn state(&self) -> Self::State {
        BlockRngState {
            buffered: if self.index < self.results@.len() {
                self.results@.skip(self.index as int)
            } else {
                Seq::empty()
            },
            core: self.core.state(),
        }
    }
}

impl<R: BlockRngCore> BlockRng<R> {
    /// Create a new `BlockRng` from an existing block generator, with an empty buffer.
    pub fn new(core: R) -> (rng: Self)
        ensures
            rng.state() == (BlockRngState { buffered: Seq::<u32>::empty(), core: core.state() }),
            rng.spec_core() == core,
            rng.spec_index() == R::spec_results_len(),
            rng.spec_buffer_len() == R::spec_results_len(),
    {
        let len = R::results_len();
        let mut results: Vec<u32> = Vec::new();
        while results.len() < len
            invariant
                results@.len() <= len,
                len == R::spec_results_len(),
            decreases len - results@.len(),
        {
            results.push(0);
        }
        BlockRng { results, index: len, core }
    }

    /// Get the index into the result buffer.
    ///
    /// If this is equal to or larger than the size of the result buffer then the
    /// buffer is "empty" and `generate()` must be called to produce new results.
    pub fn index(&self) -> (index: usize)
        ensures
            index == self.spec_index(),
    {
        self.index
    }

    /// The index into the result buffer.
    pub closed spec fn spec_index(&self) -> usize {
        self.index
    }

    /// The number of words the result buffer holds.
    pub closed spec fn spec_buffer_len(&self) -> nat {
        self.results@.len()
    }

    /// The words not yet handed out are those of the result buffer from the index on.
    pub proof fn lemma_buffered(&self)
        ensures
            self.state().buffered.len() == if self.spec_index() < self.spec_buffer_len() {
                self.spec_buffer_len() - self.spec_index()
            } else {
                0
            },
    {
    }

    /// Reset the number of available results. This will force a new set of results
    /// to be generated on next use.
    pub fn reset(&mut self)
        ensures
            (*final(self)).state() == (BlockRngState {
                buffered: Seq::<u32>::empty(),
                core: (*old(self)).state().core,
            }),
            final(self).spec_index() == old(self).spec_buffer_len(),
            final(self).spec_buffer_len() == old(self).spec_buffer_len(),
    {
        self.index = self.results.len();
    }

    /// Generate a new set of results immediately, setting the index to the given value.
    pub fn generate_and_set(&mut self, index: usize)
        requires
            index < R::spec_results_len(),
        ensures
            (*final(self)).state() == (BlockRngState {
                buffered: R::spec_generate((*old(self)).state().core).0.skip(index as int),
                core: R::spec_generate((*old(self)).state().core).1,
            }),
            final(self).spec_index() == index,
            final(self).spec_buffer_len() == R::spec_results_len(),
    {
        proof {
            R::lemma_block(self.core.state());
        }
        self.core.generate(&mut self.results);
        self.index = index;
    }

    /// The block generator inside.
    pub closed spec fn spec_core(&self) -> R {
        self.core
    }

    /// The state holds the state of the block generator inside.
    pub proof fn lemma_core_state(&self)
        ensures
            self.state().core == self.spec_core().state(),
    {
    }

    /// The block generator inside.
    pub fn core_ref(&self) -> (core: &R)
        ensures
            *core == self.spec_core(),
            core.state() == self.state().core,
    {
        &self.core
    }

    /// The block generator inside, to be changed in place; what is buffered stays.
    pub fn core_mut(&mut self) -> (core: &mut R)
        ensures
            core.state() == (*old(self)).state().core,
            (*final(self)).state() == (BlockRngState {
                core: (*final(core)).state(),
                ..(*old(self)).state()
            }),
    {
        &mut self.core
    }
}

impl<R: BlockRngCore> Rng for BlockRng<R> {
    open spec fn spec_next_u32(state: Self::State) -> (u32, Self::State) {
        block_next_u32::<R>(state)
    }

    open spec fn spec_next_u64(state: Self::State) -> (u64, Self::State) {
        block_next_u64::<R>(state)
    }

    open spec fn spec_fill_bytes(state: Self::State, len: nat) -> (Seq<u8>, Self::State) {
        block_fill::<R>(state, len)
    }

    open spec fn spec_try_fill(state: Self::State, len: nat) -> (
        Result<Seq<u8>, Error>,
        Self::State,
    ) {
        (Ok(block_fill::<R>(state, len).0), block_fill::<R>(state, len).1)
    }

    fn next_u32(&mut self) -> (value: u32) {
        proof {
            R::lemma_block(self.core.state());
        }
        if self.index >= self.results.len() {
            let ghost block = R::spec_generate(self.core.state()).0;
            self.generate_and_set(0);
            assert(self.state().buffered == block.skip(0));
            assert(block.skip(0) =~= block);
        }
        let ghost full = self.state();
        assert(full.buffered == refilled::<R>((*old(self)).state()).buffered);
        assert(full.core == refilled::<R>((*old(self)).state()).core);
        let len = self.results.len();
        assert(self.index < len);
        let value = self.results[self.index];
        self.index += 1;
        assert(self.state().buffered =~= full.buffered.skip(1));
        value
    }

    fn next_u64(&mut self) -> (value: u64) {
        let low = self.next_u32();
        let high = self.next_u32();
        ((high as u64) << 32) | (low as u64)
    }

    fn fill_bytes(&mut self, dest: &mut [u8]) {
        let len = dest.len();
        let mut read_len: usize = 0;
        proof {
            lemma_block_fill_len::<R>(self.state(), len as nat);
        }
        while read_len < len
            invariant
                read_len <= len,
                len == dest@.len(),
                len == old(dest)@.len(),
                block_fill::<R>((*old(self)).state(), len as nat) == (
                    dest@.take(read_len as int) + block_fill::<R>(
                        self.state(),
                        (len - read_len) as nat,
                    ).0,
                    block_fill::<R>(self.state(), (len - read_len) as nat).1,
                ),
            decreases len - read_len,
        {
            proof {
                R::lemma_block(self.core.state());
            }
            let ghost entry = self.state();
            if self.index >= self.results.len() {
                let ghost block = R::spec_generate(self.core.state()).0;
                self.generate_and_set(0);
                assert(self.state().buffered == block.skip(0));
                assert(block.skip(0) =~= block);
            }
            let ghost full = self.state();
            assert(full.buffered == refilled::<R>(entry).buffered);
            assert(full.core == refilled::<R>(entry).core);
            assert(full == refilled::<R>(entry));
            assert(self.index < self.results@.len());
            let ghost wanted = (len - read_len) as nat;
            let ghost taken = pass_len(full.buffered, wanted);
            let ghost start = dest@;
            let ghost first = read_len;
            let ghost first_index = self.index;
            let words = self.results.len();
            while self.index < words && read_len < len
                invariant
                    first <= read_len <= len,
                    len == dest@.len(),
                    words == self.results@.len(),
                    first_index <= self.index <= words,
                    first_index < words,
                    self.core.state() == full.core,
                    full.buffered == self.results@.skip(first_index as int),
                    read_len - first == pass_len(
                        full.buffered.take(self.index - first_index),
                        wanted,
                    ),
                    read_len < len ==> read_len - first == 4 * (self.index - first_index),
                    self.index - first_index == (read_len - first + 3) / 4,
                    wanted == len - first,
                    dest@.take(first as int) == start.take(first as int),
                    dest@.subrange(first as int, read_len as int) == words_le_bytes(
                        full.buffered,
                    ).take(read_len - first),
                decreases words - self.index,
            {
                let word = self.results[self.index];
                let count = if len - read_len < 4 {
                    len - read_len
                } else {
                    4
                };
                let ghost before = dest@;
                write_le_bytes(dest, read_len, word as u64, count);
                proof {
                    let k = (self.index - first_index) as int;
                    assert(full.buffered[k] == word);
                    assert forall|i: int| 0 <= i < count implies #[trigger] le_bytes(
                        word as u64,
                        count as nat,
                    )[i] == words_le_bytes(full.buffered)[read_len - first + i] by {
                        assert((read_len - first + i) / 4 == k);
                        assert((read_len - first + i) % 4 == i);
                    }
                    assert(dest@.subrange(first as int, read_len + count) =~= words_le_bytes(
                        full.buffered,
                    ).take(read_len - first + count));
                    assert(dest@.take(first as int) =~= start.take(first as int));
                }
                self.index += 1;
                read_len += count;
            }
            proof {
                assert(read_len - first == taken);
                let used = (taken + 3) / 4;
                assert(self.state().buffered =~= full.buffered.skip(used as int));
                let rest = block_fill::<R>(self.state(), (len - read_len) as nat);
                assert(block_fill::<R>(full, wanted) == (
                    words_le_bytes(full.buffered).take(taken as int) + rest.0,
                    rest.1,
                ));
                assert(dest@.take(read_len as int) =~= start.take(first as int) + words_le_bytes(
                    full.buffered,
                ).take(taken as int));
                assert(start.take(first as int) + (words_le_bytes(full.buffered).take(taken as int)
                    + rest.0) =~= (start.take(first as int) + words_le_bytes(full.buffered).take(
                    taken as int,
                )) + rest.0);
            }
        }
        assert(dest@ =~= dest@.take(read_len as int) + Seq::<u8>::empty());
    }

    fn try_fill(&mut self, dest: &mut [u8]) -> (result: Result<(), Error>) {
        self.fill_bytes(dest);
        Ok(())
    }
}

} // verus!
