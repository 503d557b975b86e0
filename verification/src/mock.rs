//! Mock random number generator.

use vstd::prelude::*;
use crate::error::Error;
use crate::impls::{fill_via_next, le_bytes, lemma_fill_via_next_len, write_le_bytes};
use crate::rng::{Rng, Stateful};

verus! {

/// The state of a [`StepRng`]: the value it yields next and the step it takes.
pub struct StepState {
    pub value: u64,
    pub increment: u64,
}

/// A simple implementation of [`Rng`] for testing purposes.
///
/// This generates an arithmetic sequence (i.e. adds a constant each step) over a `u64`
/// number, using wrapping arithmetic. If the increment is 0 the generator yields a
/// constant.
#[derive(Debug)]
pub struct StepRng {
    v: u64,
    a: u64,
}

/// The value `increment` further on, wrapping around at the end of the 64-bit range.
pub open spec fn wrapping_step(value: u64, increment: u64) -> u64 {
    if value + increment > u64::MAX {
        (value + increment - 0x1_0000_0000_0000_0000) as u64
    } else {
        (value + increment) as u64
    }
}

/// One 64-bit step of the sequence: the value yielded and the state after it.
pub open spec fn step_u64(state: StepState) -> (u64, StepState) {
    (state.value, StepState { value: wrapping_step(state.value, state.increment), ..state })
}

/// One step of the sequence of which only the low 32 bits are kept.
pub open spec fn step_u32(state: StepState) -> (u32, StepState) {
    ((state.value & 0xffff_ffff) as u32, step_u64(state).1)
}

/// The bytes that a fill of `len` bytes takes from the sequence, and the state after it.
pub open spec fn step_fill(state: StepState, len: nat) -> (Seq<u8>, StepState) {
    fill_via_next(|s: StepState| step_u64(s), |s: StepState| step_u32(s), state, len)
}

impl Stateful for StepRng {
    type State = StepState;

    closed spec fn state(&self) -> StepState {
        StepState { value: self.v, increment: self.a }
    }
}

impl StepRng {
    /// Create a `StepRng`, yielding an arithmetic sequence starting with `initial` and
    /// incremented by `increment` each time.
    pub fn new(initial: u64, increment: u64) -> (rng: Self)
        ensures
            rng.state() == (StepState { value: initial, increment }),
    {
        StepRng { v: initial, a: increment }
    }

    /// The number of bytes that one step of the sequence yields.
    pub fn bytes_per_round(&self) -> (bytes: usize)
        ensures
            bytes == 8,
    {
        8
    }
}

impl Rng for StepRng {
    open spec fn spec_next_u32(state: StepState) -> (u32, StepState) {
        step_u32(state)
    }

    open spec fn spec_next_u64(state: StepState) -> (u64, StepState) {
        step_u64(state)
    }

    open spec fn spec_fill_bytes(state: StepState, len: nat) -> (Seq<u8>, StepState) {
        step_fill(state, len)
    }

    open spec fn spec_try_fill(state: StepState, len: nat) -> (Result<Seq<u8>, Error>, StepState) {
        (Ok(step_fill(state, len).0), step_fill(state, len).1)
    }

    fn next_u32(&mut self) -> (value: u32) {
        let wide = self.next_u64();
        assert(wide & 0xffff_ffff <= 0xffff_ffff) by (bit_vector);
        (wide & 0xffff_ffff) as u32
    }

    fn next_u64(&mut self) -> (value: u64) {
        let result = self.v;
        self.v = self.v.wrapping_add(self.a);
        result
    }

    fn fill_bytes(&mut self, dest: &mut [u8]) {
        let ghost next_u64 = |s: StepState| step_u64(s);
        let ghost next_u32 = |s: StepState| step_u32(s);
        let len = dest.len();
        let mut filled: usize = 0;
        while len - filled >= 8
            invariant
                filled <= len,
                len == dest@.len(),
                len == old(dest)@.len(),
                next_u64 == (|s: StepState| step_u64(s)),
                next_u32 == (|s: StepState| step_u32(s)),
                step_fill((*old(self)).state(), len as nat) == (
                    dest@.take(filled as int) + step_fill(self.state(), (len - filled) as nat).0,
                    step_fill(self.state(), (len - filled) as nat).1,
                ),
            decreases len - filled,
        {
            let ghost before = dest@;
            let ghost state = self.state();
            let value = self.next_u64();
            write_le_bytes(dest, filled, value, 8);
            proof {
                let rest = step_fill(self.state(), (len - filled - 8) as nat);
                assert(step_fill(state, (len - filled) as nat) == (le_bytes(value, 8) + rest.0, rest.1));
                assert(dest@.take(filled + 8) =~= before.take(filled as int) + le_bytes(value, 8));
                assert(before.take(filled as int) + (le_bytes(value, 8) + rest.0) =~= (before.take(
                    filled as int,
                ) + le_bytes(value, 8)) + rest.0);
            }
            filled += 8;
        }
        let rest = len - filled;
        let ghost before = dest@;
        if rest > 4 {
            let value = self.next_u64();
            write_le_bytes(dest, filled, value, rest);
        } else if rest > 0 {
            let value = self.next_u32();
            write_le_bytes(dest, filled, value as u64, rest);
        }
        proof {
            lemma_fill_via_next_len(next_u64, next_u32, (*old(self)).state(), len as nat);
            assert(dest@ =~= step_fill((*old(self)).state(), len as nat).0);
        }
    }

    fn try_fill(&mut self, dest: &mut [u8]) -> (result: Result<(), Error>) {
        self.fill_bytes(dest);
        Ok(())
    }
}

impl Clone for StepRng {
    fn clone(&self) -> (copy: Self)
        ensures
            copy.state() == self.state(),
    {
        StepRng { v: self.v, a: self.a }
    }
}

} // verus!
