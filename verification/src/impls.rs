//! Helpers for implementing byte fills in terms of whole-word draws.

use vstd::prelude::*;

verus! {

/// Byte `k` of `value`, counted from the least significant one.
pub open spec fn le_byte(value: u64, k: nat) -> u8 {
    ((value >> ((8 * k) as u64)) & 0xff) as u8
}

/// The first `count` bytes of `value` in little-endian order.
pub open spec fn le_bytes(value: u64, count: nat) -> Seq<u8> {
    Seq::new(count, |k: int| le_byte(value, k as nat))
}

/// The bytes that filling `len` bytes from 64-bit and 32-bit draws gives, and the state
/// of the generator afterwards: one 64-bit draw for each eight bytes, in little-endian
/// order; for a rest of more than four bytes the low end of one more 64-bit draw; for a
/// rest of at most four the low end of one 32-bit draw.
pub open spec fn fill_via_next<S>(
    next_u64: spec_fn(S) -> (u64, S),
    next_u32: spec_fn(S) -> (u32, S),
    state: S,
    len: nat,
) -> (Seq<u8>, S)
    decreases len,
{
    if len >= 8 {
        let (value, next) = next_u64(state);
        let (rest, last) = fill_via_next(next_u64, next_u32, next, (len - 8) as nat);
        (le_bytes(value, 8) + rest, last)
    } else if len > 4 {
        let (value, next) = next_u64(state);
        (le_bytes(value, len), next)
    } else if len > 0 {
        let (value, next) = next_u32(state);
        (le_bytes(value as u64, len), next)
    } else {
        (Seq::empty(), state)
    }
}

/// Filling from draws gives as many bytes as were asked for.
pub proof fn lemma_fill_via_next_len<S>(
    next_u64: spec_fn(S) -> (u64, S),
    next_u32: spec_fn(S) -> (u32, S),
    state: S,
    len: nat,
)
    ensures
        fill_via_next(next_u64, next_u32, state, len).0.len() == len,
    decreases len,
{
    if len >= 8 {
        lemma_fill_via_next_len(next_u64, next_u32, next_u64(state).1, (len - 8) as nat);
    }
}

/// Writes the first `count` little-endian bytes of `value` into `dest` from `at` on.
pub fn write_le_bytes(dest: &mut [u8], at: usize, value: u64, count: usize)
    requires
        count <= 8,
        at + count <= old(dest)@.len(),
    ensures
        final(dest)@ == old(dest)@.take(at as int) + le_bytes(value, count as nat) + old(dest)@.skip(
            at + count,
        ),
{
    let len = dest.len();
    let mut k: usize = 0;
    while k < count
        invariant
            k <= count <= 8,
            at + count <= len,
            len == dest@.len(),
            dest@.len() == old(dest)@.len(),
            dest@ == old(dest)@.take(at as int) + le_bytes(value, k as nat) + old(dest)@.skip(
                at + k,
            ),
        decreases count - k,
    {
        let shift: u64 = 8 * (k as u64);
        assert((value >> shift) & 0xff < 256) by (bit_vector);
        let byte = ((value >> shift) & 0xff) as u8;
        let ghost before = dest@;
        dest[at + k] = byte;
        k += 1;
        assert(dest@ =~= old(dest)@.take(at as int) + le_bytes(value, k as nat) + old(dest)@.skip(
            at + k,
        ));
    }
    assert(dest@ =~= old(dest)@.take(at as int) + le_bytes(value, count as nat) + old(dest)@.skip(
        at + count,
    ));
}

} // verus!
