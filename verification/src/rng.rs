//! The xorshift32 generator every demo uses for its cheap randomness.

use vstd::prelude::*;

verus! {

/// One xorshift32 step (shifts 13, 17, 5).
pub open spec fn xorshift(x: u32) -> u32 {
    let a = x ^ (x << 13u32);
    let b = a ^ (a >> 17u32);
    b ^ (b << 5u32)
}

/// Advance the generator state and return the new state as the draw.
pub fn next_rand(state: &mut u32) -> (r: u32)
    ensures
        r == xorshift(*old(state)),
        *final(state) == r,
{
    let mut x = *state;
    x ^= x << 13u32;
    x ^= x >> 17u32;
    x ^= x << 5u32;
    *state = x;
    x
}

/// A seeded generator never falls into the all-zero state, where xorshift
/// would be stuck for ever; this is why every demo seeds with `| 1`.
pub proof fn lemma_xorshift_nonzero(x: u32)
    requires
        x != 0,
    ensures
        xorshift(x) != 0,
{
    assert(x != 0 ==> (((x ^ (x << 13u32)) ^ ((x ^ (x << 13u32)) >> 17u32)) ^ (((x ^ (x
        << 13u32)) ^ ((x ^ (x << 13u32)) >> 17u32)) << 5u32)) != 0) by (bit_vector);
}

/// Forcing the low bit makes any raw seed a valid (nonzero) state.
pub proof fn lemma_seed_nonzero(raw: u32)
    ensures
        raw | 1 != 0,
{
    assert(raw | 1 != 0) by (bit_vector);
}

} // verus!
