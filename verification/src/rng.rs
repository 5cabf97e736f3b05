use vstd::prelude::*;

verus! {

/// One step of Marsaglia's 32-bit xorshift generator with shifts (13, 17, 5).
pub open spec fn xorshift32_step(x: u32) -> u32 {
    let a = x ^ (x << 13u32);
    let b = a ^ (a >> 17u32);
    b ^ (b << 5u32)
}

/// Advances `state` by one xorshift step and returns the new state.
pub fn xorshift32(state: &mut u32) -> (r: u32)
    ensures
        r == xorshift32_step(*old(state)),
        *final(state) == r,
{
    let mut x = *state;
    x ^= x << 13u32;
    x ^= x >> 17u32;
    x ^= x << 5u32;
    *state = x;
    x
}

/// A non-zero state never steps to zero, so the generator never gets stuck.
pub proof fn lemma_xorshift32_nonzero(x: u32)
    requires
        x != 0,
    ensures
        xorshift32_step(x) != 0,
{
    let a = x ^ (x << 13u32);
    let b = a ^ (a >> 17u32);
    assert(x != 0 ==> x ^ (x << 13u32) != 0) by (bit_vector);
    assert(a != 0 ==> a ^ (a >> 17u32) != 0) by (bit_vector);
    assert(b != 0 ==> b ^ (b << 5u32) != 0) by (bit_vector);
}

} // verus!
