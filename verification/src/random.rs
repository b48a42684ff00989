//! The state of the scripts' pseudo-random generator: xorshift64, seeded
//! once from the time and the thread.
//!
//! A state of 0 means "not seeded yet": the first draw seeds the generator
//! and every state after that is non-zero, which xorshift64 keeps.

use vstd::prelude::*;

verus! {

/// The seed used when the time and thread mix to 0.
pub const RNG_FALLBACK_SEED: u64 = 0x0123_4567_89AB_CDEF;

/// The FNV-1a offset basis.
pub const FNV_OFFSET_BASIS: u64 = 0xcbf2_9ce4_8422_2325;

/// The FNV-1a prime.
pub const FNV_PRIME: u64 = 0x0000_0100_0000_01b3;

/// The multiplier that spreads the time over all 64 bits.
pub const SEED_MIX: u64 = 0x9E37_79B9_7F4A_7C15;

/// One step of xorshift64 (shifts 13, 7, 17).
pub open spec fn xorshift64_step(s: u64) -> u64 {
    let a = s ^ (s << 13u64);
    let b = a ^ (a >> 7u64);
    b ^ (b << 17u64)
}

/// One step of xorshift64.
pub fn xorshift64(state: u64) -> (r: u64)
    ensures
        r == xorshift64_step(state),
{
    let mut s = state;
    s = s ^ (s << 13u64);
    s = s ^ (s >> 7u64);
    s = s ^ (s << 17u64);
    s
}

/// The next state of the generator: a state of 0 is first replaced by
/// `fresh_seed`, then xorshift64 takes one step.
pub fn next_random_state(state: u64, fresh_seed: u64) -> (r: u64)
    ensures
        r == xorshift64_step(if state == 0 { fresh_seed } else { state }),
{
    let s = if state == 0 {
        fresh_seed
    } else {
        state
    };
    xorshift64(s)
}

/// The 53 high bits of a state, from which a number in `[0, 1)` is made.
pub fn unit_bits(state: u64) -> (r: u64)
    ensures
        r == state >> 11u64,
        r < 0x20_0000_0000_0000,
{
    let r = state >> 11u64;
    assert(state >> 11u64 < 0x20_0000_0000_0000u64) by (bit_vector);
    r
}

/// The FNV-1a hash of `bytes`.
pub open spec fn fnv1a(bytes: Seq<u8>) -> u64
    decreases bytes.len(),
{
    if bytes.len() == 0 {
        FNV_OFFSET_BASIS
    } else {
        vstd::wrapping::u64_specs::wrapping_mul(fnv1a(bytes.drop_last()) ^ (bytes.last() as u64), FNV_PRIME)
    }
}

/// The FNV-1a hash of `bytes`.
pub fn fnv1a_hash(bytes: &[u8]) -> (r: u64)
    ensures
        r == fnv1a(bytes@),
{
    let mut hash: u64 = FNV_OFFSET_BASIS;
    let mut i: usize = 0;
    while i < bytes.len()
        invariant
            i <= bytes@.len(),
            hash == fnv1a(bytes@.take(i as int)),
        decreases bytes@.len() - i,
    {
        assert(bytes@.take(i + 1).drop_last() =~= bytes@.take(i as int));
        hash = hash ^ (bytes[i] as u64);
        hash = hash.wrapping_mul(FNV_PRIME);
        i = i + 1;
    }
    assert(bytes@.take(i as int) =~= bytes@);
    hash
}

/// The seed made of a time in nanoseconds and a hash of the thread: the
/// time spread by [`SEED_MIX`] plus the hash, or [`RNG_FALLBACK_SEED`]
/// where that comes to 0.
pub open spec fn mixed_seed(time_nanos: u64, thread_hash: u64) -> u64 {
    let m = vstd::wrapping::u64_specs::wrapping_add(
        vstd::wrapping::u64_specs::wrapping_mul(time_nanos, SEED_MIX),
        thread_hash,
    );
    if m == 0 {
        RNG_FALLBACK_SEED
    } else {
        m
    }
}

/// Mixes a time in nanoseconds and a hash of the thread into a seed.
pub fn mix_seed(time_nanos: u64, thread_hash: u64) -> (r: u64)
    ensures
        r == mixed_seed(time_nanos, thread_hash),
{
    let mixed = time_nanos.wrapping_mul(SEED_MIX).wrapping_add(thread_hash);
    if mixed == 0 {
        RNG_FALLBACK_SEED
    } else {
        mixed
    }
}

/// xorshift64 maps no non-zero state to 0, so a seeded generator stays
/// seeded.
pub proof fn lemma_xorshift64_nonzero(s: u64)
    requires
        s != 0,
    ensures
        xorshift64_step(s) != 0,
{
    let a = s ^ (s << 13u64);
    let b = a ^ (a >> 7u64);
    let c = b ^ (b << 17u64);
    assert(s != 0 ==> s ^ (s << 13u64) != 0) by (bit_vector);
    assert(a != 0 ==> a ^ (a >> 7u64) != 0) by (bit_vector);
    assert(b != 0 ==> b ^ (b << 17u64) != 0) by (bit_vector);
}

/// A seed is never 0.
pub proof fn lemma_mixed_seed_nonzero(time_nanos: u64, thread_hash: u64)
    ensures
        mixed_seed(time_nanos, thread_hash) != 0,
{
}

/// Every state the generator moves to from a non-zero fresh seed is
/// non-zero: once seeded, it is never seeded again.
pub proof fn lemma_next_state_nonzero(state: u64, fresh_seed: u64)
    requires
        fresh_seed != 0,
    ensures
        xorshift64_step(if state == 0 { fresh_seed } else { state }) != 0,
{
    lemma_xorshift64_nonzero(if state == 0 { fresh_seed } else { state });
}

} // verus!
