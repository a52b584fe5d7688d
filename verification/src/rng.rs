//! Deterministic randomness: a xorshift64 generator and the integer hash
//! behind the value noise of world generation.

use vstd::prelude::*;

verus! {

/// One xorshift64 step (shifts 13, 7, 17).
pub open spec fn xorshift(x: u64) -> u64 {
    let a = x ^ (x << 13u64);
    let b = a ^ (a >> 7u64);
    b ^ (b << 17u64)
}

/// The state a generator seeded with `seed` starts in: the seed times the
/// golden-ratio constant, forced odd.
pub open spec fn seeded_state(seed: u64) -> u64 {
    vstd::wrapping::u64_specs::wrapping_mul(seed, 0x9E3779B97F4A7C15u64) | 1u64
}

/// A xorshift64 generator; the state is public so that it can be saved.
pub struct Rng(pub u64);

impl Rng {
    pub fn new(seed: u64) -> (r: Rng)
        ensures
            r.0 == seeded_state(seed),
            r.0 != 0,
    {
        let m = seed.wrapping_mul(0x9E3779B97F4A7C15u64);
        let s = m | 1;
        assert(s != 0) by (bit_vector)
            requires
                s == m | 1u64,
        ;
        Rng(s)
    }

    /// Advances the generator and returns its new state.
    pub fn next(&mut self) -> (x: u64)
        ensures
            final(self).0 == xorshift(old(self).0),
            x == final(self).0,
    {
        let mut x = self.0;
        x = x ^ (x << 13u64);
        x = x ^ (x >> 7u64);
        x = x ^ (x << 17u64);
        self.0 = x;
        x
    }

    /// A number in `0..n` (0 when `n` is not positive, without advancing).
    pub fn below(&mut self, n: i32) -> (r: i32)
        ensures
            n <= 0 ==> r == 0 && final(self).0 == old(self).0,
            n > 0 ==> final(self).0 == xorshift(old(self).0) && r as int == (xorshift(old(self).0) as int) % (
            n as int) && 0 <= r < n,
    {
        if n <= 0 {
            0
        } else {
            let x = self.next();
            let m = x % (n as u64);
            m as i32
        }
    }
}

/// A xorshift step never turns a nonzero state into zero, so a generator
/// started from a nonzero state never gets stuck.
pub proof fn lemma_xorshift_nonzero(x: u64)
    requires
        x != 0,
    ensures
        xorshift(x) != 0,
{
    let a = x ^ (x << 13u64);
    let b = a ^ (a >> 7u64);
    assert(a != 0) by (bit_vector)
        requires
            x != 0,
            a == x ^ (x << 13u64),
    ;
    assert(b != 0) by (bit_vector)
        requires
            a != 0,
            b == a ^ (a >> 7u64),
    ;
    assert(b ^ (b << 17u64) != 0) by (bit_vector)
        requires
            b != 0,
    ;
}

/// The 24-bit integer hash of a lattice point behind `hash2`.
pub open spec fn hash_bits(x: i32, y: i32, seed: u64) -> u64 {
    let h0 = seed ^ vstd::wrapping::u64_specs::wrapping_mul((x as i64) as u64, 0x8DA6_B343_9D31_07A1u64)
        ^ vstd::wrapping::u64_specs::wrapping_mul((y as i64) as u64, 0xD816_3841_F0E5_2BB7u64);
    let h1 = vstd::wrapping::u64_specs::wrapping_mul(h0, 0x2545_F491_4F6C_DD1Du64);
    let h2 = h1 ^ (h1 >> 29u64);
    let h3 = vstd::wrapping::u64_specs::wrapping_mul(h2, 0x9E37_79B9_7F4A_7C15u64);
    let h4 = h3 ^ (h3 >> 32u64);
    h4 >> 40u64
}

/// The integer part of the lattice hash: a value below 2^24 that the noise
/// functions scale into -1..1.
pub fn hash2_bits(x: i32, y: i32, seed: u64) -> (h: u64)
    ensures
        h == hash_bits(x, y, seed),
        h < 0x100_0000,
{
    let xs = x as i64 as u64;
    let ys = y as i64 as u64;
    let mut h = seed ^ xs.wrapping_mul(0x8DA6_B343_9D31_07A1u64) ^ ys.wrapping_mul(0xD816_3841_F0E5_2BB7u64);
    h = h.wrapping_mul(0x2545_F491_4F6C_DD1Du64);
    h = h ^ (h >> 29u64);
    h = h.wrapping_mul(0x9E37_79B9_7F4A_7C15u64);
    h = h ^ (h >> 32u64);
    let r = h >> 40u64;
    assert(r < 0x100_0000) by (bit_vector)
        requires
            r == h >> 40u64,
    ;
    r
}

} // verus!
