//! The integer hashes behind the deterministic noise and per-item jitter: each is a fixed mix of
//! wrapping multiplies, adds and xor-shifts, so equal inputs give equal bits on every run.

use vstd::prelude::*;

verus! {

/// The audio noise mix: the index (its low 32 bits) plus one, times the golden-ratio constant,
/// folded with two multiply/xor-shift rounds.
pub open spec fn noise_bits_spec(i: usize) -> u32 {
    let a = (i as u32).wrapping_add(1).wrapping_mul(0x9E37_79B9);
    let b = a ^ (a >> 15u32);
    let c = b.wrapping_mul(0x85EB_CA6B);
    c ^ (c >> 13u32)
}

/// The bits behind the synth's broadband noise sample `i` (scaled to [-1, 1] by the caller).
pub fn noise_bits(i: usize) -> (r: u32)
    ensures
        r == noise_bits_spec(i),
{
    let mut n = (i as u32).wrapping_add(1).wrapping_mul(0x9E37_79B9);
    n ^= n >> 15;
    n = n.wrapping_mul(0x85EB_CA6B);
    n ^= n >> 13;
    n
}

/// The particle-seed mix: a PCG-style multiply-add, two xor-shift rounds, keeping 24 bits.
pub open spec fn particle_bits_spec(n: u32) -> u32 {
    let a = n.wrapping_mul(747_796_405).wrapping_add(2_891_336_453);
    let b = a ^ (a >> 17u32);
    let c = b.wrapping_mul(0xed5a_d4bb);
    (c ^ (c >> 11u32)) & 0xff_ffff
}

/// The 24 bits behind particle seed `n` (scaled to [0, 1] by the caller).
pub fn particle_bits(n: u32) -> (r: u32)
    ensures
        r == particle_bits_spec(n),
        r <= 0xff_ffff,
{
    let mut x = n.wrapping_mul(747_796_405).wrapping_add(2_891_336_453);
    x ^= x >> 17;
    x = x.wrapping_mul(0xed5a_d4bb);
    x ^= x >> 11;
    let r = x & 0xff_ffff;
    assert(x & 0xff_ffff <= 0xff_ffff) by (bit_vector);
    r
}

/// The salted per-item mix: bits 8..24 of `k * salt` (wrapping).
pub open spec fn salted_bits_spec(k: u32, salt: u32) -> u32 {
    (k.wrapping_mul(salt) >> 8u32) & 0xffff
}

/// The 16 bits behind item `k` under `salt` (scaled to [0, 1] by the caller).
pub fn salted_bits(k: u32, salt: u32) -> (r: u32)
    ensures
        r == salted_bits_spec(k, salt),
        r <= 0xffff,
{
    let x = k.wrapping_mul(salt) >> 8;
    let r = x & 0xffff;
    assert(x & 0xffff <= 0xffff) by (bit_vector);
    r
}

} // verus!
