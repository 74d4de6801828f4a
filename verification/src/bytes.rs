//! Little-endian byte framing shared by the WAV encoder and the asset archive.

use vstd::prelude::*;

verus! {

/// The two little-endian bytes of `v` (taken modulo 2^16).
pub open spec fn le16(v: nat) -> Seq<u8> {
    seq![(v % 256) as u8, ((v / 256) % 256) as u8]
}

/// The four little-endian bytes of `v` (taken modulo 2^32).
pub open spec fn le32(v: nat) -> Seq<u8> {
    seq![
        (v % 256) as u8,
        ((v / 256) % 256) as u8,
        ((v / 65536) % 256) as u8,
        ((v / 16777216) % 256) as u8,
    ]
}

/// The little-endian `u32` stored at `b[p..p + 4]`.
pub open spec fn u32_at(b: Seq<u8>, p: int) -> nat {
    (b[p] + 256 * b[p + 1] + 65536 * b[p + 2] + 16777216 * b[p + 3]) as nat
}

/// Reading back the four bytes of a value below 2^32 gives the value.
pub proof fn lemma_le32_read(v: nat)
    requires
        v < 0x1_0000_0000,
    ensures
        u32_at(le32(v), 0) == v,
{
    let b = le32(v);
    let q1 = v / 256;
    let q2 = q1 / 256;
    let q3 = q2 / 256;
    assert(v == 256 * q1 + v % 256);
    assert(q1 == 256 * q2 + q1 % 256);
    assert(q2 == 256 * q3 + q2 % 256);
    assert(q3 < 256);
    assert(v / 65536 == q2) by {
        vstd::arithmetic::div_mod::lemma_div_denominator(v as int, 256, 256);
    }
    assert(v / 16777216 == q3) by {
        vstd::arithmetic::div_mod::lemma_div_denominator(v as int, 65536, 256);
    }
    assert(b[0] == v % 256);
    assert(b[1] == q1 % 256);
    assert(b[2] == q2 % 256);
    assert(b[3] == q3);
}

/// Appends `v` as two little-endian bytes.
pub fn push_le16(out: &mut Vec<u8>, v: u16)
    ensures
        final(out)@ == old(out)@ + le16(v as nat),
{
    let lo = (v & 0xff) as u8;
    let hi = (v >> 8) as u8;
    assert(v & 0xff == v % 256 && v >> 8 == v / 256) by (bit_vector);
    out.push(lo);
    out.push(hi);
    assert(final(out)@ =~= old(out)@ + le16(v as nat));
}

/// Appends `v` as four little-endian bytes.
pub fn push_le32(out: &mut Vec<u8>, v: u32)
    ensures
        final(out)@ == old(out)@ + le32(v as nat),
{
    assert(v & 0xff == v % 256 && (v >> 8) & 0xff == (v / 256) % 256 && (v >> 16) & 0xff == (v
        / 65536) % 256 && v >> 24 == v / 16777216) by (bit_vector);
    out.push((v & 0xff) as u8);
    out.push(((v >> 8) & 0xff) as u8);
    out.push(((v >> 16) & 0xff) as u8);
    out.push((v >> 24) as u8);
    assert(final(out)@ =~= old(out)@ + le32(v as nat));
}

/// Appends every byte of `s`.
pub fn push_bytes(out: &mut Vec<u8>, s: &[u8])
    ensures
        final(out)@ == old(out)@ + s@,
{
    let mut i: usize = 0;
    while i < s.len()
        invariant
            i <= s.len(),
            out@ == old(out)@ + s@.take(i as int),
        decreases s.len() - i,
    {
        out.push(s[i]);
        i += 1;
        assert(out@ =~= old(out)@ + s@.take(i as int));
    }
    assert(s@.take(s.len() as int) =~= s@);
}

/// The little-endian `u32` at `b[p..p + 4]`.
pub fn read_u32_le(b: &[u8], p: usize) -> (r: u32)
    requires
        p + 4 <= b@.len(),
    ensures
        r == u32_at(b@, p as int),
{
    let b0 = b[p] as u32;
    let b1 = b[p + 1] as u32;
    let b2 = b[p + 2] as u32;
    let b3 = b[p + 3] as u32;
    b0 + 256 * b1 + 65536 * b2 + 16777216 * b3
}

} // verus!
