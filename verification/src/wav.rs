//! The 16-bit PCM stereo WAV container: a hand-rolled 44-byte RIFF header followed by the
//! interleaved samples, every field little-endian.

use vstd::prelude::*;
use crate::bytes::{le16, le32, push_le16, push_le32};

verus! {

/// The rate every track is rendered at.
pub const SAMPLE_RATE: u32 = 44_100;

/// Four ASCII bytes of a chunk tag.
pub open spec fn tag(a: u8, b: u8, c: u8, d: u8) -> Seq<u8> {
    seq![a, b, c, d]
}

/// The RIFF header for `n` interleaved 16-bit samples: `RIFF`, the file size less 8, `WAVE`, the
/// `fmt ` chunk (size 16, PCM, stereo, the sample rate, the byte rate, block align 4, 16 bits) and
/// the `data` tag with the payload size (its low 32 bits).
pub open spec fn wav_header(n: nat) -> Seq<u8> {
    let data = ((2 * n) as u32) as nat;
    tag(0x52, 0x49, 0x46, 0x46) + le32(36 + data) + tag(0x57, 0x41, 0x56, 0x45) + tag(
        0x66,
        0x6d,
        0x74,
        0x20,
    ) + le32(16) + le16(1) + le16(2) + le32(SAMPLE_RATE as nat) + le32(4 * SAMPLE_RATE as nat)
        + le16(4) + le16(16) + tag(0x64, 0x61, 0x74, 0x61) + le32(data)
}

/// Each sample as its two's-complement little-endian bytes.
pub open spec fn pcm_bytes(samples: Seq<i16>) -> Seq<u8>
    decreases samples.len(),
{
    if samples.len() == 0 {
        Seq::empty()
    } else {
        pcm_bytes(samples.drop_last()) + le16((samples.last() as u16) as nat)
    }
}

fn push_tag(out: &mut Vec<u8>, a: u8, b: u8, c: u8, d: u8)
    ensures
        final(out)@ == old(out)@ + tag(a, b, c, d),
{
    out.push(a);
    out.push(b);
    out.push(c);
    out.push(d);
    assert(final(out)@ =~= old(out)@ + tag(a, b, c, d));
}

/// Encodes interleaved stereo 16-bit samples as a complete WAV file. The size fields hold the
/// payload size's low 32 bits; the RIFF size (that plus 36) must not overflow.
pub fn encode_wav(samples: &[i16]) -> (out: Vec<u8>)
    requires
        2 * samples@.len() <= usize::MAX,
        36 + ((2 * samples@.len()) as u32) <= u32::MAX,
    ensures
        out@ == wav_header(samples@.len()) + pcm_bytes(samples@),
        out@.len() == 44 + 2 * samples@.len(),
{
    let data_bytes = (samples.len() * 2) as u32;
    let mut out: Vec<u8> = Vec::new();
    push_tag(&mut out, 0x52, 0x49, 0x46, 0x46);
    push_le32(&mut out, 36 + data_bytes);
    push_tag(&mut out, 0x57, 0x41, 0x56, 0x45);
    push_tag(&mut out, 0x66, 0x6d, 0x74, 0x20);
    push_le32(&mut out, 16);
    push_le16(&mut out, 1);
    push_le16(&mut out, 2);
    push_le32(&mut out, SAMPLE_RATE);
    push_le32(&mut out, SAMPLE_RATE * 4);
    push_le16(&mut out, 4);
    push_le16(&mut out, 16);
    push_tag(&mut out, 0x64, 0x61, 0x74, 0x61);
    push_le32(&mut out, data_bytes);
    let ghost header = out@;
    assert(header =~= wav_header(samples@.len()));
    let mut i: usize = 0;
    while i < samples.len()
        invariant
            i <= samples.len(),
            header == wav_header(samples@.len()),
            header.len() == 44,
            out@ == header + pcm_bytes(samples@.take(i as int)),
            out@.len() == 44 + 2 * i,
        decreases samples.len() - i,
    {
        let s = samples[i];
        push_le16(&mut out, s as u16);
        proof {
            let t = samples@.take(i as int + 1);
            assert(t.drop_last() =~= samples@.take(i as int));
            assert(out@ =~= header + pcm_bytes(t));
        }
        i += 1;
    }
    assert(samples@.take(samples.len() as int) =~= samples@);
    out
}

} // verus!
