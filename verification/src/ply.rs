//! The binary PLY layout of a generated splat cloud: a text header naming the cloud and its
//! vertex count and listing the fourteen float properties, then fourteen little-endian 32-bit
//! words per splat (position, log scale ×3, opacity logit, rotation wxyz, SH0 colour ×3).

use vstd::prelude::*;
use vstd::string::StringExecFns;
use vstd::string::StringSliceAdditionalSpecFns;
use vstd::utf8::encode_utf8;
use crate::bytes::{le32, push_bytes, push_le32};
use crate::text::{decimal, push_decimal};

verus! {

/// The words one splat is stored as.
pub const WORDS_PER_SPLAT: usize = 14;

/// The header of a cloud called `name` with `n` splats.
pub open spec fn ply_header(name: Seq<char>, n: nat) -> Seq<char> {
    "ply\nformat binary_little_endian 1.0\ncomment martin demo splat: "@ + name
        + "\nelement vertex "@ + decimal(n)
        + "\nproperty float x\nproperty float y\nproperty float z\nproperty float scale_0\nproperty float scale_1\nproperty float scale_2\nproperty float opacity\nproperty float rot_0\nproperty float rot_1\nproperty float rot_2\nproperty float rot_3\nproperty float f_dc_0\nproperty float f_dc_1\nproperty float f_dc_2\nend_header\n"@
}

/// Words as little-endian bytes, in order.
pub open spec fn words_le(w: Seq<u32>) -> Seq<u8>
    decreases w.len(),
{
    if w.len() == 0 {
        Seq::empty()
    } else {
        words_le(w.drop_last()) + le32(w.last() as nat)
    }
}

/// The body: each splat's words, splat after splat.
pub open spec fn ply_body(splats: Seq<[u32; 14]>) -> Seq<u8>
    decreases splats.len(),
{
    if splats.len() == 0 {
        Seq::empty()
    } else {
        ply_body(splats.drop_last()) + words_le(splats.last()@)
    }
}

/// Word `k` of a word sequence sits at bytes `4k .. 4k + 4`, little-endian.
pub proof fn lemma_words_le_layout(w: Seq<u32>)
    ensures
        words_le(w).len() == 4 * w.len(),
        forall|k: int|
            0 <= k < w.len() ==> #[trigger] words_le(w).subrange(4 * k, 4 * k + 4) == le32(
                w[k] as nat,
            ),
    decreases w.len(),
{
    if w.len() > 0 {
        let init = w.drop_last();
        lemma_words_le_layout(init);
        let a = words_le(init);
        let b = le32(w.last() as nat);
        assert forall|k: int| 0 <= k < w.len() implies #[trigger] words_le(w).subrange(
            4 * k,
            4 * k + 4,
        ) == le32(w[k] as nat) by {
            if k < w.len() - 1 {
                assert(words_le(w).subrange(4 * k, 4 * k + 4) =~= a.subrange(4 * k, 4 * k + 4));
                assert(init[k] == w[k]);
            } else {
                assert(words_le(w).subrange(4 * k, 4 * k + 4) =~= b);
            }
        }
    }
}

/// The body's layout: 56 bytes per splat, and word `k` of splat `j` is the splat's `k`-th input
/// word, little-endian, at bytes `56j + 4k .. 56j + 4k + 4`.
pub proof fn lemma_ply_body_layout(splats: Seq<[u32; 14]>)
    ensures
        ply_body(splats).len() == 56 * splats.len(),
        forall|j: int, k: int|
            0 <= j < splats.len() && 0 <= k < 14 ==> #[trigger] ply_body(splats).subrange(
                56 * j + 4 * k,
                56 * j + 4 * k + 4,
            ) == le32(#[trigger] splats[j][k] as nat),
    decreases splats.len(),
{
    if splats.len() > 0 {
        let init = splats.drop_last();
        lemma_ply_body_layout(init);
        let last = splats.last();
        lemma_words_le_layout(last@);
        assert(last@.len() == 14);
        let a = ply_body(init);
        let b = words_le(last@);
        assert forall|j: int, k: int|
            0 <= j < splats.len() && 0 <= k < 14 implies #[trigger] ply_body(splats).subrange(
            56 * j + 4 * k,
            56 * j + 4 * k + 4,
        ) == le32(#[trigger] splats[j][k] as nat) by {
            if j < splats.len() - 1 {
                assert(ply_body(splats).subrange(56 * j + 4 * k, 56 * j + 4 * k + 4) =~= a.subrange(
                    56 * j + 4 * k,
                    56 * j + 4 * k + 4,
                ));
                assert(init[j] == splats[j]);
            } else {
                assert(ply_body(splats).subrange(56 * j + 4 * k, 56 * j + 4 * k + 4) =~= b.subrange(
                    4 * k,
                    4 * k + 4,
                ));
                assert(last@[k] == splats[j][k]);
            }
        }
    }
}

/// The whole file: the UTF-8 header, then the body. Each splat is given as the bit patterns
/// (`f32::to_bits`) of its fourteen floats.
pub fn ply_blob(name: &str, splats: &[[u32; 14]]) -> (out: Vec<u8>)
    ensures
        out@ == encode_utf8(ply_header(name@, splats@.len())) + ply_body(splats@),
        out@.len() == encode_utf8(ply_header(name@, splats@.len())).len() + 56 * splats@.len(),
        forall|j: int, k: int|
            0 <= j < splats@.len() && 0 <= k < 14 ==> #[trigger] out@.subrange(
                encode_utf8(ply_header(name@, splats@.len())).len() + 56 * j + 4 * k,
                encode_utf8(ply_header(name@, splats@.len())).len() + 56 * j + 4 * k + 4,
            ) == le32(#[trigger] splats@[j][k] as nat),
{
    let mut header = String::from_str("ply\nformat binary_little_endian 1.0\ncomment martin demo splat: ");
    header.append(name);
    header.append("\nelement vertex ");
    push_decimal(&mut header, splats.len() as u64);
    header.append("\nproperty float x\nproperty float y\nproperty float z\nproperty float scale_0\nproperty float scale_1\nproperty float scale_2\nproperty float opacity\nproperty float rot_0\nproperty float rot_1\nproperty float rot_2\nproperty float rot_3\nproperty float f_dc_0\nproperty float f_dc_1\nproperty float f_dc_2\nend_header\n");
    assert(header@ =~= ply_header(name@, splats@.len()));
    let mut out: Vec<u8> = Vec::new();
    push_bytes(&mut out, header.as_str().as_bytes());
    let ghost head = out@;
    let mut i: usize = 0;
    while i < splats.len()
        invariant
            i <= splats.len(),
            head == encode_utf8(ply_header(name@, splats@.len())),
            out@ == head + ply_body(splats@.take(i as int)),
        decreases splats.len() - i,
    {
        let s = splats[i];
        let ghost before = out@;
        let mut k: usize = 0;
        while k < WORDS_PER_SPLAT
            invariant
                k <= WORDS_PER_SPLAT,
                out@ == before + words_le(s@.take(k as int)),
            decreases WORDS_PER_SPLAT - k,
        {
            push_le32(&mut out, s[k]);
            proof {
                let t = s@.take(k as int + 1);
                assert(t.drop_last() =~= s@.take(k as int));
                assert(t.last() == s@[k as int]);
            }
            k += 1;
            assert(out@ =~= before + words_le(s@.take(k as int)));
        }
        proof {
            assert(s@.take(14) =~= s@);
            let t = splats@.take(i as int + 1);
            assert(t.drop_last() =~= splats@.take(i as int));
            assert(t.last() == s);
            assert(out@ =~= head + ply_body(t));
        }
        i += 1;
    }
    assert(splats@.take(splats.len() as int) =~= splats@);
    proof {
        let h = encode_utf8(ply_header(name@, splats@.len()));
        let body = ply_body(splats@);
        lemma_ply_body_layout(splats@);
        assert forall|j: int, k: int|
            0 <= j < splats@.len() && 0 <= k < 14 implies #[trigger] out@.subrange(
            h.len() + 56 * j + 4 * k,
            h.len() + 56 * j + 4 * k + 4,
        ) == le32(#[trigger] splats@[j][k] as nat) by {
            assert(out@.subrange(h.len() + 56 * j + 4 * k, h.len() + 56 * j + 4 * k + 4)
                =~= body.subrange(56 * j + 4 * k, 56 * j + 4 * k + 4));
        }
    }
    out
}

} // verus!
