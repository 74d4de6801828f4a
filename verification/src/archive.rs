//! The bundled-asset archive: `[u32 count]` then, per entry, `[u32 name_len][name][u32 data_len]
//! [lz4 data]`, every integer little-endian and every payload lz4-compressed with its raw size
//! prepended. `frame_archive` writes it, `read_archive` reads it back.

use vstd::prelude::*;
use vstd::string::StringSliceAdditionalSpecFns;
use vstd::string::StringExecFns;
use vstd::utf8::{valid_utf8, decode_utf8, encode_utf8};
use crate::bytes::{le32, u32_at, lemma_le32_read, push_le32, push_bytes, read_u32_le};

verus! {

#[verifier::external_type_specification]
#[verifier::external_body]
pub struct ExDecompressError(lz4_flex::block::DecompressError);

/// What `lz4_flex::block::decompress_size_prepended` makes of its input: the decompressed bytes,
/// or `None` where it reports an error.
pub uninterp spec fn lz4_decoded(input: Seq<u8>) -> Option<Seq<u8>>;

/// What `lz4_flex::block::compress_prepend_size` makes of its input.
pub uninterp spec fn lz4_compressed(input: Seq<u8>) -> Seq<u8>;

/// The longest run of `0xFF` bytes the lz4 decoder is handed, less one: it sums an extended
/// length's bytes in a `u32`, and from this many `0xFF`s on the sum can overflow.
pub const LZ4_FF_RUN_LIMIT: usize = 16_843_009;

/// The number of `0xFF` bytes that end `b`.
pub open spec fn trailing_ff(b: Seq<u8>) -> nat
    decreases b.len(),
{
    if b.len() == 0 || b.last() != 0xFF {
        0
    } else {
        1 + trailing_ff(b.drop_last())
    }
}

/// No run of `0xFF` bytes in `b` is `LZ4_FF_RUN_LIMIT` long.
pub open spec fn ff_runs_short(b: Seq<u8>) -> bool
    decreases b.len(),
{
    b.len() == 0 || (ff_runs_short(b.drop_last()) && trailing_ff(b) < LZ4_FF_RUN_LIMIT)
}

/// An input the lz4 decoder takes without overflowing its length arithmetic: no overlong run of
/// `0xFF` length bytes, an output size the allocator can be asked for, and room in `usize` for
/// the output size plus every length the input can encode (at most 255 per input byte).
pub open spec fn lz4_decodable(input: Seq<u8>) -> bool {
    &&& ff_runs_short(input)
    &&& input.len() >= 4 ==> u32_at(input, 0) <= isize::MAX
    &&& input.len() >= 4 ==> u32_at(input, 0) + 256 * input.len() + 64 <= usize::MAX
}

/// `lz4_flex::block::decompress_size_prepended`: reads the little-endian `u32` size prefix and
/// decompresses the block behind it. The contract only ties the outcome to the input through
/// `lz4_decoded`; the crate's safe decoder reports malformed input as an error. On inputs outside
/// `lz4_decodable` the crate's length arithmetic can overflow and panic, so `requires` leaves them
/// out. The output buffer is allocated at the prefix's size first, so a prefix larger than the
/// memory available aborts the process rather than returning; the contract does not cover that.
#[verifier::external_body]
fn lz4_decompress(input: &[u8]) -> (res: Result<Vec<u8>, lz4_flex::block::DecompressError>)
    requires
        lz4_decodable(input@),
    ensures
        res is Ok <==> lz4_decoded(input@) is Some,
        res matches Ok(v) ==> lz4_decoded(input@) == Some(v@),
{
    lz4_flex::block::decompress_size_prepended(input)
}

/// `lz4_flex::block::compress_prepend_size`: the crate documents its output as the input for
/// `decompress_size_prepended`, which gives the input back whenever its length fits the `u32`
/// size prefix. The crate sizes its output buffer as `input.len() * 110 / 100` plus a margin,
/// computed in `usize`, so `requires` keeps that product from overflowing.
#[verifier::external_body]
fn lz4_compress(input: &[u8]) -> (res: Vec<u8>)
    requires
        input@.len() * 110 <= usize::MAX,
    ensures
        res@ == lz4_compressed(input@),
        input@.len() <= u32::MAX ==> lz4_decoded(res@) == Some(input@),
{
    lz4_flex::block::compress_prepend_size(input)
}

/// Whether the lz4 decoder can be handed `b` (see `lz4_decodable`).
pub fn is_lz4_decodable(b: &[u8]) -> (r: bool)
    ensures
        r == lz4_decodable(b@),
{
    let mut run: usize = 0;
    let mut i: usize = 0;
    while i < b.len()
        invariant
            i <= b.len(),
            ff_runs_short(b@.take(i as int)),
            run == trailing_ff(b@.take(i as int)),
            run < LZ4_FF_RUN_LIMIT,
        decreases b.len() - i,
    {
        proof {
            let t = b@.take(i as int + 1);
            assert(t.drop_last() =~= b@.take(i as int));
            assert(t.last() == b@[i as int]);
        }
        if b[i] == 0xFF {
            run = run + 1;
            if run >= LZ4_FF_RUN_LIMIT {
                proof {
                    let t = b@.take(i as int + 1);
                    assert(trailing_ff(t) == run);
                    assert(!ff_runs_short(t));
                    if ff_runs_short(b@) {
                        lemma_runs_short_prefix(b@, i as int + 1);
                    }
                }
                return false;
            }
        } else {
            run = 0;
        }
        i += 1;
    }
    assert(b@.take(b.len() as int) =~= b@);
    if b.len() < 4 {
        return true;
    }
    let prefix = read_u32_le(b, 0) as usize;
    if prefix > isize::MAX as usize {
        return false;
    }
    let room = usize::MAX - 64 - prefix;
    b.len() <= room / 256
}

/// Short runs in `b` mean short runs in every prefix of it.
proof fn lemma_runs_short_prefix(b: Seq<u8>, k: int)
    requires
        0 <= k <= b.len(),
        ff_runs_short(b),
    ensures
        ff_runs_short(b.take(k)),
    decreases b.len() - k,
{
    if k < b.len() {
        lemma_runs_short_prefix(b, k + 1);
        assert(b.take(k + 1).drop_last() =~= b.take(k));
    } else {
        assert(b.take(k) =~= b);
    }
}

/// `std::str::from_utf8`: the bytes as a string slice exactly when they are valid UTF-8.
#[verifier::external_body]
fn utf8_str(bytes: &[u8]) -> (res: Option<&str>)
    ensures
        res is Some <==> valid_utf8(bytes@),
        res matches Some(s) ==> s.spec_bytes() == bytes@,
{
    std::str::from_utf8(bytes).ok()
}

/// Why an archive could not be read.
#[derive(Debug, Clone, Copy, PartialEq, Eq, Structural)]
pub enum ArchiveError {
    /// A length field or a payload runs past the end of the archive.
    Truncated,
    /// An entry name is not UTF-8.
    BadName,
    /// A payload is not a valid size-prefixed lz4 block, or is one the decoder cannot take
    /// without overflowing its length arithmetic (see `lz4_decodable`).
    Decompress,
}

/// One archived file: its name and its raw (decompressed) bytes.
#[derive(Debug)]
pub struct ArchiveEntry {
    pub name: String,
    pub data: Vec<u8>,
}

/// An entry as a pair of its name's characters and its bytes.
pub open spec fn entry_view(e: ArchiveEntry) -> (Seq<char>, Seq<u8>) {
    (e.name@, e.data@)
}

pub open spec fn entries_view(v: Seq<ArchiveEntry>) -> Seq<(Seq<char>, Seq<u8>)> {
    v.map_values(|e: ArchiveEntry| entry_view(e))
}

/// An entry as a pair of its name's UTF-8 bytes and its raw bytes.
pub open spec fn entries_bytes(v: Seq<ArchiveEntry>) -> Seq<(Seq<u8>, Seq<u8>)> {
    v.map_values(|e: ArchiveEntry| (encode_utf8(e.name@), e.data@))
}

/// The entry starting at byte `p`: its name, its decompressed bytes and where the next entry
/// starts, or the first problem met while reading it.
pub open spec fn entry_at(b: Seq<u8>, p: int) -> Result<(Seq<char>, Seq<u8>, int), ArchiveError> {
    if p + 4 > b.len() {
        Err(ArchiveError::Truncated)
    } else {
        let q = p + 4;
        let nl = u32_at(b, p);
        if q + nl > b.len() {
            Err(ArchiveError::Truncated)
        } else if !valid_utf8(b.subrange(q, q + nl)) {
            Err(ArchiveError::BadName)
        } else {
            let r = q + nl;
            if r + 4 > b.len() {
                Err(ArchiveError::Truncated)
            } else {
                let s = r + 4;
                let dl = u32_at(b, r);
                if s + dl > b.len() {
                    Err(ArchiveError::Truncated)
                } else {
                    if !lz4_decodable(b.subrange(s, s + dl)) {
                        Err(ArchiveError::Decompress)
                    } else {
                        match lz4_decoded(b.subrange(s, s + dl)) {
                            None => Err(ArchiveError::Decompress),
                            Some(raw) => Ok((decode_utf8(b.subrange(q, q + nl)), raw, s + dl)),
                        }
                    }
                }
            }
        }
    }
}

/// `n` consecutive entries starting at byte `p`.
pub open spec fn entries_from(b: Seq<u8>, p: int, n: nat) -> Result<
    Seq<(Seq<char>, Seq<u8>)>,
    ArchiveError,
>
    decreases n,
{
    if n == 0 {
        Ok(Seq::empty())
    } else {
        match entry_at(b, p) {
            Err(e) => Err(e),
            Ok((name, data, next)) => match entries_from(b, next, (n - 1) as nat) {
                Err(e) => Err(e),
                Ok(rest) => Ok(seq![(name, data)] + rest),
            },
        }
    }
}

/// The whole archive: the entry count, then that many entries (trailing bytes are ignored).
pub open spec fn archive_spec(b: Seq<u8>) -> Result<Seq<(Seq<char>, Seq<u8>)>, ArchiveError> {
    if b.len() < 4 {
        Err(ArchiveError::Truncated)
    } else {
        entries_from(b, 4, u32_at(b, 0))
    }
}

/// The bytes of one entry: lengths are written as their low 32 bits.
pub open spec fn frame_entry_spec(name: Seq<u8>, data: Seq<u8>) -> Seq<u8> {
    let comp = lz4_compressed(data);
    le32((name.len() as u32) as nat) + name + le32((comp.len() as u32) as nat) + comp
}

pub open spec fn frame_entries_spec(fs: Seq<(Seq<u8>, Seq<u8>)>) -> Seq<u8>
    decreases fs.len(),
{
    if fs.len() == 0 {
        Seq::empty()
    } else {
        frame_entries_spec(fs.drop_last()) + frame_entry_spec(fs.last().0, fs.last().1)
    }
}

pub open spec fn frame_spec(fs: Seq<(Seq<u8>, Seq<u8>)>) -> Seq<u8> {
    le32((fs.len() as u32) as nat) + frame_entries_spec(fs)
}

/// Every length the archive records fits its `u32` field.
pub open spec fn entry_fits(name: Seq<u8>, data: Seq<u8>) -> bool {
    &&& name.len() <= u32::MAX
    &&& data.len() <= u32::MAX
    &&& lz4_compressed(data).len() <= u32::MAX
    &&& lz4_decodable(lz4_compressed(data))
}

pub open spec fn archive_fits(files: Seq<ArchiveEntry>) -> bool {
    &&& files.len() <= u32::MAX
    &&& forall|i: int|
        0 <= i < files.len() ==> #[trigger] entry_fits(
            encode_utf8(files[i].name@),
            files[i].data@,
        )
}

pub open spec fn decoded(fs: Seq<(Seq<u8>, Seq<u8>)>) -> Seq<(Seq<char>, Seq<u8>)> {
    fs.map_values(|x: (Seq<u8>, Seq<u8>)| (decode_utf8(x.0), x.1))
}

/// What reading a framed entry needs of it.
spec fn entry_readable(x: (Seq<u8>, Seq<u8>)) -> bool {
    &&& entry_fits(x.0, x.1)
    &&& valid_utf8(x.0)
    &&& lz4_decoded(lz4_compressed(x.1)) == Some(x.1)
}

proof fn lemma_frame_entries_front(fs: Seq<(Seq<u8>, Seq<u8>)>)
    requires
        fs.len() > 0,
    ensures
        frame_entries_spec(fs) == frame_entry_spec(fs[0].0, fs[0].1) + frame_entries_spec(
            fs.drop_first(),
        ),
    decreases fs.len(),
{
    if fs.len() == 1 {
        assert(fs.drop_last() =~= Seq::<(Seq<u8>, Seq<u8>)>::empty());
        assert(fs.drop_first() =~= Seq::<(Seq<u8>, Seq<u8>)>::empty());
        assert(frame_entries_spec(fs.drop_last()) == Seq::<u8>::empty());
        assert(frame_entries_spec(fs) =~= frame_entry_spec(fs[0].0, fs[0].1));
    } else {
        let init = fs.drop_last();
        lemma_frame_entries_front(init);
        assert(init.drop_first() =~= fs.drop_first().drop_last());
        assert(fs.drop_first().last() == fs.last());
        assert(frame_entries_spec(fs) =~= frame_entry_spec(fs[0].0, fs[0].1) + frame_entries_spec(
            fs.drop_first(),
        ));
    }
}

proof fn lemma_read_framed_entry(b: Seq<u8>, p: int, name: Seq<u8>, data: Seq<u8>)
    requires
        0 <= p,
        p + frame_entry_spec(name, data).len() <= b.len(),
        b.subrange(p, p + frame_entry_spec(name, data).len()) == frame_entry_spec(name, data),
        entry_readable((name, data)),
    ensures
        entry_at(b, p) == Ok::<(Seq<char>, Seq<u8>, int), ArchiveError>(
            (decode_utf8(name), data, p + frame_entry_spec(name, data).len()),
        ),
{
    let e = frame_entry_spec(name, data);
    let comp = lz4_compressed(data);
    let nl = name.len();
    let cl = comp.len();
    assert((nl as u32) as nat == nl);
    assert((cl as u32) as nat == cl);
    let l1 = le32(nl);
    let l2 = le32(cl);
    assert(e =~= l1 + name + l2 + comp);
    assert(e.len() == 8 + nl + cl);
    assert forall|k: int| 0 <= k < e.len() implies b[p + k] == e[k] by {
        assert(b.subrange(p, p + e.len())[k] == b[p + k]);
    }
    lemma_le32_read(nl);
    lemma_le32_read(cl);
    assert(u32_at(b, p) == u32_at(l1, 0)) by {
        assert(b[p] == e[0] && b[p + 1] == e[1] && b[p + 2] == e[2] && b[p + 3] == e[3]);
    }
    let q = p + 4;
    assert(b.subrange(q, q + nl) =~= name) by {
        assert forall|k: int| 0 <= k < nl implies b.subrange(q, q + nl)[k] == name[k] by {
            assert(b[q + k] == e[4int + k]);
        }
    }
    let r = q + nl;
    assert(u32_at(b, r) == u32_at(l2, 0)) by {
        assert(b[r] == e[4int + nl] && b[r + 1] == e[5int + nl] && b[r + 2] == e[6int + nl] && b[r
            + 3] == e[7int + nl]);
    }
    let s = r + 4;
    assert(b.subrange(s, s + cl) =~= comp) by {
        assert forall|k: int| 0 <= k < cl implies b.subrange(s, s + cl)[k] == comp[k] by {
            assert(b[s + k] == e[8int + nl + k]);
        }
    }
}

proof fn lemma_read_framed_entries(b: Seq<u8>, p: int, fs: Seq<(Seq<u8>, Seq<u8>)>)
    requires
        0 <= p,
        p + frame_entries_spec(fs).len() <= b.len(),
        b.subrange(p, p + frame_entries_spec(fs).len()) == frame_entries_spec(fs),
        forall|i: int| 0 <= i < fs.len() ==> #[trigger] entry_readable(fs[i]),
    ensures
        entries_from(b, p, fs.len()) == Ok::<Seq<(Seq<char>, Seq<u8>)>, ArchiveError>(
            decoded(fs),
        ),
    decreases fs.len(),
{
    if fs.len() == 0 {
        assert(decoded(fs) =~= Seq::<(Seq<char>, Seq<u8>)>::empty());
    } else {
        let f = frame_entries_spec(fs);
        let e = frame_entry_spec(fs[0].0, fs[0].1);
        let rest = fs.drop_first();
        let fr = frame_entries_spec(rest);
        lemma_frame_entries_front(fs);
        assert(f == e + fr);
        assert(b.subrange(p, p + e.len()) =~= e) by {
            assert forall|k: int| 0 <= k < e.len() implies b.subrange(p, p + e.len())[k] == e[k] by {
                assert(b.subrange(p, p + f.len())[k] == f[k]);
            }
        }
        assert(entry_readable(fs[0]));
        lemma_read_framed_entry(b, p, fs[0].0, fs[0].1);
        let p2 = p + e.len();
        assert(b.subrange(p2, p2 + fr.len()) =~= fr) by {
            assert forall|k: int| 0 <= k < fr.len() implies b.subrange(p2, p2 + fr.len())[k]
                == fr[k] by {
                assert(b.subrange(p, p + f.len())[e.len() + k] == f[e.len() + k]);
            }
        }
        assert forall|i: int| 0 <= i < rest.len() implies #[trigger] entry_readable(rest[i]) by {
            assert(rest[i] == fs[i + 1]);
        }
        lemma_read_framed_entries(b, p2, rest);
        assert(decoded(fs) =~= seq![(decode_utf8(fs[0].0), fs[0].1)] + decoded(rest));
    }
}

/// `lz4`-compresses every file and frames the archive: the entry count, then each entry's name
/// length, name, compressed length and compressed bytes. A length of 2^32 or more is written as
/// its low 32 bits; when every length fits and every compressed payload is one the decoder takes
/// (`lz4_decodable`), reading the archive back gives the files.
pub fn frame_archive(files: &[ArchiveEntry]) -> (out: Vec<u8>)
    requires
        forall|i: int| 0 <= i < files@.len() ==> (#[trigger] files@[i]).data@.len() * 110 <= usize::MAX,
    ensures
        out@ == frame_spec(entries_bytes(files@)),
        archive_fits(files@) ==> archive_spec(out@) == Ok::<
            Seq<(Seq<char>, Seq<u8>)>,
            ArchiveError,
        >(entries_view(files@)),
{
    let ghost fs = entries_bytes(files@);
    let mut out: Vec<u8> = Vec::new();
    push_le32(&mut out, files.len() as u32);
    let mut i: usize = 0;
    while i < files.len()
        invariant
            i <= files.len(),
            fs == entries_bytes(files@),
            forall|k: int|
                0 <= k < files@.len() ==> (#[trigger] files@[k]).data@.len() * 110 <= usize::MAX,
            out@ == le32((files@.len() as u32) as nat) + frame_entries_spec(fs.take(i as int)),
            forall|k: int|
                0 <= k < i ==> (#[trigger] files@[k]).data@.len() <= u32::MAX ==> lz4_decoded(
                    lz4_compressed(files@[k].data@),
                ) == Some(files@[k].data@),
        decreases files.len() - i,
    {
        let e = &files[i];
        let nb = e.name.as_str().as_bytes();
        push_le32(&mut out, nb.len() as u32);
        push_bytes(&mut out, nb);
        let comp = lz4_compress(e.data.as_slice());
        push_le32(&mut out, comp.len() as u32);
        push_bytes(&mut out, comp.as_slice());
        proof {
            let t = fs.take(i as int + 1);
            assert(t.drop_last() =~= fs.take(i as int));
            assert(t.last() == fs[i as int]);
            assert(out@ =~= le32((files@.len() as u32) as nat) + frame_entries_spec(t));
        }
        i += 1;
    }
    proof {
        assert(fs.take(files@.len() as int) =~= fs);
        if archive_fits(files@) {
            let n = files@.len();
            assert forall|k: int| 0 <= k < fs.len() implies #[trigger] entry_readable(fs[k]) by {
                assert(entry_fits(encode_utf8(files@[k].name@), files@[k].data@));
                vstd::utf8::encode_utf8_valid_utf8(files@[k].name@);
            }
            let f = frame_entries_spec(fs);
            lemma_le32_read(n);
            assert(out@.subrange(4, 4int + f.len()) =~= f);
            lemma_read_framed_entries(out@, 4, fs);
            assert(u32_at(out@, 0) == n);
            assert forall|k: int| 0 <= k < n implies decoded(fs)[k] == entries_view(files@)[k] by {
                vstd::utf8::encode_utf8_decode_utf8(files@[k].name@);
            }
            assert(decoded(fs) =~= entries_view(files@));
        }
    }
    out
}

/// Reads the entry that starts at byte `p`: the entry and the position after it, or why it
/// cannot be read.
pub fn read_entry(b: &[u8], p: usize) -> (res: Result<(ArchiveEntry, usize), ArchiveError>)
    ensures
        res matches Ok((e, next)) ==> entry_at(b@, p as int) == Ok::<
            (Seq<char>, Seq<u8>, int),
            ArchiveError,
        >((e.name@, e.data@, next as int)),
        res matches Err(err) ==> entry_at(b@, p as int) == Err::<
            (Seq<char>, Seq<u8>, int),
            ArchiveError,
        >(err),
{
    if b.len() < 4 || p > b.len() - 4 {
        return Err(ArchiveError::Truncated);
    }
    let name_len = read_u32_le(b, p) as usize;
    let q = p + 4;
    if name_len > b.len() - q {
        return Err(ArchiveError::Truncated);
    }
    let name_bytes = &b[q..q + name_len];
    let name = match utf8_str(name_bytes) {
        Some(s) => String::from_str(s),
        None => {
            return Err(ArchiveError::BadName);
        },
    };
    let r = q + name_len;
    if b.len() - r < 4 {
        return Err(ArchiveError::Truncated);
    }
    let data_len = read_u32_le(b, r) as usize;
    let s = r + 4;
    if data_len > b.len() - s {
        return Err(ArchiveError::Truncated);
    }
    let comp = &b[s..s + data_len];
    if !is_lz4_decodable(comp) {
        return Err(ArchiveError::Decompress);
    }
    let data = match lz4_decompress(comp) {
        Ok(v) => v,
        Err(_) => {
            return Err(ArchiveError::Decompress);
        },
    };
    proof {
        vstd::utf8::decode_utf8_encode_utf8(name_bytes@);
        vstd::utf8::encode_utf8_decode_utf8(name@);
    }
    Ok((ArchiveEntry { name, data }, s + data_len))
}

/// Reads the whole archive: the entry count, then that many entries, in order.
pub fn read_archive(b: &[u8]) -> (res: Result<Vec<ArchiveEntry>, ArchiveError>)
    ensures
        res matches Ok(v) ==> archive_spec(b@) == Ok::<Seq<(Seq<char>, Seq<u8>)>, ArchiveError>(
            entries_view(v@),
        ),
        res matches Err(err) ==> archive_spec(b@) == Err::<Seq<(Seq<char>, Seq<u8>)>, ArchiveError>(
            err,
        ),
{
    if b.len() < 4 {
        return Err(ArchiveError::Truncated);
    }
    let count = read_u32_le(b, 0);
    let mut out: Vec<ArchiveEntry> = Vec::new();
    let mut p: usize = 4;
    let mut i: u32 = 0;
    while i < count
        invariant
            i <= count,
            count == u32_at(b@, 0),
            b@.len() >= 4,
            entries_from(b@, 4, count as nat) == (match entries_from(
                b@,
                p as int,
                (count - i) as nat,
            ) {
                Ok(rest) => Ok(entries_view(out@) + rest),
                Err(e) => Err(e),
            }),
        decreases count - i,
    {
        match read_entry(b, p) {
            Ok((e, next)) => {
                let ghost before = entries_view(out@);
                out.push(e);
                proof {
                    assert(entries_view(out@) =~= before.push(entry_view(e)));
                    match entries_from(b@, next as int, (count - i - 1) as nat) {
                        Ok(rest) => {
                            assert(before + (seq![entry_view(e)] + rest) =~= entries_view(out@)
                                + rest);
                        },
                        Err(_) => {},
                    }
                }
                p = next;
            },
            Err(err) => {
                return Err(err);
            },
        }
        i += 1;
    }
    assert(entries_view(out@) + Seq::empty() =~= entries_view(out@));
    Ok(out)
}

} // verus!
