//! Re-encoding of edited level data as a zlib stream made of stored
//! (uncompressed) deflate blocks, behind the save's outer header.

use vstd::prelude::*;
use crate::bytes::{le_bytes_u32, le_u32, lemma_le_bytes_u32};

verus! {

/// Modulus of the Adler-32 sums.
pub open spec fn adler_mod() -> int {
    65521
}

/// The two running sums of Adler-32 over `data`.
pub open spec fn adler_sums(data: Seq<u8>) -> (int, int)
    decreases data.len(),
{
    if data.len() == 0 {
        (1, 0)
    } else {
        let (a, b) = adler_sums(data.drop_last());
        let a2 = (a + data.last()) % adler_mod();
        (a2, (b + a2) % adler_mod())
    }
}

/// The Adler-32 checksum of `data`.
pub open spec fn spec_adler32(data: Seq<u8>) -> u32 {
    let (a, b) = adler_sums(data);
    (b * 0x1_0000 + a) as u32
}

/// Adler-32 checksum, as zlib streams carry it.
pub fn adler32(data: &[u8]) -> (r: u32)
    ensures
        r == spec_adler32(data@),
{
    let mut a: u32 = 1;
    let mut b: u32 = 0;
    let mut i: usize = 0;
    while i < data.len()
        invariant
            i <= data@.len(),
            a < 65521,
            b < 65521,
            adler_sums(data@.take(i as int)) == (a as int, b as int),
        decreases data.len() - i,
    {
        assert(data@.take(i + 1).drop_last() =~= data@.take(i as int));
        a = (a + data[i] as u32) % 65521;
        b = (b + a) % 65521;
        i += 1;
    }
    assert(data@.take(data@.len() as int) =~= data@);
    b * 0x1_0000 + a
}

/// The four big-endian bytes of `v`.
pub open spec fn be_bytes_u32(v: u32) -> Seq<u8> {
    seq![(v / 0x100_0000) as u8, ((v / 0x1_0000) % 0x100) as u8, ((v / 0x100) % 0x100) as u8, (v % 0x100) as u8]
}

/// A stored deflate block: the final flag (block type 00), the payload
/// length and its complement, both little-endian, then the payload.
pub open spec fn stored_block(last: u8, chunk: Seq<u8>) -> Seq<u8> {
    let n = chunk.len() as int;
    seq![last, (n % 0x100) as u8, (n / 0x100) as u8, ((0xffff - n) % 0x100) as u8, ((0xffff - n) / 0x100) as u8] + chunk
}

/// Largest payload of one stored block.
pub open spec fn max_block() -> int {
    65535
}

/// The stored blocks that carry `raw[i..]`: full blocks of 65535 bytes,
/// then a final block with the rest (possibly empty).
pub open spec fn blocks_from(raw: Seq<u8>, i: int) -> Seq<u8>
    decreases raw.len() - i,
{
    if raw.len() - i <= max_block() {
        stored_block(1, raw.subrange(i, raw.len() as int))
    } else {
        stored_block(0, raw.subrange(i, i + max_block())) + blocks_from(raw, i + max_block())
    }
}

/// The zlib stream of `raw`: header bytes 0x48 0x89 (deflate, 4 KiB
/// window, no dictionary), the stored blocks, the big-endian Adler-32.
pub open spec fn spec_zlib_stored(raw: Seq<u8>) -> Seq<u8> {
    seq![0x48u8, 0x89u8] + blocks_from(raw, 0) + be_bytes_u32(spec_adler32(raw))
}

/// The rebuilt save: the first 12 bytes of the save's outer header (digest
/// and version), the little-endian length of `raw` (taken modulo 2^32),
/// then the zlib stream of `raw`.
pub open spec fn spec_repack(header: Seq<u8>, raw: Seq<u8>) -> Seq<u8> {
    header.take(12) + le_bytes_u32(raw.len() as u32) + spec_zlib_stored(raw)
}

fn push_u32_le(z: &mut Vec<u8>, v: u32)
    ensures
        final(z)@ == old(z)@ + le_bytes_u32(v),
{
    z.push((v % 0x100) as u8);
    z.push(((v / 0x100) % 0x100) as u8);
    z.push(((v / 0x1_0000) % 0x100) as u8);
    z.push((v / 0x100_0000) as u8);
    assert(z@ =~= old(z)@ + le_bytes_u32(v));
}

fn push_u32_be(z: &mut Vec<u8>, v: u32)
    ensures
        final(z)@ == old(z)@ + be_bytes_u32(v),
{
    z.push((v / 0x100_0000) as u8);
    z.push(((v / 0x1_0000) % 0x100) as u8);
    z.push(((v / 0x100) % 0x100) as u8);
    z.push((v % 0x100) as u8);
    assert(z@ =~= old(z)@ + be_bytes_u32(v));
}

fn push_range(z: &mut Vec<u8>, s: &[u8], lo: usize, hi: usize)
    requires
        lo <= hi <= s@.len(),
    ensures
        final(z)@ == old(z)@ + s@.subrange(lo as int, hi as int),
{
    let mut i = lo;
    while i < hi
        invariant
            lo <= i <= hi,
            hi <= s@.len(),
            z@ == old(z)@ + s@.subrange(lo as int, i as int),
        decreases hi - i,
    {
        z.push(s[i]);
        i += 1;
        assert(z@ =~= old(z)@ + s@.subrange(lo as int, i as int));
    }
}

fn push_block(z: &mut Vec<u8>, last: u8, raw: &[u8], lo: usize, hi: usize)
    requires
        lo <= hi <= raw@.len(),
        hi - lo <= 65535,
    ensures
        final(z)@ == old(z)@ + stored_block(last, raw@.subrange(lo as int, hi as int)),
{
    let n = hi - lo;
    let m = 65535 - n;
    z.push(last);
    z.push((n % 0x100) as u8);
    z.push((n / 0x100) as u8);
    z.push((m % 0x100) as u8);
    z.push((m / 0x100) as u8);
    push_range(z, raw, lo, hi);
    assert(z@ =~= old(z)@ + stored_block(last, raw@.subrange(lo as int, hi as int)));
}

/// Rebuilds a save file around the level data `raw`.
pub fn repack(orig_header: &[u8], raw: &[u8]) -> (out: Vec<u8>)
    requires
        orig_header@.len() >= 12,
    ensures
        out@ == spec_repack(orig_header@, raw@),
{
    let mut z: Vec<u8> = Vec::new();
    z.push(0x48);
    z.push(0x89);
    let ghost start = z@;
    let len = raw.len();
    let mut i: usize = 0;
    while i < len
        invariant
            len == raw@.len(),
            i <= len,
            start == seq![0x48u8, 0x89u8],
            i < len ==> z@ + blocks_from(raw@, i as int) == start + blocks_from(raw@, 0),
            i == len && len > 0 ==> z@ == start + blocks_from(raw@, 0),
            i == 0 ==> z@ == start,
        decreases len - i,
    {
        let n = if len - i < 65535 {
            len - i
        } else {
            65535
        };
        let last: u8 = if n == len - i {
            1
        } else {
            0
        };
        let ghost before = z@;
        push_block(&mut z, last, raw, i, i + n);
        if n == len - i {
            assert(blocks_from(raw@, i as int) == stored_block(1, raw@.subrange(i as int, len as int)));
        } else {
            assert(blocks_from(raw@, i as int) == stored_block(0, raw@.subrange(i as int, i + 65535))
                + blocks_from(raw@, i + 65535));
            assert(before + blocks_from(raw@, i as int) =~= z@ + blocks_from(raw@, i + 65535));
        }
        i += n;
    }
    if len == 0 {
        push_block(&mut z, 1, raw, 0, 0);
    }
    let sum = adler32(raw);
    push_u32_be(&mut z, sum);
    let mut out: Vec<u8> = Vec::new();
    push_range(&mut out, orig_header, 0, 12);
    #[verifier::truncate]
    let n32 = (len as u32);
    push_u32_le(&mut out, n32);
    let ghost o = out@;
    let mut k: usize = 0;
    while k < z.len()
        invariant
            k <= z@.len(),
            out@ == o + z@.take(k as int),
        decreases z.len() - k,
    {
        out.push(z[k]);
        k += 1;
        assert(out@ =~= o + z@.take(k as int));
    }
    assert(z@.take(z@.len() as int) =~= z@);
    assert(orig_header@.subrange(0, 12) =~= orig_header@.take(12));
    assert(out@ =~= spec_repack(orig_header@, raw@));
    out
}

/// The payload carried by a run of stored deflate blocks ending with the
/// first block marked final; `None` where a block header is malformed
/// (a first byte other than 0 or 1, a length whose complement does not
/// match, a payload past the end) or bytes follow the final block.
pub open spec fn stored_payload(z: Seq<u8>) -> Option<Seq<u8>>
    decreases z.len(),
{
    if z.len() < 5 || (z[0] != 0 && z[0] != 1) {
        None
    } else {
        let n = z[1] as int + z[2] as int * 0x100;
        let nn = z[3] as int + z[4] as int * 0x100;
        if n + nn != 0xffff || z.len() < 5 + n {
            None
        } else if z[0] == 1 {
            if z.len() == 5 + n {
                Some(z.subrange(5, 5 + n))
            } else {
                None
            }
        } else {
            match stored_payload(z.skip(5 + n)) {
                Some(rest) => Some(z.subrange(5, 5 + n) + rest),
                None => None,
            }
        }
    }
}

proof fn lemma_blocks_payload(raw: Seq<u8>, i: int)
    requires
        0 <= i <= raw.len(),
    ensures
        stored_payload(blocks_from(raw, i)) == Some(raw.subrange(i, raw.len() as int)),
    decreases raw.len() - i,
{
    let z = blocks_from(raw, i);
    if raw.len() - i <= max_block() {
        let chunk = raw.subrange(i, raw.len() as int);
        assert(z.subrange(5, z.len() as int) =~= chunk);
    } else {
        let chunk = raw.subrange(i, i + max_block());
        lemma_blocks_payload(raw, i + max_block());
        let rest = blocks_from(raw, i + max_block());
        assert(z.subrange(5, 5 + max_block()) =~= chunk);
        assert(z.skip(5 + max_block()) =~= rest);
        assert(chunk + raw.subrange(i + max_block(), raw.len() as int) =~= raw.subrange(
            i,
            raw.len() as int,
        ));
    }
}

/// What [`repack`] writes reads back: the first 12 header bytes are kept,
/// the length field gives the length of `raw` (for data shorter than 4 GiB),
/// the zlib header declares deflate with a valid check value, the stored
/// blocks carry exactly `raw`, and the trailer is the Adler-32 of `raw`.
pub proof fn lemma_repack_reads_back(header: Seq<u8>, raw: Seq<u8>)
    requires
        header.len() >= 12,
        raw.len() < 0x1_0000_0000,
    ensures
        ({
            let out = spec_repack(header, raw);
            &&& out.take(12) == header.take(12)
            &&& le_u32(out, 12) as int == raw.len()
            &&& out[16] % 16 == 8
            &&& (out[16] as int * 256 + out[17] as int) % 31 == 0
            &&& stored_payload(out.subrange(18, out.len() - 4)) == Some(raw)
            &&& out.subrange(out.len() - 4, out.len() as int) == be_bytes_u32(spec_adler32(raw))
        }),
{
    let out = spec_repack(header, raw);
    let lenb = le_bytes_u32(raw.len() as u32);
    lemma_le_bytes_u32(raw.len() as u32);
    assert(out.subrange(12, 16) =~= lenb);
    assert(le_u32(out, 12) == le_u32(lenb, 0));
    assert(out.take(12) =~= header.take(12));
    let blocks = blocks_from(raw, 0);
    assert(out.subrange(18, out.len() - 4) =~= blocks);
    lemma_blocks_payload(raw, 0);
    assert(raw.subrange(0, raw.len() as int) =~= raw);
    assert(out.subrange(out.len() - 4, out.len() as int) =~= be_bytes_u32(spec_adler32(raw)));
}

} // verus!
