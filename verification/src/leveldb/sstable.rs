use super::codecs::{
    deflate_decode, deflate_failure, deflate_output, snappy_decode, snappy_failure, snappy_output,
    zlib_decode, zlib_output, zstd_decode, zstd_output, zstd_read_failure, StreamFailure,
};
use super::store::{insert_all, pairs_view, EntryStore, KeyValue};
use crate::common::binary::{bytes_to_vec, le_bytes_u32, le_u32, lemma_le_u32_roundtrip, push_bytes, read_u32_le};
use crate::common::error::{AmberError, Result};
use crate::common::text::{decimal_string, decimal_text};
use vstd::prelude::*;

verus! {

/// Why reading a varint stopped.
pub enum VarintFault {
    /// The data ended inside the varint.
    Underflow,
    /// The varint runs past 64 bits.
    Overflow,
}

/// The error value that reports `f`.
pub open spec fn varint_error(e: AmberError, f: VarintFault) -> bool {
    match f {
        VarintFault::Underflow => e == AmberError::BufferUnderflow { needed: 1, remaining: 0 },
        VarintFault::Overflow => e matches AmberError::CorruptSubChunk(m) && m@ == "varint overflow"@,
    }
}

/// A little-endian base-128 varint from `pos`, whose low `shift` bits are
/// already in `acc`: each byte adds its low 7 bits above those read so far
/// (bits past 64 are dropped), a clear high bit ends it, and more than ten
/// bytes overflow. On failure, the position reached is reported too.
pub open spec fn varint_from(data: Seq<u8>, pos: int, shift: nat, acc: u64) -> core::result::Result<
    (u64, int),
    (VarintFault, int),
>
    decreases 64 - shift,
{
    if !(0 <= pos < data.len()) {
        Err((VarintFault::Underflow, pos))
    } else {
        let b = data[pos];
        let next = acc | ((((b & 0x7f) as u64) << (shift as u64)) as u64);
        if b & 0x80 == 0 {
            Ok((next, pos + 1))
        } else if shift + 7 >= 64 {
            Err((VarintFault::Overflow, pos + 1))
        } else {
            varint_from(data, pos + 1, shift + 7, next)
        }
    }
}

/// A varint at `pos`.
pub open spec fn varint_at(data: Seq<u8>, pos: int) -> core::result::Result<(u64, int), (VarintFault, int)> {
    varint_from(data, pos, 0, 0)
}

proof fn lemma_varint_advances(data: Seq<u8>, pos: int, shift: nat, acc: u64)
    ensures
        varint_from(data, pos, shift, acc) matches Ok((_, p)) ==> pos < p <= data.len(),
    decreases 64 - shift,
{
    if 0 <= pos < data.len() {
        let b = data[pos];
        let next = acc | ((((b & 0x7f) as u64) << (shift as u64)) as u64);
        if b & 0x80 != 0 && shift + 7 < 64 {
            lemma_varint_advances(data, pos + 1, shift + 7, next);
        }
    }
}

/// Reads a varint at `*offset` and moves `*offset` past the bytes read.
pub fn read_varint_u64(data: &[u8], offset: &mut usize) -> (res: Result<u64>)
    ensures
        match (res, varint_at(data@, *old(offset) as int)) {
            (Ok(v), Ok((w, p))) => v == w && *final(offset) == p,
            (Err(e), Err((f, p))) => varint_error(e, f) && *final(offset) == p,
            _ => false,
        },
{
    let ghost start = *offset as int;
    let mut result: u64 = 0;
    let mut shift: u64 = 0;
    while *offset < data.len()
        invariant_except_break
            start == *old(offset) as int,
            shift % 7 == 0,
            shift < 64,
            varint_at(data@, start) == varint_from(data@, *offset as int, shift as nat, result),
        ensures
            start == *old(offset) as int,
            varint_at(data@, start) == varint_from(data@, *offset as int, shift as nat, result),
            *offset >= data@.len(),
        decreases data@.len() - *offset,
    {
        let b = data[*offset];
        let ghost pos = *offset as int;
        let ghost acc = result;
        *offset = *offset + 1;
        result = result | (((b & 0x7f) as u64) << shift);
        assert(result == acc | ((((b & 0x7f) as u64) << ((shift as nat) as u64)) as u64));
        if (b & 0x80) == 0 {
            assert(varint_from(data@, pos, shift as nat, acc) == Ok::<(u64, int), (VarintFault, int)>((result, pos + 1)));
            return Ok(result);
        }
        shift = shift + 7;
        if shift >= 64 {
            assert(varint_from(data@, pos, (shift - 7) as nat, acc) == Err::<(u64, int), (VarintFault, int)>((VarintFault::Overflow, pos + 1)));
            return Err(AmberError::CorruptSubChunk(String::from_str("varint overflow")));
        }
    }
    Err(AmberError::BufferUnderflow { needed: 1, remaining: 0 })
}

/// Where a block lies in a table file.
pub struct BlockHandle {
    pub offset: u64,
    pub size: u64,
}

/// A block handle at `pos`: its offset, then its size, as varints.
pub open spec fn handle_at(data: Seq<u8>, pos: int) -> core::result::Result<
    ((u64, u64), int),
    (VarintFault, int),
> {
    match varint_at(data, pos) {
        Err(f) => Err(f),
        Ok((offset, p1)) => match varint_at(data, p1) {
            Err(f) => Err(f),
            Ok((size, p2)) => Ok(((offset, size), p2)),
        },
    }
}

impl BlockHandle {
    /// Reads a block handle at `*offset` and moves `*offset` past it.
    pub fn read(data: &[u8], offset: &mut usize) -> (res: Result<Self>)
        ensures
            match (res, handle_at(data@, *old(offset) as int)) {
                (Ok(h), Ok(((o, s), p))) => h.offset == o && h.size == s && *final(offset) == p,
                (Err(e), Err((f, p))) => varint_error(e, f) && *final(offset) == p,
                _ => false,
            },
    {
        let block_offset = match read_varint_u64(data, offset) {
            Ok(v) => v,
            Err(e) => return Err(e),
        };
        let size = match read_varint_u64(data, offset) {
            Ok(v) => v,
            Err(e) => return Err(e),
        };
        Ok(Self { offset: block_offset, size })
    }
}

/// Why a table block could not be decoded.
pub enum BlockFault {
    /// Compression type 1 and the Snappy data is malformed.
    Snappy,
    /// Compression type 2 and neither zlib nor raw deflate decodes it.
    ZlibDeflate,
    /// Compression type 4 and neither raw deflate nor zstd decodes it.
    Zstd,
    /// A compression type other than 0, 1, 2 and 4.
    UnknownCompression(u8),
}

/// What a table block with compression type `ct` decodes to: 0 is stored
/// as it is, 1 is raw Snappy, 2 is zlib (raw deflate when zlib fails or
/// yields nothing) and 4 is raw deflate (zstd when deflate fails or yields
/// nothing).
pub open spec fn block_bytes(raw: Seq<u8>, ct: u8) -> core::result::Result<Seq<u8>, BlockFault> {
    if ct == 0 {
        Ok(raw)
    } else if ct == 1 {
        match snappy_output(raw) {
            Some(v) => Ok(v),
            None => Err(BlockFault::Snappy),
        }
    } else if ct == 2 {
        match zlib_output(raw) {
            Some(v) if v.len() > 0 => Ok(v),
            _ => match deflate_output(raw) {
                Some(v) => Ok(v),
                None => Err(BlockFault::ZlibDeflate),
            },
        }
    } else if ct == 4 {
        match deflate_output(raw) {
            Some(v) if v.len() > 0 => Ok(v),
            _ => match zstd_output(raw) {
                Some(v) => Ok(v),
                None => Err(BlockFault::Zstd),
            },
        }
    } else {
        Err(BlockFault::UnknownCompression(ct))
    }
}

/// The error value that reports `f` for block bytes `raw`: the stage that
/// failed, then the failing decoder's own text. The text of a zstd decoder
/// that could not be set up is left open.
pub open spec fn block_error(e: AmberError, raw: Seq<u8>, f: BlockFault) -> bool {
    e matches AmberError::DecompressionFailed(m) && match f {
        BlockFault::Snappy => m@ == "snappy block: "@ + snappy_failure(raw),
        BlockFault::ZlibDeflate => m@ == "zlib/deflate block: "@ + deflate_failure(raw),
        BlockFault::Zstd => (exists|d: Seq<char>| m@ == "zstd block init: "@ + d) || m@ == "zstd block read: "@
            + zstd_read_failure(raw),
        BlockFault::UnknownCompression(ct) => m@ == "unsupported block compression type "@
            + decimal_text(ct as nat),
    }
}

/// The decompression error whose message is `prefix` followed by the
/// decoder's own description `msg`.
pub fn block_failure(prefix: &str, msg: String) -> (e: AmberError)
    ensures
        e matches AmberError::DecompressionFailed(m) && m@ == prefix@ + msg@,
{
    let mut m = String::from_str(prefix);
    m.append(msg.as_str());
    AmberError::DecompressionFailed(m)
}

/// A decoder's output when it worked and yielded at least one byte; in
/// every other case the block is handed to the fallback decoder.
pub fn nonempty_output<E>(decoded: std::result::Result<Vec<u8>, E>) -> (res: Option<Vec<u8>>)
    ensures
        match decoded {
            Ok(v) => if v@.len() > 0 {
                res == Some(v)
            } else {
                res is None
            },
            Err(_) => res is None,
        },
{
    match decoded {
        Ok(v) => if v.len() > 0 {
            Some(v)
        } else {
            None
        },
        Err(_) => None,
    }
}

/// Decodes a table block by its compression type.
pub fn decompress_block(raw: &[u8], compression_type: u8) -> (res: Result<Vec<u8>>)
    ensures
        match (res, block_bytes(raw@, compression_type)) {
            (Ok(v), Ok(w)) => v@ == w,
            (Err(e), Err(f)) => block_error(e, raw@, f),
            _ => false,
        },
{
    if compression_type == 0 {
        Ok(bytes_to_vec(raw))
    } else if compression_type == 1 {
        match snappy_decode(raw) {
            Ok(v) => Ok(v),
            Err(msg) => Err(block_failure("snappy block: ", msg)),
        }
    } else if compression_type == 2 {
        match nonempty_output(zlib_decode(raw)) {
            Some(out) => Ok(out),
            None => match deflate_decode(raw) {
                Ok(out) => Ok(out),
                Err(msg) => Err(block_failure("zlib/deflate block: ", msg)),
            },
        }
    } else if compression_type == 4 {
        match nonempty_output(deflate_decode(raw)) {
            Some(out) => Ok(out),
            None => match zstd_decode(raw) {
                Ok(out) => Ok(out),
                Err(StreamFailure::Setup(msg)) => Err(block_failure("zstd block init: ", msg)),
                Err(StreamFailure::Read(msg)) => Err(block_failure("zstd block read: ", msg)),
            },
        }
    } else {
        let mut m = String::from_str("unsupported block compression type ");
        m.append(decimal_string(compression_type as u64).as_str());
        Err(AmberError::DecompressionFailed(m))
    }
}

/// Why a block could not be read out of a table file.
pub enum RawBlockFault {
    /// The block and its five-byte trailer do not fit in the file.
    OutOfRange { needed: usize, remaining: usize },
    Block(BlockFault),
}

/// The block a handle points at: `size` bytes at `offset`, followed by a
/// compression type byte and a four-byte checksum that is not checked.
/// When the end does not fit in `usize`, `needed` reports `usize::MAX`.
pub open spec fn raw_block(data: Seq<u8>, offset: u64, size: u64) -> core::result::Result<Seq<u8>, RawBlockFault> {
    let start = (offset as usize) as int;
    let end = start + (size as usize) as int;
    let total = end + 5;
    if total > data.len() {
        Err(
            RawBlockFault::OutOfRange {
                needed: if total > usize::MAX {
                    usize::MAX
                } else {
                    total as usize
                },
                remaining: (if start <= data.len() {
                    data.len() - start
                } else {
                    0
                }) as usize,
            },
        )
    } else {
        match block_bytes(data.subrange(start, end), data[end]) {
            Ok(v) => Ok(v),
            Err(f) => Err(RawBlockFault::Block(f)),
        }
    }
}

/// The error value that reports `f` for the block at `offset` with `size`
/// bytes in `data`.
pub open spec fn raw_block_error(e: AmberError, data: Seq<u8>, offset: u64, size: u64, f: RawBlockFault) -> bool {
    match f {
        RawBlockFault::OutOfRange { needed, remaining } => e == AmberError::BufferUnderflow {
            needed,
            remaining,
        },
        RawBlockFault::Block(g) => {
            let start = (offset as usize) as int;
            block_error(e, data.subrange(start, start + (size as usize) as int), g)
        },
    }
}

/// Reads the block `handle` points at out of a table file's bytes.
///
/// A handle whose end overflows `usize` is reported as out of range.
pub fn read_raw_block(data: &[u8], handle: &BlockHandle) -> (res: Result<Vec<u8>>)
    ensures
        match (res, raw_block(data@, handle.offset, handle.size)) {
            (Ok(v), Ok(w)) => v@ == w,
            (Err(e), Err(f)) => raw_block_error(e, data@, handle.offset, handle.size, f),
            _ => false,
        },
{
    let start = handle.offset as usize;
    let size = handle.size as usize;
    let len = data.len();
    let remaining = if start <= len {
        len - start
    } else {
        0
    };
    if size > usize::MAX - start || size + start > usize::MAX - 5 {
        return Err(AmberError::BufferUnderflow { needed: usize::MAX, remaining });
    }
    let end = start + size;
    let total_end = end + 5;
    if total_end > len {
        return Err(AmberError::BufferUnderflow { needed: total_end, remaining });
    }
    let raw_payload = &data[start..end];
    let compression_type = data[end];
    decompress_block(raw_payload, compression_type)
}


/// Entries of a block from `pos` on, given the previous key and the
/// entries so far. Each entry is three varints (bytes shared with the
/// previous key, further key bytes, value bytes), then the further key
/// bytes and the value. Decoding stops at `limit`, or quietly at an entry
/// that would run past it; a shared count larger than the previous key
/// shares nothing.
pub open spec fn block_entries_from(
    block: Seq<u8>,
    limit: int,
    pos: int,
    prev: Seq<u8>,
    acc: Seq<KeyValue>,
) -> core::result::Result<Seq<KeyValue>, VarintFault>
    decreases limit - pos,
{
    if pos >= limit {
        Ok(acc)
    } else {
        match varint_at(block, pos) {
            Err((f, _)) => Err(f),
            Ok((shared, p1)) => match varint_at(block, p1) {
                Err((f, _)) => Err(f),
                Ok((unshared, p2)) => match varint_at(block, p2) {
                    Err((f, _)) => Err(f),
                    Ok((val_len, p3)) => {
                        let s = (shared as usize) as int;
                        let u = (unshared as usize) as int;
                        let v = (val_len as usize) as int;
                        if p3 + u + v > limit {
                            Ok(acc)
                        } else if p3 + u + v <= pos {
                            Ok(acc)
                        } else {
                            let key = (if s <= prev.len() {
                                prev.take(s)
                            } else {
                                Seq::empty()
                            }) + block.subrange(p3, p3 + u);
                            let value = block.subrange(p3 + u, p3 + u + v);
                            block_entries_from(block, limit, p3 + u + v, key, acc.push((key, value)))
                        }
                    },
                },
            },
        }
    }
}

/// The entries of a table block. The block ends with a little-endian `u32`
/// restart count and that many four-byte restart offsets; the entries
/// come before them. A block too short for its restart array holds no
/// entries.
pub open spec fn block_entries(block: Seq<u8>) -> core::result::Result<Seq<KeyValue>, VarintFault> {
    if block.len() < 4 {
        Ok(Seq::empty())
    } else {
        let restarts = (le_u32(block.subrange(block.len() - 4, block.len() as int)) as usize) as int;
        let restarts_len = restarts * 4 + 4;
        if block.len() < restarts_len {
            Ok(Seq::empty())
        } else {
            block_entries_from(block, block.len() - restarts_len, 0, Seq::empty(), Seq::empty())
        }
    }
}

/// One block entry written without sharing a key prefix, with lengths
/// below 128: the varints 0, the key length and the value length (one
/// byte each), then the key and the value.
pub open spec fn entry_bytes(e: KeyValue) -> Seq<u8> {
    seq![0u8, e.0.len() as u8, e.1.len() as u8] + e.0 + e.1
}

/// Entries written one after another with [`entry_bytes`].
pub open spec fn entries_bytes(es: Seq<KeyValue>) -> Seq<u8>
    decreases es.len(),
{
    if es.len() == 0 {
        Seq::empty()
    } else {
        entries_bytes(es.drop_last()) + entry_bytes(es.last())
    }
}

/// Every key and value of `es` is shorter than 128 bytes.
pub open spec fn short_entries(es: Seq<KeyValue>) -> bool {
    forall|i: int| 0 <= i < es.len() ==> (#[trigger] es[i]).0.len() < 128 && es[i].1.len() < 128
}

proof fn lemma_entries_bytes_prefix(es: Seq<KeyValue>, i: int, j: int)
    requires
        0 <= i <= j <= es.len(),
    ensures
        entries_bytes(es.take(j)).len() >= entries_bytes(es.take(i)).len(),
        entries_bytes(es.take(j)).subrange(0, entries_bytes(es.take(i)).len() as int) == entries_bytes(es.take(i)),
    decreases j - i,
{
    if j > i {
        lemma_entries_bytes_prefix(es, i, j - 1);
        assert(es.take(j).drop_last() =~= es.take(j - 1));
        let a = entries_bytes(es.take(j - 1));
        let b = entries_bytes(es.take(i));
        assert((a + entry_bytes(es.take(j).last())).subrange(0, b.len() as int) =~= a.subrange(0, b.len() as int));
    } else {
        assert(entries_bytes(es.take(j)).subrange(0, entries_bytes(es.take(i)).len() as int) =~= entries_bytes(
            es.take(i),
        ));
    }
}

proof fn lemma_small_varint(data: Seq<u8>, pos: int)
    requires
        0 <= pos < data.len(),
        data[pos] < 128,
    ensures
        varint_at(data, pos) == Ok::<(u64, int), (VarintFault, int)>((data[pos] as u64, pos + 1)),
{
    let b = data[pos];
    assert(b & 0x80 == 0 && (0u64 | ((((b & 0x7f) as u64) << (0nat as u64)) as u64)) == b as u64) by (bit_vector)
        requires
            b < 128,
    ;
}

proof fn lemma_decode_entries(block: Seq<u8>, es: Seq<KeyValue>, i: int, prev: Seq<u8>)
    requires
        short_entries(es),
        0 <= i <= es.len(),
        block.len() >= entries_bytes(es).len(),
        block.subrange(0, entries_bytes(es).len() as int) == entries_bytes(es),
    ensures
        block_entries_from(
            block,
            entries_bytes(es).len() as int,
            entries_bytes(es.take(i)).len() as int,
            prev,
            es.take(i),
        ) == Ok::<Seq<KeyValue>, VarintFault>(es),
    decreases es.len() - i,
{
    let limit = entries_bytes(es).len() as int;
    let pos = entries_bytes(es.take(i)).len() as int;
    if i == es.len() {
        assert(es.take(i) =~= es);
    } else {
        let e = es[i];
        let klen = e.0.len() as int;
        let vlen = e.1.len() as int;
        assert(e.0.len() < 128 && e.1.len() < 128);
        assert(es.take(i + 1).drop_last() =~= es.take(i));
        assert(es.take(i + 1).last() == e);
        let head = entries_bytes(es.take(i + 1));
        assert(head == entries_bytes(es.take(i)) + entry_bytes(e));
        let q = head.len() as int;
        assert(q == pos + 3 + klen + vlen);
        lemma_entries_bytes_prefix(es, i + 1, es.len() as int);
        assert(es.take(es.len() as int) =~= es);
        // the bytes of the block up to `q` are those of `head`
        assert forall|t: int| 0 <= t < q implies block[t] == head[t] by {
            assert(block.subrange(0, limit)[t] == block[t]);
            assert(entries_bytes(es).subrange(0, q)[t] == entries_bytes(es)[t]);
        }
        assert(block[pos] == 0u8);
        assert(block[pos + 1] == klen as u8);
        assert(block[pos + 2] == vlen as u8);
        lemma_small_varint(block, pos);
        lemma_small_varint(block, pos + 1);
        lemma_small_varint(block, pos + 2);
        let p3 = pos + 3;
        assert(block.subrange(p3, p3 + klen) =~= e.0) by {
            assert forall|t: int| 0 <= t < klen implies block.subrange(p3, p3 + klen)[t] == e.0[t] by {
                assert(block[p3 + t] == head[p3 + t]);
            }
        }
        assert(block.subrange(p3 + klen, q) =~= e.1) by {
            assert forall|t: int| 0 <= t < vlen implies block.subrange(p3 + klen, q)[t] == e.1[t] by {
                assert(block[p3 + klen + t] == head[p3 + klen + t]);
            }
        }
        lemma_entries_bytes_prefix(es, i, i + 1);
        assert(prev.take(0) + block.subrange(p3, p3 + klen) =~= e.0);
        assert(es.take(i).push((e.0, e.1)) =~= es.take(i + 1));
        lemma_decode_entries(block, es, i + 1, e.0);
    }
}

/// A block written from entries reads back as exactly those entries: for
/// entries with keys and values shorter than 128 bytes written one after
/// another without shared prefixes, followed by any restart array of `n`
/// four-byte offsets and the count `n`, the block's entries are the
/// written ones, in order. The entries end where the restart array begins,
/// `4 * n + 4` bytes before the end of the block.
pub proof fn lemma_block_roundtrip(es: Seq<KeyValue>, restarts: Seq<u8>, n: u32)
    requires
        short_entries(es),
        restarts.len() == 4 * n,
    ensures
        block_entries(entries_bytes(es) + restarts + le_bytes_u32(n)) == Ok::<Seq<KeyValue>, VarintFault>(es),
{
    let enc = entries_bytes(es);
    let nb = le_bytes_u32(n);
    let block = enc + restarts + nb;
    lemma_le_u32_roundtrip(n, nb);
    assert(block.subrange(block.len() - 4, block.len() as int) =~= nb);
    assert(block.subrange(0, enc.len() as int) =~= enc);
    assert(es.take(0) =~= Seq::<KeyValue>::empty());
    lemma_decode_entries(block, es, 0, Seq::empty());
}

/// Decodes the key-value entries of a table block.
pub fn parse_block_kvs(block_data: &[u8]) -> (res: Result<Vec<(Vec<u8>, Vec<u8>)>>)
    ensures
        match (res, block_entries(block_data@)) {
            (Ok(v), Ok(w)) => pairs_view(v@) == w,
            (Err(e), Err(f)) => varint_error(e, f),
            _ => false,
        },
{
    let len = block_data.len();
    if len < 4 {
        let v: Vec<(Vec<u8>, Vec<u8>)> = Vec::new();
        assert(pairs_view(v@) =~= Seq::empty());
        return Ok(v);
    }
    let num_restarts = read_u32_le(&block_data[len - 4..len]) as usize;
    if num_restarts > (len - 4) / 4 {
        let v: Vec<(Vec<u8>, Vec<u8>)> = Vec::new();
        assert(pairs_view(v@) =~= Seq::empty());
        return Ok(v);
    }
    let restarts_len = num_restarts * 4 + 4;
    let limit = len - restarts_len;
    let mut offset: usize = 0;
    let mut prev_key: Vec<u8> = Vec::new();
    let mut entries: Vec<(Vec<u8>, Vec<u8>)> = Vec::new();
    assert(pairs_view(entries@) =~= Seq::empty());
    while offset < limit
        invariant_except_break
            len == block_data@.len(),
            limit <= len,
            block_entries(block_data@) == block_entries_from(
                block_data@,
                limit as int,
                offset as int,
                prev_key@,
                pairs_view(entries@),
            ),
        ensures
            block_entries(block_data@) == Ok::<Seq<KeyValue>, VarintFault>(pairs_view(entries@)),
        decreases limit - offset,
    {
        let ghost pos = offset as int;
        proof {
            lemma_varint_advances(block_data@, pos, 0, 0);
        }
        let shared = match read_varint_u64(block_data, &mut offset) {
            Ok(v) => v as usize,
            Err(e) => return Err(e),
        };
        let ghost p1 = offset as int;
        proof {
            lemma_varint_advances(block_data@, p1, 0, 0);
        }
        let unshared = match read_varint_u64(block_data, &mut offset) {
            Ok(v) => v as usize,
            Err(e) => return Err(e),
        };
        let ghost p2 = offset as int;
        proof {
            lemma_varint_advances(block_data@, p2, 0, 0);
        }
        let val_len = match read_varint_u64(block_data, &mut offset) {
            Ok(v) => v as usize,
            Err(e) => return Err(e),
        };
        if offset > limit || unshared > limit - offset || val_len > limit - offset - unshared {
            break;
        }
        let mut key: Vec<u8> = Vec::new();
        if shared <= prev_key.len() {
            push_bytes(&mut key, &prev_key.as_slice()[0..shared]);
        }
        assert(key@ == (if shared as int <= prev_key@.len() {
            prev_key@.take(shared as int)
        } else {
            Seq::<u8>::empty()
        })) by {
            if shared as int <= prev_key@.len() {
                assert(prev_key@.subrange(0, shared as int) =~= prev_key@.take(shared as int));
            } else {
                assert(key@ =~= Seq::<u8>::empty());
            }
        }
        push_bytes(&mut key, &block_data[offset..offset + unshared]);
        offset = offset + unshared;
        let val = bytes_to_vec(&block_data[offset..offset + val_len]);
        offset = offset + val_len;
        prev_key = bytes_to_vec(key.as_slice());
        let ghost before = entries@;
        entries.push((key, val));
        assert(pairs_view(entries@) =~= pairs_view(before).push((key@, val@)));
    }
    Ok(entries)
}

/// The magic number that ends a table file.
pub open spec fn has_table_magic(data: Seq<u8>) -> bool {
    data.len() >= 8 && data.subrange(data.len() - 8, data.len() as int) == seq![
        0x57u8,
        0xfbu8,
        0x80u8,
        0x8bu8,
        0x24u8,
        0x75u8,
        0x47u8,
        0xdbu8,
    ]
}

/// The key under which a table entry is stored: its internal key without
/// the eight-byte sequence and type trailer (shorter keys are kept whole).
pub open spec fn user_key(k: Seq<u8>) -> Seq<u8> {
    if k.len() >= 8 {
        k.take(k.len() - 8)
    } else {
        k
    }
}

/// The stored entries of a data block's entries, keyed by user key.
pub open spec fn stored_entries(kvs: Seq<KeyValue>) -> Seq<KeyValue> {
    kvs.map_values(|e: KeyValue| (user_key(e.0), e.1))
}

/// The entries contributed by one index entry: the data block its value
/// points at, when the handle, the block and its entries all decode.
pub open spec fn index_entry_contribution(data: Seq<u8>, index_value: Seq<u8>) -> Seq<KeyValue> {
    match handle_at(index_value, 0) {
        Ok(((offset, size), _)) => match raw_block(data, offset, size) {
            Ok(block) => match block_entries(block) {
                Ok(kvs) => stored_entries(kvs),
                Err(_) => Seq::empty(),
            },
            Err(_) => Seq::empty(),
        },
        Err(_) => Seq::empty(),
    }
}

/// The entries contributed by the first `n` index entries, in order.
pub open spec fn contributions(data: Seq<u8>, index: Seq<KeyValue>, n: int) -> Seq<KeyValue>
    decreases n,
{
    if n <= 0 {
        Seq::empty()
    } else {
        contributions(data, index, n - 1) + index_entry_contribution(data, index[n - 1].1)
    }
}

/// The entries a table file stores, in the order they are read.
///
/// A file shorter than its 48-byte footer, or without the magic number,
/// stores nothing. The footer's two block handles must decode; after that
/// any index or data block that does not decode contributes nothing.
pub open spec fn table_entries(data: Seq<u8>) -> core::result::Result<Seq<KeyValue>, VarintFault> {
    if data.len() < 48 || !has_table_magic(data) {
        Ok(Seq::empty())
    } else {
        match handle_at(data, data.len() - 48) {
            Err((f, _)) => Err(f),
            Ok((_, p)) => match handle_at(data, p) {
                Err((f, _)) => Err(f),
                Ok(((offset, size), _)) => match raw_block(data, offset, size) {
                    Err(_) => Ok(Seq::empty()),
                    Ok(index_block) => match block_entries(index_block) {
                        Err(_) => Ok(Seq::empty()),
                        Ok(index) => Ok(contributions(data, index, index.len() as int)),
                    },
                },
            },
        }
    }
}

/// Appends the stored entries of a decoded data block to `batch`.
fn append_block_entries(batch: &mut Vec<(Vec<u8>, Vec<u8>)>, kvs: Vec<(Vec<u8>, Vec<u8>)>)
    ensures
        pairs_view(final(batch)@) == pairs_view(old(batch)@) + stored_entries(pairs_view(kvs@)),
{
    let ghost start = pairs_view(batch@);
    let ghost all = stored_entries(pairs_view(kvs@));
    let mut i: usize = 0;
    while i < kvs.len()
        invariant
            i <= kvs@.len(),
            all == stored_entries(pairs_view(kvs@)),
            pairs_view(batch@) == start + all.take(i as int),
        decreases kvs@.len() - i,
    {
        let k = &kvs[i].0;
        let v = &kvs[i].1;
        let user = if k.len() >= 8 {
            bytes_to_vec(&k.as_slice()[0..k.len() - 8])
        } else {
            bytes_to_vec(k.as_slice())
        };
        proof {
            if k@.len() >= 8 {
                assert(k@.subrange(0, k@.len() - 8) =~= k@.take(k@.len() - 8));
            }
            assert(all[i as int] == (user@, v@));
        }
        let ghost before = batch@;
        batch.push((user, bytes_to_vec(v.as_slice())));
        proof {
            assert(pairs_view(batch@) =~= pairs_view(before).push(all[i as int]));
            assert(all.take(i + 1) =~= all.take(i as int).push(all[i as int]));
        }
        i = i + 1;
    }
    assert(all.take(i as int) =~= all);
}

/// Reads the entries of a table file's bytes into `store`.
///
/// On success every entry the file stores has been inserted in order, a
/// later one replacing an earlier one with the same key. The only failure
/// is a malformed footer handle, and then `store` is unchanged.
pub fn read_sstable(data: &[u8], store: &mut EntryStore) -> (res: Result<()>)
    ensures
        match (res, table_entries(data@)) {
            (Ok(_), Ok(t)) => final(store)@ == insert_all(old(store)@, t),
            (Err(e), Err(f)) => varint_error(e, f) && final(store)@ == old(store)@,
            _ => false,
        },
{
    let len = data.len();
    if len < 48 {
        return Ok(());
    }
    let magic_ok = data[len - 8] == 0x57 && data[len - 7] == 0xfb && data[len - 6] == 0x80
        && data[len - 5] == 0x8b && data[len - 4] == 0x24 && data[len - 3] == 0x75 && data[len
        - 2] == 0x47 && data[len - 1] == 0xdb;
    assert(magic_ok == has_table_magic(data@)) by {
        let tail = data@.subrange(len - 8, len as int);
        let magic = seq![0x57u8, 0xfbu8, 0x80u8, 0x8bu8, 0x24u8, 0x75u8, 0x47u8, 0xdbu8];
        if magic_ok {
            assert(tail =~= magic);
        }
        if tail == magic {
            assert(tail[0] == data@[len - 8]);
            assert(tail[7] == data@[len - 1]);
        }
    }
    if !magic_ok {
        return Ok(());
    }
    let mut cursor = len - 48;
    let _metaindex_handle = match BlockHandle::read(data, &mut cursor) {
        Ok(h) => h,
        Err(e) => return Err(e),
    };
    let index_handle = match BlockHandle::read(data, &mut cursor) {
        Ok(h) => h,
        Err(e) => return Err(e),
    };
    let index_block_raw = match read_raw_block(data, &index_handle) {
        Ok(b) => b,
        Err(_) => return Ok(()),
    };
    let index_entries = match parse_block_kvs(index_block_raw.as_slice()) {
        Ok(e) => e,
        Err(_) => return Ok(()),
    };
    let ghost index = pairs_view(index_entries@);
    let mut batch: Vec<(Vec<u8>, Vec<u8>)> = Vec::new();
    assert(pairs_view(batch@) =~= contributions(data@, index, 0));
    let mut i: usize = 0;
    while i < index_entries.len()
        invariant
            i <= index_entries@.len(),
            index == pairs_view(index_entries@),
            pairs_view(batch@) == contributions(data@, index, i as int),
        decreases index_entries@.len() - i,
    {
        let val = &index_entries[i].1;
        assert(val@ == index[i as int].1);
        let ghost before = pairs_view(batch@);
        let ghost c = index_entry_contribution(data@, val@);
        let mut handle_cursor: usize = 0;
        match BlockHandle::read(val.as_slice(), &mut handle_cursor) {
            Ok(data_handle) => match read_raw_block(data, &data_handle) {
                Ok(data_block_raw) => match parse_block_kvs(data_block_raw.as_slice()) {
                    Ok(kvs) => {
                        append_block_entries(&mut batch, kvs);
                    },
                    Err(_) => {
                        assert(c =~= Seq::empty());
                    },
                },
                Err(_) => {
                    assert(c =~= Seq::empty());
                },
            },
            Err(_) => {
                assert(c =~= Seq::empty());
            },
        }
        proof {
            assert(contributions(data@, index, i + 1) == contributions(data@, index, i as int) + c);
            if c.len() == 0 {
                assert(before + c =~= before);
            }
        }
        i = i + 1;
    }
    store.insert_batch(batch);
    Ok(())
}

} // verus!
