use super::decompressor::{decompress_payload, payload_bytes};
use super::keys::{bytes_of_key, key_of_bytes, DbKey, Dimension, KeyTag};
use super::store::{has_key, EntryStore};
use crate::common::coordinates::ChunkPos;
use crate::common::error::Result;
use crate::subchunk::parser::{spec_subchunk, SubChunkModel, SubChunkParser};
use crate::subchunk::storage::SubChunk;
use std::path::PathBuf;
use vstd::prelude::*;

verus! {

#[verifier::external_type_specification]
#[verifier::external_body]
pub struct ExPathBuf(PathBuf);

/// The decoded records of one chunk column.
pub struct ChunkData {
    pub chunk_pos: ChunkPos,
    pub dimension: Dimension,
    pub version: Option<u8>,
    pub subchunks: Vec<(i8, SubChunk)>,
}

impl ChunkData {
    /// The subchunks with their vertical indices, as mathematical values.
    pub open spec fn subchunk_models(&self) -> Seq<(i8, SubChunkModel)> {
        self.subchunks@.map_values(|p: (i8, SubChunk)| (p.0, p.1.model()))
    }
}

/// The entries of a world database, and the directory they were read from.
pub struct WorldDb {
    entries: EntryStore,
    pub path: PathBuf,
}

/// The bytes of the key of a record of a chunk.
pub open spec fn record_key(pos: ChunkPos, dim: Dimension, tag: KeyTag, y: Option<i8>) -> Seq<u8> {
    bytes_of_key(DbKey { dimension: dim, chunk_pos: pos, tag, subchunk_y: y })
}

/// The decoded payload stored under `key`, if there is one and it decodes.
pub open spec fn stored_payload(m: Map<Seq<u8>, Seq<u8>>, key: Seq<u8>) -> Option<Seq<u8>> {
    if m.contains_key(key) {
        payload_bytes(m[key])
    } else {
        None
    }
}

/// The first byte of the decoded record `tag` of a chunk.
pub open spec fn version_record(m: Map<Seq<u8>, Seq<u8>>, pos: ChunkPos, dim: Dimension, tag: KeyTag) -> Option<u8> {
    match stored_payload(m, record_key(pos, dim, tag, None)) {
        Some(d) => if d.len() > 0 {
            Some(d[0])
        } else {
            None
        },
        None => None,
    }
}

/// A chunk's format version: from its `Data3D` record, else from its
/// `Version` record.
pub open spec fn chunk_version(m: Map<Seq<u8>, Seq<u8>>, pos: ChunkPos, dim: Dimension) -> Option<u8> {
    match version_record(m, pos, dim, KeyTag::Data3D) {
        Some(v) => Some(v),
        None => version_record(m, pos, dim, KeyTag::Version),
    }
}

/// The subchunk stored at vertical index `y` of a chunk, if it is there and
/// decodes.
pub open spec fn stored_subchunk(m: Map<Seq<u8>, Seq<u8>>, pos: ChunkPos, dim: Dimension, y: i8) -> Option<
    SubChunkModel,
> {
    match stored_payload(m, record_key(pos, dim, KeyTag::SubChunkPrefix, Some(y))) {
        Some(d) => match spec_subchunk(d) {
            Ok(s) => Some(s),
            Err(_) => None,
        },
        None => None,
    }
}

/// The lowest vertical subchunk index a dimension holds.
pub open spec fn lowest_subchunk(dim: Dimension) -> int {
    if dim == Dimension::Overworld {
        -4
    } else {
        0
    }
}

/// The highest vertical subchunk index a dimension holds.
pub open spec fn highest_subchunk(dim: Dimension) -> int {
    if dim == Dimension::Overworld {
        19
    } else {
        15
    }
}

/// The stored subchunks with index from `lo` up to but excluding `y`, in
/// increasing index order.
pub open spec fn subchunks_below(m: Map<Seq<u8>, Seq<u8>>, pos: ChunkPos, dim: Dimension, lo: int, y: int) -> Seq<
    (i8, SubChunkModel),
>
    decreases y - lo,
{
    if y <= lo {
        Seq::empty()
    } else {
        subchunks_below(m, pos, dim, lo, y - 1) + match stored_subchunk(m, pos, dim, (y - 1) as i8) {
            Some(s) => seq![((y - 1) as i8, s)],
            None => Seq::empty(),
        }
    }
}

/// Membership in the subchunk list of a chunk lookup: a pair `(y, s)` is
/// in it exactly when `y` lies in the range and the record stored for
/// subchunk `y` decompresses (as [`crate::leveldb::decompressor::decompress_payload`]
/// does) and decodes (as [`crate::subchunk::parser::SubChunkParser::parse`]
/// does) to `s`; the list holds each index once, in increasing order.
pub proof fn lemma_subchunks_below_members(
    m: Map<Seq<u8>, Seq<u8>>,
    pos: ChunkPos,
    dim: Dimension,
    lo: int,
    hi: int,
    y: i8,
    s: SubChunkModel,
)
    requires
        -128 <= lo,
        hi <= 128,
    ensures
        subchunks_below(m, pos, dim, lo, hi).contains((y, s)) <==> (lo <= y < hi && stored_subchunk(
            m,
            pos,
            dim,
            y,
        ) == Some(s)),
        forall|i: int, j: int|
            0 <= i < j < subchunks_below(m, pos, dim, lo, hi).len() ==> (#[trigger] subchunks_below(m, pos, dim, lo, hi)[i]).0
                < (#[trigger] subchunks_below(m, pos, dim, lo, hi)[j]).0,
        forall|i: int|
            0 <= i < subchunks_below(m, pos, dim, lo, hi).len() ==> lo <= (#[trigger] subchunks_below(m, pos, dim, lo, hi)[i]).0
                < hi,
    decreases hi - lo,
{
    if hi > lo {
        let prev = subchunks_below(m, pos, dim, lo, hi - 1);
        let cur = subchunks_below(m, pos, dim, lo, hi);
        lemma_subchunks_below_members(m, pos, dim, lo, hi - 1, y, s);
        let top = (hi - 1) as i8;
        assert(top as int == hi - 1);
        match stored_subchunk(m, pos, dim, top) {
            Some(t) => {
                assert(cur == prev + seq![(top, t)]);
                if cur.contains((y, s)) {
                    let k = choose|k: int| 0 <= k < cur.len() && cur[k] == (y, s);
                    if k < prev.len() {
                        assert(prev[k] == (y, s));
                    }
                }
                if prev.contains((y, s)) {
                    let k = choose|k: int| 0 <= k < prev.len() && prev[k] == (y, s);
                    assert(cur[k] == (y, s));
                }
                if y as int == hi - 1 && stored_subchunk(m, pos, dim, y) == Some(s) {
                    assert(cur[prev.len() as int] == (y, s));
                }
                assert forall|i: int| 0 <= i < cur.len() implies lo <= #[trigger] cur[i].0 < hi by {
                    if i < prev.len() {
                        assert(cur[i] == prev[i]);
                    }
                }
                assert forall|i: int, j: int| 0 <= i < j < cur.len() implies (#[trigger] cur[i]).0 < (#[trigger] cur[j]).0 by {
                    assert(cur[i] == prev[i]);
                    if j < prev.len() {
                        assert(cur[j] == prev[j]);
                    }
                }
            },
            None => {
                assert(cur =~= prev);
            },
        }
    }
}

/// Chunk columns are ordered by `x`, then by `z`.
pub open spec fn chunk_lt(a: ChunkPos, b: ChunkPos) -> bool {
    a.x < b.x || (a.x == b.x && a.z < b.z)
}

/// `k` decodes to a key of dimension `dim` in chunk `c`.
pub open spec fn key_in_chunk(k: Seq<u8>, dim: Dimension, c: ChunkPos) -> bool {
    key_of_bytes(k) matches Ok(dk) && dk.dimension == dim && dk.chunk_pos == c
}

/// A key of `m` decodes to a key of dimension `dim` in chunk `c`.
pub open spec fn stores_chunk(m: Map<Seq<u8>, Seq<u8>>, dim: Dimension, c: ChunkPos) -> bool {
    exists|k: Seq<u8>|
        m.contains_key(k) && #[trigger] key_in_chunk(k, dim, c)
}

/// The chunk columns of `s` strictly increase.
pub open spec fn chunks_sorted(s: Seq<ChunkPos>) -> bool {
    forall|i: int, j: int| 0 <= i < j < s.len() ==> chunk_lt(s[i], s[j])
}

/// `d` is among the first `n` chunk columns of `s`.
pub open spec fn among_first(s: Seq<ChunkPos>, n: int, d: ChunkPos) -> bool {
    exists|k: int| 0 <= k < n && s[k] == d
}

proof fn lemma_among_step(s: Seq<ChunkPos>, n: int, d: ChunkPos)
    requires
        0 <= n < s.len(),
    ensures
        among_first(s, n + 1, d) <==> (among_first(s, n, d) || s[n] == d),
{
    if among_first(s, n + 1, d) && s[n] != d {
        let k = choose|k: int| 0 <= k < n + 1 && s[k] == d;
        assert(among_first(s, n, d));
    }
    if among_first(s, n, d) {
        let k = choose|k: int| 0 <= k < n && s[k] == d;
        assert(among_first(s, n + 1, d));
    }
    if s[n] == d {
        assert(among_first(s, n + 1, d));
    }
}

proof fn lemma_among_all(s: Seq<ChunkPos>, d: ChunkPos)
    ensures
        among_first(s, s.len() as int, d) <==> s.contains(d),
{
}

proof fn lemma_contains_push(s: Seq<ChunkPos>, c: ChunkPos, d: ChunkPos)
    ensures
        s.push(c).contains(d) <==> (s.contains(d) || d == c),
{
    if s.push(c).contains(d) && d != c {
        let k = choose|k: int| 0 <= k < s.len() + 1 && s.push(c)[k] == d;
        assert(s[k] == d);
    }
    if s.contains(d) {
        let k = choose|k: int| 0 <= k < s.len() && s[k] == d;
        assert(s.push(c)[k] == d);
    }
    if d == c {
        assert(s.push(c)[s.len() as int] == d);
    }
}

proof fn lemma_sorted_push(s: Seq<ChunkPos>, c: ChunkPos)
    requires
        chunks_sorted(s),
        s.len() > 0 ==> chunk_lt(s.last(), c),
    ensures
        chunks_sorted(s.push(c)),
{
    assert forall|p: int, q: int| 0 <= p < q < s.len() + 1 implies chunk_lt(s.push(c)[p], s.push(c)[q]) by {
        if q == s.len() && p < s.len() - 1 {
            assert(chunk_lt(s[p], s[s.len() - 1]));
        }
    }
}

/// Merges two strictly increasing lists into one, each column once.
fn merge_chunks(a: &Vec<ChunkPos>, b: &Vec<ChunkPos>) -> (res: Vec<ChunkPos>)
    requires
        chunks_sorted(a@),
        chunks_sorted(b@),
    ensures
        chunks_sorted(res@),
        forall|d: ChunkPos| res@.contains(d) <==> (a@.contains(d) || b@.contains(d)),
{
    let mut out: Vec<ChunkPos> = Vec::new();
    let mut i: usize = 0;
    let mut j: usize = 0;
    while i < a.len() || j < b.len()
        invariant
            i <= a@.len(),
            j <= b@.len(),
            chunks_sorted(a@),
            chunks_sorted(b@),
            chunks_sorted(out@),
            out@.len() > 0 && i < a@.len() ==> chunk_lt(out@.last(), a@[i as int]),
            out@.len() > 0 && j < b@.len() ==> chunk_lt(out@.last(), b@[j as int]),
            forall|d: ChunkPos| #[trigger] out@.contains(d) <==> (among_first(a@, i as int, d) || among_first(b@, j as int, d)),
        decreases a@.len() + b@.len() - i - j,
    {
        let ghost before = out@;
        if j >= b.len() || (i < a.len() && (a[i].x < b[j].x || (a[i].x == b[j].x && a[i].z < b[j].z))) {
            let c = a[i];
            proof {
                lemma_sorted_push(before, c);
                assert forall|d: ChunkPos| #[trigger] before.push(c).contains(d) <==> (among_first(a@, i + 1, d)
                    || among_first(b@, j as int, d)) by {
                    lemma_contains_push(before, c, d);
                    lemma_among_step(a@, i as int, d);
                }
            }
            out.push(c);
            i = i + 1;
        } else if i >= a.len() || (b[j].x < a[i].x || (b[j].x == a[i].x && b[j].z < a[i].z)) {
            let c = b[j];
            proof {
                lemma_sorted_push(before, c);
                assert forall|d: ChunkPos| #[trigger] before.push(c).contains(d) <==> (among_first(a@, i as int, d)
                    || among_first(b@, j + 1, d)) by {
                    lemma_contains_push(before, c, d);
                    lemma_among_step(b@, j as int, d);
                }
            }
            out.push(c);
            j = j + 1;
        } else {
            let c = a[i];
            proof {
                assert(c == b@[j as int]);
                lemma_sorted_push(before, c);
                assert forall|d: ChunkPos| #[trigger] before.push(c).contains(d) <==> (among_first(a@, i + 1, d)
                    || among_first(b@, j + 1, d)) by {
                    lemma_contains_push(before, c, d);
                    lemma_among_step(a@, i as int, d);
                    lemma_among_step(b@, j as int, d);
                }
            }
            out.push(c);
            i = i + 1;
            j = j + 1;
        }
    }
    proof {
        assert forall|d: ChunkPos| out@.contains(d) <==> (a@.contains(d) || b@.contains(d)) by {
            lemma_among_all(a@, d);
            lemma_among_all(b@, d);
        }
    }
    out
}

/// The distinct chunk columns of `v` in increasing order.
fn sort_chunks(v: Vec<ChunkPos>) -> (res: Vec<ChunkPos>)
    ensures
        chunks_sorted(res@),
        forall|d: ChunkPos| res@.contains(d) <==> v@.contains(d),
    decreases v@.len(),
{
    if v.len() <= 1 {
        return v;
    }
    let ghost all = v@;
    let mut left = v;
    let mid = left.len() / 2;
    let right = left.split_off(mid);
    assert(all =~= left@ + right@);
    let l = sort_chunks(left);
    let r = sort_chunks(right);
    let res = merge_chunks(&l, &r);
    proof {
        assert forall|d: ChunkPos| res@.contains(d) <==> all.contains(d) by {
            if all.contains(d) {
                let k = choose|k: int| 0 <= k < all.len() && all[k] == d;
                if k < mid {
                    assert(left@[k] == d);
                } else {
                    assert(right@[k - mid] == d);
                }
            }
            if left@.contains(d) {
                let k = choose|k: int| 0 <= k < left@.len() && left@[k] == d;
                assert(all[k] == d);
            }
            if right@.contains(d) {
                let k = choose|k: int| 0 <= k < right@.len() && right@[k] == d;
                assert(all[k + mid] == d);
            }
        }
    }
    res
}

impl WorldDb {
    /// The stored key-value map.
    pub closed spec fn records(&self) -> Map<Seq<u8>, Seq<u8>> {
        self.entries@
    }

    /// The directory the entries were read from: the `path` field.
    pub closed spec fn directory(&self) -> PathBuf {
        self.path
    }

    /// A database over the given entries.
    pub fn new(entries: EntryStore, path: PathBuf) -> (res: Self)
        ensures
            res.records() == entries@,
            res.directory() == path,
    {
        Self { entries, path }
    }

    /// The stored entries.
    pub fn entries(&self) -> (res: &EntryStore)
        ensures
            res@ == self.records(),
    {
        &self.entries
    }

    /// The chunk columns of `dimension` that have at least one record, in
    /// increasing `(x, z)` order, each once.
    pub fn scan_chunks(&self, dimension: Dimension) -> (res: Vec<ChunkPos>)
        ensures
            forall|i: int, j: int| 0 <= i < j < res@.len() ==> chunk_lt(res@[i], res@[j]),
            forall|c: ChunkPos| res@.contains(c) <==> stores_chunk(self.records(), dimension, c),
    {
        let n = self.entries.len();
        let mut found: Vec<ChunkPos> = Vec::new();
        let mut i: usize = 0;
        while i < n
            invariant
                n == self.entries.entries().len(),
                forall|k: Seq<u8>| #[trigger] self.entries@.contains_key(k) <==> has_key(self.entries.entries(), k),
                i <= n,
                forall|c: ChunkPos| found@.contains(c) <==> exists|j: int|
                    0 <= j < i && #[trigger] key_in_chunk(self.entries.entries()[j].0@, dimension, c),
            decreases n - i,
        {
            let (k, _) = self.entries.entry_at(i);
            let ghost found_before = found@;
            match DbKey::parse(k.as_slice()) {
                Ok(key) => {
                    if key.dimension == dimension {
                        found.push(key.chunk_pos);
                    }
                },
                Err(_) => {},
            }
            proof {
                assert forall|c: ChunkPos| found@.contains(c) <==> exists|j: int|
                    0 <= j < i + 1 && #[trigger] key_in_chunk(self.entries.entries()[j].0@, dimension, c) by {
                    if found@.contains(c) && !found_before.contains(c) {
                        let w = choose|w: int| 0 <= w < found@.len() && found@[w] == c;
                        assert(w == found_before.len());
                        assert(key_in_chunk(self.entries.entries()[i as int].0@, dimension, c));
                    }
                    if found_before.contains(c) {
                        let w = choose|w: int| 0 <= w < found_before.len() && found_before[w] == c;
                        assert(found@[w] == c);
                    }
                    if key_in_chunk(self.entries.entries()[i as int].0@, dimension, c) {
                        assert(found@[found@.len() - 1] == c);
                    }
                }
            }
            i = i + 1;
        }
        let list = sort_chunks(found);
        proof {
            assert forall|c: ChunkPos| list@.contains(c) <==> stores_chunk(self.records(), dimension, c) by {
                if list@.contains(c) {
                    let j = choose|j: int|
                        0 <= j < n && #[trigger] key_in_chunk(self.entries.entries()[j].0@, dimension, c);
                    let k = self.entries.entries()[j].0@;
                    assert(has_key(self.entries.entries(), k));
                    assert(self.entries@.contains_key(k));
                }
                if stores_chunk(self.records(), dimension, c) {
                    let k = choose|k: Seq<u8>|
                        self.records().contains_key(k) && #[trigger] key_in_chunk(k, dimension, c);
                    assert(self.entries@.contains_key(k));
                    assert(has_key(self.entries.entries(), k));
                    let j = choose|j: int| 0 <= j < n && self.entries.entries()[j].0@ == k;
                    assert(key_in_chunk(self.entries.entries()[j].0@, dimension, c));
                }
            }
        }
        list
    }

    /// The first byte of the decoded record `tag` of a chunk.
    fn read_version(&self, chunk_pos: ChunkPos, dimension: Dimension, tag: KeyTag) -> (res: Option<u8>)
        ensures
            res == version_record(self.records(), chunk_pos, dimension, tag),
    {
        let key = DbKey { dimension, chunk_pos, tag, subchunk_y: None };
        let kb = key.to_bytes();
        match self.entries.get(kb.as_slice()) {
            Some(raw) => match decompress_payload(raw.as_slice()) {
                Ok(d) => if d.len() > 0 {
                    Some(d[0])
                } else {
                    None
                },
                Err(_) => None,
            },
            None => None,
        }
    }

    /// Decodes the records of a chunk column: its format version and every
    /// subchunk in the dimension's vertical range (-4..=19 in the
    /// overworld, 0..=15 elsewhere) that is stored and decodes, in
    /// increasing order of index. Records that are missing or do not decode
    /// are left out.
    pub fn get_chunk(&self, chunk_pos: ChunkPos, dimension: Dimension) -> (res: Result<ChunkData>)
        ensures
            res is Ok,
            res matches Ok(c) ==> {
                &&& c.chunk_pos == chunk_pos
                &&& c.dimension == dimension
                &&& c.version == chunk_version(self.records(), chunk_pos, dimension)
                &&& c.subchunk_models() == subchunks_below(
                    self.records(),
                    chunk_pos,
                    dimension,
                    lowest_subchunk(dimension),
                    highest_subchunk(dimension) + 1,
                )
            },
            res matches Ok(c) ==> forall|y: i8, s: SubChunkModel|
                #[trigger] c.subchunk_models().contains((y, s)) <==> ((if dimension == Dimension::Overworld {
                    -4 <= y <= 19
                } else {
                    0 <= y <= 15
                }) && stored_subchunk(self.records(), chunk_pos, dimension, y) == Some(s)),
            res matches Ok(c) ==> forall|i: int, j: int|
                0 <= i < j < c.subchunks@.len() ==> (#[trigger] c.subchunks@[i]).0 < (#[trigger] c.subchunks@[j]).0,
    {
        let version = match self.read_version(chunk_pos, dimension, KeyTag::Data3D) {
            Some(v) => Some(v),
            None => self.read_version(chunk_pos, dimension, KeyTag::Version),
        };
        let (min_y, max_y): (i16, i16) = match dimension {
            Dimension::Overworld => (-4, 19),
            Dimension::Nether | Dimension::TheEnd => (0, 15),
        };
        let mut subchunks: Vec<(i8, SubChunk)> = Vec::new();
        let mut sub_y: i16 = min_y;
        assert(subchunks@.map_values(|p: (i8, SubChunk)| (p.0, p.1.model())) =~= Seq::empty());
        while sub_y <= max_y
            invariant
                min_y == lowest_subchunk(dimension),
                max_y == highest_subchunk(dimension),
                min_y <= sub_y <= max_y + 1,
                subchunks@.map_values(|p: (i8, SubChunk)| (p.0, p.1.model())) == subchunks_below(
                    self.records(),
                    chunk_pos,
                    dimension,
                    min_y as int,
                    sub_y as int,
                ),
            decreases max_y + 1 - sub_y,
        {
            let y = sub_y as i8;
            let key = DbKey { dimension, chunk_pos, tag: KeyTag::SubChunkPrefix, subchunk_y: Some(y) };
            let kb = key.to_bytes();
            let ghost before = subchunks@;
            match self.entries.get(kb.as_slice()) {
                Some(raw) => match decompress_payload(raw.as_slice()) {
                    Ok(decompressed) => match SubChunkParser::parse(decompressed.as_slice()) {
                        Ok(subchunk) => {
                            subchunks.push((y, subchunk));
                            assert(subchunks@.map_values(|p: (i8, SubChunk)| (p.0, p.1.model())) =~= before.map_values(
                                |p: (i8, SubChunk)| (p.0, p.1.model()),
                            ) + seq![(y, subchunk.model())]);
                        },
                        Err(_) => {},
                    },
                    Err(_) => {},
                },
                None => {},
            }
            proof {
                if subchunks@ == before {
                    assert(before.map_values(|p: (i8, SubChunk)| (p.0, p.1.model())) + Seq::empty() =~= before.map_values(
                        |p: (i8, SubChunk)| (p.0, p.1.model()),
                    ));
                }
            }
            sub_y = sub_y + 1;
        }
        let res = ChunkData { chunk_pos, dimension, version, subchunks };
        proof {
            let m = self.records();
            let lo = lowest_subchunk(dimension);
            let hi = highest_subchunk(dimension) + 1;
            assert forall|y: i8, s: SubChunkModel| #[trigger] res.subchunk_models().contains((y, s)) <==> ((
            if dimension == Dimension::Overworld {
                -4 <= y <= 19
            } else {
                0 <= y <= 15
            }) && stored_subchunk(m, chunk_pos, dimension, y) == Some(s)) by {
                lemma_subchunks_below_members(m, chunk_pos, dimension, lo, hi, y, s);
            }
            lemma_subchunks_below_members(m, chunk_pos, dimension, lo, hi, 0, arbitrary());
            assert forall|i: int, j: int| 0 <= i < j < res.subchunks@.len() implies (
            #[trigger] res.subchunks@[i]).0 < (#[trigger] res.subchunks@[j]).0 by {
                assert(res.subchunk_models()[i].0 == res.subchunks@[i].0);
                assert(res.subchunk_models()[j].0 == res.subchunks@[j].0);
            }
        }
        Ok(res)
    }
}

} // verus!
