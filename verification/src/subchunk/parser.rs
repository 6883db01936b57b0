use super::palette::{block_model_of, BlockState, BlockStateModel, Palette};
use super::storage::{SubChunk, SubChunkStorage};
use crate::common::binary::{le_u32, read_u32_le};
use crate::common::error::AmberError;
use crate::common::text::{decimal_string, decimal_text};
use crate::nbt::reader::{describes, remaining, rest, slice_from, spec_root, NbtFault, NbtReader};
use vstd::prelude::*;

verus! {

/// The mathematical content of one storage layer.
pub struct LayerModel {
    pub blocks: Seq<u16>,
    pub palette: Seq<BlockStateModel>,
}

/// The mathematical content of a subchunk.
pub struct SubChunkModel {
    pub version: u8,
    pub subchunk_y: Option<i8>,
    pub layers: Seq<LayerModel>,
}

impl SubChunkStorage {
    pub open spec fn model(&self) -> LayerModel {
        LayerModel {
            blocks: self.blocks@,
            palette: self.palette@.map_values(|b: BlockState| b.model()),
        }
    }
}

impl SubChunk {
    pub open spec fn model(&self) -> SubChunkModel {
        SubChunkModel {
            version: self.version,
            subchunk_y: self.subchunk_y,
            layers: self.layers@.map_values(|s: SubChunkStorage| s.model()),
        }
    }
}

/// Why decoding a subchunk stopped.
pub enum SubChunkFault {
    Underflow { needed: usize, remaining: usize },
    UnsupportedVersion(u8),
    /// A layer whose palette is given by runtime ids.
    RuntimePalette,
    /// A layer that declares 32 or more bits per block.
    WideLayer(u8),
    /// A palette entry that is not well-formed NBT.
    Nbt(NbtFault),
    /// A palette entry without a block name.
    MissingName,
}

/// The error value that reports `f`.
pub open spec fn describes_fault(e: AmberError, f: SubChunkFault) -> bool {
    match f {
        SubChunkFault::Underflow { needed, remaining } => e == AmberError::BufferUnderflow {
            needed,
            remaining,
        },
        SubChunkFault::UnsupportedVersion(v) => e == AmberError::UnsupportedSubChunkVersion(v),
        SubChunkFault::RuntimePalette => e matches AmberError::CorruptSubChunk(m) && m@
            == "runtime palette not supported in persistent leveldb parser"@,
        SubChunkFault::WideLayer(bits) => e matches AmberError::CorruptSubChunk(m) && m@
            == "unsupported bits per block: "@ + decimal_text(bits as nat),
        SubChunkFault::Nbt(g) => describes(e, g),
        SubChunkFault::MissingName => e matches AmberError::NbtError(m) && m@
            == "palette compound tag missing block name"@,
    }
}

/// Mask of the low `bits` bits.
pub open spec fn low_mask(bits: u32) -> u32 {
    ((1u32 << bits) - 1) as u32
}

/// Indices packed per 32-bit word at `bits` bits each.
pub open spec fn per_word(bits: int) -> int {
    32int / bits
}

/// Words that hold 4096 indices at `bits` bits each.
pub open spec fn word_count(bits: int) -> int {
    (4096 + per_word(bits) - 1) / per_word(bits)
}

/// Index `k` of a packed block array that starts at `pos`: word `k / n` of
/// the little-endian words, bit field `k % n` counted from the low end,
/// where `n = 32 / bits` fields fit in a word.
pub open spec fn packed_index(data: Seq<u8>, pos: int, bits: int, k: int) -> u16 {
    let word = le_u32(rest(data, pos + 4 * (k / per_word(bits))));
    ((word >> (((k % per_word(bits)) * bits) as u32)) & low_mask(bits as u32)) as u16
}

/// The block indices of a layer with header `header` whose packed words
/// start at `pos`, and the position after them.
pub open spec fn spec_block_words(data: Seq<u8>, pos: int, bits: int) -> Result<(Seq<u16>, int), SubChunkFault> {
    if bits == 0 {
        Ok((Seq::new(4096, |k: int| 0u16), pos))
    } else if bits >= 32 {
        Err(SubChunkFault::WideLayer(bits as u8))
    } else {
        let needed = word_count(bits) * 4;
        if remaining(data, pos) < needed {
            Err(SubChunkFault::Underflow { needed: needed as usize, remaining: remaining(data, pos) as usize })
        } else {
            Ok((Seq::new(4096, |k: int| packed_index(data, pos, bits, k)), pos + needed))
        }
    }
}

/// `count` palette entries from `pos`, each a root NBT compound that names a
/// block, appended to `acc`.
pub open spec fn spec_entries_from(data: Seq<u8>, pos: int, count: nat, acc: Seq<BlockStateModel>) -> Result<
    (Seq<BlockStateModel>, int),
    SubChunkFault,
>
    decreases count,
{
    if count == 0 {
        Ok((acc, pos))
    } else {
        match spec_root(rest(data, pos), 0) {
            Err(f) => Err(SubChunkFault::Nbt(f)),
            Ok(((_, v), used)) => match block_model_of(v) {
                None => Err(SubChunkFault::MissingName),
                Some(b) => spec_entries_from(data, pos + used, (count - 1) as nat, acc.push(b)),
            },
        }
    }
}

/// A palette: a little-endian `i32` entry count (taken as `usize`), then
/// the entries.
pub open spec fn spec_palette(data: Seq<u8>, pos: int) -> Result<(Seq<BlockStateModel>, int), SubChunkFault> {
    if remaining(data, pos) < 4 {
        Err(SubChunkFault::Underflow { needed: 4, remaining: remaining(data, pos) as usize })
    } else {
        let count = ((le_u32(rest(data, pos)) as i32) as usize) as nat;
        spec_entries_from(data, pos + 4, count, Seq::empty())
    }
}

/// A storage layer at `pos`: a header byte (bit 0: runtime palette, bits
/// 1..7: bits per block), the packed indices, then the palette.
#[verifier::opaque]
pub open spec fn spec_layer(data: Seq<u8>, pos: int) -> Result<(LayerModel, int), SubChunkFault> {
    if !(0 <= pos < data.len()) {
        Err(SubChunkFault::Underflow { needed: 1, remaining: 0 })
    } else {
        let header = data[pos];
        let bits = (header / 2) as int;
        match spec_block_words(data, pos + 1, bits) {
            Err(f) => Err(f),
            Ok((blocks, p)) => if header % 2 == 1 {
                Err(SubChunkFault::RuntimePalette)
            } else {
                match spec_palette(data, p) {
                    Err(f) => Err(f),
                    Ok((palette, p2)) => Ok((LayerModel { blocks, palette }, p2)),
                }
            },
        }
    }
}

/// `count` storage layers from `pos`, appended to `acc`.
pub open spec fn spec_layers_from(data: Seq<u8>, pos: int, count: nat, acc: Seq<LayerModel>) -> Result<
    Seq<LayerModel>,
    SubChunkFault,
>
    decreases count,
{
    if count == 0 {
        Ok(acc)
    } else {
        match spec_layer(data, pos) {
            Err(f) => Err(f),
            Ok((layer, p)) => spec_layers_from(data, p, (count - 1) as nat, acc.push(layer)),
        }
    }
}

/// The distinct values of `ids[0..n]`, in order of first occurrence.
pub open spec fn first_seen(ids: Seq<u8>, n: int) -> Seq<u8>
    decreases n,
{
    if n <= 0 {
        Seq::empty()
    } else {
        let d = first_seen(ids, n - 1);
        if d.contains(ids[n - 1]) {
            d
        } else {
            d.push(ids[n - 1])
        }
    }
}

/// The position of `x` in `d`.
pub open spec fn position_of(d: Seq<u8>, x: u8) -> int {
    choose|j: int| 0 <= j < d.len() && d[j] == x
}

/// The block state that stands for a legacy numeric block id.
pub open spec fn legacy_state(id: u8) -> BlockStateModel {
    BlockStateModel { name: "legacy:id_"@ + decimal_text(id as nat), states: Map::empty(), version: 0 }
}

/// A legacy layout: 4096 block id bytes after the version byte, then 2048
/// bytes of block data that are skipped. The palette lists the distinct
/// ids in order of first occurrence.
pub open spec fn spec_legacy(data: Seq<u8>) -> Result<SubChunkModel, SubChunkFault> {
    if remaining(data, 1) < 6144 {
        Err(SubChunkFault::Underflow { needed: 6144, remaining: remaining(data, 1) as usize })
    } else {
        let ids = data.subrange(1, 4097);
        let d = first_seen(ids, 4096);
        Ok(
            SubChunkModel {
                version: 1,
                subchunk_y: None,
                layers: seq![
                    LayerModel {
                        blocks: Seq::new(4096, |i: int| position_of(d, ids[i]) as u16),
                        palette: d.map_values(|id: u8| legacy_state(id)),
                    },
                ],
            },
        )
    }
}

/// The paletted layouts 8 and 9: a layer count byte, for layout 9 a byte
/// with the subchunk's vertical index, then the layers.
pub open spec fn spec_paletted(data: Seq<u8>, version: u8) -> Result<SubChunkModel, SubChunkFault> {
    if data.len() <= 1 {
        Err(SubChunkFault::Underflow { needed: 1, remaining: 0 })
    } else if version == 9 && data.len() <= 2 {
        Err(SubChunkFault::Underflow { needed: 1, remaining: 0 })
    } else {
        let count = data[1];
        let y = if version == 9 {
            Some(data[2] as i8)
        } else {
            None
        };
        let start = if version == 9 {
            3int
        } else {
            2int
        };
        match spec_layers_from(data, start, count as nat, Seq::empty()) {
            Err(f) => Err(f),
            Ok(layers) => Ok(SubChunkModel { version, subchunk_y: y, layers }),
        }
    }
}

/// A subchunk payload: a layout version byte, then the layout.
pub open spec fn spec_subchunk(data: Seq<u8>) -> Result<SubChunkModel, SubChunkFault> {
    if data.len() == 0 {
        Err(SubChunkFault::Underflow { needed: 1, remaining: 0 })
    } else if data[0] == 8 || data[0] == 9 {
        spec_paletted(data, data[0])
    } else if data[0] == 1 {
        spec_legacy(data)
    } else {
        Err(SubChunkFault::UnsupportedVersion(data[0]))
    }
}

/// Decoder of the subchunk payloads stored in a world database.
pub struct SubChunkParser;

proof fn lemma_shift_step(word: u32, s: u32, bits: u32)
    requires
        1 <= bits < 32,
        s + bits <= 32,
    ensures
        (word >> s) >> bits == word >> ((s + bits) as u32),
{
    assert((word >> s) >> bits == word >> ((s + bits) as u32)) by (bit_vector)
        requires
            1 <= bits < 32,
            s + bits <= 32,
    ;
}

proof fn lemma_div_mod_step(w: int, n: int, j: int)
    requires
        0 <= w,
        0 <= j < n,
    ensures
        (w * n + j) / n == w,
        (w * n + j) % n == j,
{
    vstd::arithmetic::div_mod::lemma_fundamental_div_mod_converse(w * n + j, n, w, j);
}

proof fn lemma_word_count(bits: int)
    requires
        1 <= bits < 32,
    ensures
        1 <= per_word(bits) <= 32,
        per_word(bits) * bits <= 32,
        1 <= word_count(bits) <= 4096,
        word_count(bits) * per_word(bits) >= 4096,
        (word_count(bits) - 1) * per_word(bits) < 4096,
{
    let n = per_word(bits);
    assert(1 <= n <= 32 && n * bits <= 32) by (nonlinear_arith)
        requires
            1 <= bits < 32,
            n == 32int / bits,
    ;
    let w = word_count(bits);
    assert(w * n >= 4096 && (w - 1) * n < 4096 && 1 <= w <= 4096) by (nonlinear_arith)
        requires
            1 <= n <= 32,
            w == (4096 + n - 1) / n,
    ;
}

impl SubChunkParser {
    /// Decodes a subchunk payload.
    ///
    /// Layouts 8 and 9 hold paletted layers; layout 1 holds legacy block ids.
    /// A layer that declares 32 or more bits per block is reported as
    /// corrupt.
    pub fn parse(data: &[u8]) -> (res: Result<SubChunk, AmberError>)
        ensures
            match (res, spec_subchunk(data@)) {
                (Ok(s), Ok(m)) => s.model() == m,
                (Err(e), Err(f)) => describes_fault(e, f),
                _ => false,
            },
    {
        if data.len() == 0 {
            return Err(AmberError::BufferUnderflow { needed: 1, remaining: 0 });
        }
        let version = data[0];
        if version == 8 || version == 9 {
            Self::parse_v8_v9(data, version)
        } else if version == 1 {
            Self::parse_v1_legacy(data)
        } else {
            Err(AmberError::UnsupportedSubChunkVersion(version))
        }
    }

    fn parse_v8_v9(data: &[u8], version: u8) -> (res: Result<SubChunk, AmberError>)
        requires
            data@.len() >= 1,
            version == 8 || version == 9,
        ensures
            match (res, spec_paletted(data@, version)) {
                (Ok(s), Ok(m)) => s.model() == m,
                (Err(e), Err(f)) => describes_fault(e, f),
                _ => false,
            },
    {
        if 1 >= data.len() {
            return Err(AmberError::BufferUnderflow { needed: 1, remaining: 0 });
        }
        let storage_count = data[1];
        let mut offset: usize = 2;
        let subchunk_y = if version == 9 {
            if offset >= data.len() {
                return Err(AmberError::BufferUnderflow { needed: 1, remaining: 0 });
            }
            let y = data[offset] as i8;
            offset = offset + 1;
            Some(y)
        } else {
            None
        };
        let mut layers: Vec<SubChunkStorage> = Vec::new();
        assert(layers@.map_values(|s: SubChunkStorage| s.model()) =~= Seq::empty());
        assert(offset == if version == 9 { 3int } else { 2int });
        let mut i: u8 = 0;
        while i < storage_count
            invariant
                offset <= data@.len(),
                version == 8 || version == 9,
                data@.len() > 1,
                version == 9 ==> data@.len() > 2 && subchunk_y == Some(data@[2] as i8),
                version == 8 ==> subchunk_y is None,
                storage_count == data@[1],
                i <= storage_count,
                spec_layers_from(data@, if version == 9 { 3int } else { 2int }, storage_count as nat, Seq::empty())
                    == spec_layers_from(
                    data@,
                    offset as int,
                    (storage_count - i) as nat,
                    layers@.map_values(|s: SubChunkStorage| s.model()),
                ),
            decreases storage_count - i,
        {
            match Self::parse_storage_layer(data, offset) {
                Err(e) => {
                    proof {
                        let acc = layers@.map_values(|s: SubChunkStorage| s.model());
                        let f = spec_layer(data@, offset as int)->Err_0;
                        assert(spec_layers_from(data@, offset as int, (storage_count - i) as nat, acc) == Err::<Seq<LayerModel>, SubChunkFault>(f));
                        assert(spec_paletted(data@, version) == Err::<SubChunkModel, SubChunkFault>(f));
                        assert(describes_fault(e, f));
                    }
                    return Err(e);
                },
                Ok((layer, p)) => {
                    let ghost before = layers@;
                    layers.push(layer);
                    assert(layers@.map_values(|s: SubChunkStorage| s.model()) =~= before.map_values(
                        |s: SubChunkStorage| s.model(),
                    ).push(layer.model()));
                    offset = p;
                },
            }
            i = i + 1;
        }
        Ok(SubChunk { version, subchunk_y, layers })
    }

    /// Unpacks `bits`-bit block indices from the little-endian words at
    /// `pos`.
    fn unpack_words(data: &[u8], pos: usize, bits: u32) -> (res: [u16; 4096])
        requires
            1 <= bits < 32,
            pos + word_count(bits as int) * 4 <= data@.len(),
        ensures
            res@ == Seq::new(4096, |k: int| packed_index(data@, pos as int, bits as int, k)),
    {
        proof {
            lemma_word_count(bits as int);
        }
        let per = 32 / bits;
        let words = (4096 + per - 1) / per;
        assert(1u32 << bits >= 1) by (bit_vector)
            requires
                1 <= bits < 32,
        ;
        let mask: u32 = (1u32 << bits) - 1;
        assert(mask == low_mask(bits));
        let mut blocks = [0u16; 4096];
        let mut block_idx: u32 = 0;
        let dlen = data.len();
        let mut offset = pos;
        let mut wi: u32 = 0;
        while wi < words
            invariant
                1 <= bits < 32,
                per == per_word(bits as int),
                words == word_count(bits as int),
                mask == low_mask(bits),
                1 <= per <= 32,
                per * bits <= 32,
                words * per >= 4096,
                (words - 1) * per < 4096,
                wi <= words,
                pos + words * 4 <= data@.len(),
                dlen == data@.len(),
                offset == pos + 4 * wi,
                block_idx as int == if wi * per <= 4096 { wi * per } else { 4096 },
                blocks@.len() == 4096,
                forall|k: int| 0 <= k < block_idx ==> blocks@[k] == packed_index(data@, pos as int, bits as int, k),
            decreases words - wi,
        {
            assert(wi * per < 4096) by (nonlinear_arith)
                requires
                    wi < words,
                    (words - 1) * per < 4096,
                    per >= 1,
            ;
            let word = read_u32_le(slice_from(data, offset));
            let mut w = word;
            let left = 4096 - block_idx;
            let to_read = if left < per { left } else { per };
            let base = block_idx;
            assert(word >> 0u32 == word) by (bit_vector);
            assert(0 * bits == 0);
            let mut j: u32 = 0;
            while j < to_read
                invariant
                    1 <= bits < 32,
                    per == per_word(bits as int),
                    mask == low_mask(bits),
                    1 <= per <= 32,
                    per * bits <= 32,
                    base as int == wi * per,
                    wi < words,
                    pos + words * 4 <= data@.len(),
                    dlen == data@.len(),
                    to_read <= per,
                    base + to_read <= 4096,
                    j <= to_read,
                    block_idx == base + j,
                    offset == pos + 4 * wi,
                    word == le_u32(rest(data@, offset as int)),
                    w == word >> ((j * bits) as u32),
                    blocks@.len() == 4096,
                    forall|k: int| 0 <= k < block_idx ==> blocks@[k] == packed_index(data@, pos as int, bits as int, k),
                decreases to_read - j,
            {
                assert(j * bits + bits <= 32) by (nonlinear_arith)
                    requires
                        j < to_read,
                        to_read <= per,
                        per * bits <= 32,
                ;
                proof {
                    lemma_div_mod_step(wi as int, per as int, j as int);
                }
                blocks[block_idx as usize] = (w & mask) as u16;
                proof {
                    lemma_shift_step(word, (j * bits) as u32, bits);
                }
                w = w >> bits;
                block_idx = block_idx + 1;
                j = j + 1;
                assert(j * bits == (j - 1) * bits + bits) by (nonlinear_arith);
            }
            offset = offset + 4;
            wi = wi + 1;
            assert(wi * per == (wi - 1) * per + per) by (nonlinear_arith);
        }
        assert(blocks@ =~= Seq::new(4096, |k: int| packed_index(data@, pos as int, bits as int, k)));
        blocks
    }

    fn parse_storage_layer(data: &[u8], offset: usize) -> (res: Result<(SubChunkStorage, usize), AmberError>)
        requires
            offset <= data@.len(),
        ensures
            match (res, spec_layer(data@, offset as int)) {
                (Ok((s, p)), Ok((m, q))) => s.model() == m && p == q && p <= data@.len(),
                (Err(e), Err(f)) => describes_fault(e, f),
                _ => false,
            },
    {
        reveal(spec_layer);
        if offset >= data.len() {
            return Err(AmberError::BufferUnderflow { needed: 1, remaining: 0 });
        }
        let header = data[offset];
        let pos = offset + 1;
        let is_runtime = (header & 1) != 0;
        let bits_per_block = header >> 1;
        assert(is_runtime == (header % 2 == 1) && bits_per_block == header / 2) by (bit_vector)
            requires
                is_runtime == ((header & 1) != 0),
                bits_per_block == header >> 1,
        ;
        let (blocks, p) = if bits_per_block == 0 {
            let b = [0u16; 4096];
            assert(b@ =~= Seq::new(4096, |k: int| 0u16));
            (b, pos)
        } else if bits_per_block >= 32 {
            let mut m = String::from_str("unsupported bits per block: ");
            m.append(decimal_string(bits_per_block as u64).as_str());
            return Err(AmberError::CorruptSubChunk(m));
        } else {
            let bits = bits_per_block as u32;
            proof {
                lemma_word_count(bits as int);
            }
            let per = 32 / bits;
            let words = (4096 + per - 1) / per;
            let bytes_needed = (words * 4) as usize;
            let left = data.len() - pos;
            if left < bytes_needed {
                return Err(AmberError::BufferUnderflow { needed: bytes_needed, remaining: left });
            }
            (Self::unpack_words(data, pos, bits), pos + bytes_needed)
        };
        if is_runtime {
            return Err(
                AmberError::CorruptSubChunk(
                    String::from_str("runtime palette not supported in persistent leveldb parser"),
                ),
            );
        }
        match Self::parse_nbt_palette(data, p) {
            Err(e) => Err(e),
            Ok((palette, p2)) => Ok((SubChunkStorage::new(Box::new(blocks), palette), p2)),
        }
    }

    fn parse_nbt_palette(data: &[u8], offset: usize) -> (res: Result<(Palette, usize), AmberError>)
        requires
            offset <= data@.len(),
        ensures
            match (res, spec_palette(data@, offset as int)) {
                (Ok((pal, p)), Ok((m, q))) => pal@.map_values(|b: BlockState| b.model()) == m && p == q
                    && p <= data@.len(),
                (Err(e), Err(f)) => describes_fault(e, f),
                _ => false,
            },
    {
        let left = data.len() - offset;
        if left < 4 {
            return Err(AmberError::BufferUnderflow { needed: 4, remaining: left });
        }
        let palette_size = (read_u32_le(slice_from(data, offset)) as i32) as usize;
        let mut cur = offset + 4;
        let dlen = data.len();
        let mut entries: Vec<BlockState> = Vec::new();
        assert(entries@.map_values(|b: BlockState| b.model()) =~= Seq::empty());
        let mut i: usize = 0;
        while i < palette_size
            invariant
                offset + 4 <= cur <= data@.len(),
                dlen == data@.len(),
                i <= palette_size,
                spec_palette(data@, offset as int) == spec_entries_from(
                    data@,
                    cur as int,
                    (palette_size - i) as nat,
                    entries@.map_values(|b: BlockState| b.model()),
                ),
            decreases palette_size - i,
        {
            let mut reader = NbtReader::new(slice_from(data, cur));
            let root = match reader.read_root_compound() {
                Err(e) => return Err(e),
                Ok((_, tag)) => tag,
            };
            let used = reader.offset();
            let state = match BlockState::from_nbt(&root) {
                Some(s) => s,
                None => {
                    return Err(
                        AmberError::NbtError(String::from_str("palette compound tag missing block name")),
                    );
                },
            };
            let ghost before = entries@;
            entries.push(state);
            assert(entries@.map_values(|b: BlockState| b.model()) =~= before.map_values(
                |b: BlockState| b.model(),
            ).push(state.model()));
            cur = cur + used;
            i = i + 1;
        }
        Ok((Palette::new(entries), cur))
    }

    fn parse_v1_legacy(data: &[u8]) -> (res: Result<SubChunk, AmberError>)
        requires
            data@.len() >= 1,
        ensures
            match (res, spec_legacy(data@)) {
                (Ok(s), Ok(m)) => s.model() == m,
                (Err(e), Err(f)) => describes_fault(e, f),
                _ => false,
            },
    {
        let left = data.len() - 1;
        if left < 6144 {
            return Err(AmberError::BufferUnderflow { needed: 6144, remaining: left });
        }
        let ids = &data[1..4097];
        let mut blocks = [0u16; 4096];
        let mut table: Vec<u16> = Vec::new();
        let mut t: usize = 0;
        while t < 256
            invariant
                t <= 256,
                table@.len() == t,
                forall|k: int| 0 <= k < t ==> table@[k] == 0xffff,
            decreases 256 - t,
        {
            table.push(0xffff);
            t = t + 1;
        }
        let mut entries: Vec<BlockState> = Vec::new();
        let ghost mut seen: Seq<u8> = Seq::empty();
        let mut i: usize = 0;
        while i < 4096
            invariant
                ids@ == data@.subrange(1, 4097),
                ids@.len() == 4096,
                i <= 4096,
                seen == first_seen(ids@, i as int),
                table@.len() == 256,
                entries@.len() == seen.len(),
                seen.len() <= i,
                forall|a: int, b: int| 0 <= a < b < seen.len() ==> seen[a] != seen[b],
                forall|x: int| 0 <= x < 256 ==> (table@[x] == 0xffff <==> !seen.contains(x as u8)),
                forall|x: int| 0 <= x < 256 && table@[x] != 0xffff ==> table@[x] < seen.len() && seen[table@[x] as int] == x,
                entries@.map_values(|b: BlockState| b.model()) == seen.map_values(|id: u8| legacy_state(id)),
                blocks@.len() == 4096,
                forall|k: int| 0 <= k < i ==> seen[blocks@[k] as int] == ids@[k] && blocks@[k] < seen.len(),
            decreases 4096 - i,
        {
            let id = ids[i];
            let ghost prev = seen;
            if table[id as usize] == 0xffff {
                let idx = entries.len() as u16;
                let mut name = String::from_str("legacy:id_");
                name.append(decimal_string(id as u64).as_str());
                let state = BlockState::new(name.as_str());
                assert(crate::nbt::tag::compound_map(state.states@) =~= Map::<Seq<char>, crate::nbt::tag::NbtValue>::empty());
                let ghost before = entries@;
                entries.push(state);
                proof {
                    seen = seen.push(id);
                    assert(entries@.map_values(|b: BlockState| b.model()) =~= before.map_values(
                        |b: BlockState| b.model(),
                    ).push(state.model()));
                    assert(state.model() == legacy_state(id));
                    assert(seen.map_values(|x: u8| legacy_state(x)) =~= prev.map_values(
                        |x: u8| legacy_state(x),
                    ).push(legacy_state(id)));
                    assert forall|x: int| 0 <= x < 256 implies (#[trigger] table@[x] == 0xffff <==> !prev.contains(x as u8)) by {}
                }
                table.set(id as usize, idx);
                proof {
                    assert(first_seen(ids@, i + 1) == seen);
                    assert forall|x: int| 0 <= x < 256 implies (table@[x] == 0xffff <==> !seen.contains(x as u8)) by {
                        if x == id {
                            assert(seen[seen.len() - 1] == id);
                        } else {
                            if seen.contains(x as u8) {
                                let j = choose|j: int| 0 <= j < seen.len() && seen[j] == x as u8;
                                assert(prev[j] == x as u8);
                            }
                            if prev.contains(x as u8) {
                                let j = choose|j: int| 0 <= j < prev.len() && prev[j] == x as u8;
                                assert(seen[j] == x as u8);
                            }
                        }
                    }
                }
            } else {
                proof {
                    assert(prev.contains(id));
                    assert(first_seen(ids@, i + 1) == seen);
                }
            }
            blocks[i] = table[id as usize];
            i = i + 1;
        }
        proof {
            assert(ids@ =~= data@.subrange(1, 4097));
            let d = first_seen(ids@, 4096);
            assert forall|k: int| 0 <= k < 4096 implies blocks@[k] == position_of(d, ids@[k]) as u16 by {
                let j = position_of(d, ids@[k]);
                assert(d[blocks@[k] as int] == ids@[k]);
                assert(0 <= j < d.len() && d[j] == ids@[k]);
                assert(j == blocks@[k]);
            }
            assert(blocks@ =~= Seq::new(4096, |k: int| position_of(d, ids@[k]) as u16));
        }
        let layer = SubChunkStorage::new(Box::new(blocks), Palette::new(entries));
        let mut layers: Vec<SubChunkStorage> = Vec::new();
        layers.push(layer);
        let res = SubChunk { version: 1, subchunk_y: None, layers };
        proof {
            let d = first_seen(ids@, 4096);
            assert(res.model().layers =~= seq![
                LayerModel {
                    blocks: Seq::new(4096, |i: int| position_of(d, ids@[i]) as u16),
                    palette: d.map_values(|id: u8| legacy_state(id)),
                },
            ]);
        }
        Ok(res)
    }
}

} // verus!
