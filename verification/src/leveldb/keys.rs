use crate::common::binary::{push_bytes, le_bytes_u32, le_u32, lemma_le_u32_roundtrip, read_u32_le, write_u32_le};
use crate::common::coordinates::ChunkPos;
use crate::common::error::{AmberError, Result};
use vstd::prelude::*;

verus! {

/// A world dimension.
#[derive(Debug, Clone, Copy, PartialEq, Eq, Hash, Structural)]
pub enum Dimension {
    Overworld,
    Nether,
    TheEnd,
}

/// The numeric id a dimension is stored under.
pub open spec fn dimension_id(d: Dimension) -> i32 {
    match d {
        Dimension::Overworld => 0,
        Dimension::Nether => 1,
        Dimension::TheEnd => 2,
    }
}

/// The dimension with the given numeric id.
pub open spec fn dimension_of_id(id: i32) -> Option<Dimension> {
    if id == 0 {
        Some(Dimension::Overworld)
    } else if id == 1 {
        Some(Dimension::Nether)
    } else if id == 2 {
        Some(Dimension::TheEnd)
    } else {
        None
    }
}

impl Dimension {
    pub fn from_id(id: i32) -> (res: Option<Self>)
        ensures
            res == dimension_of_id(id),
    {
        match id {
            0 => Some(Self::Overworld),
            1 => Some(Self::Nether),
            2 => Some(Self::TheEnd),
            _ => None,
        }
    }

    /// The numeric id this dimension is stored under.
    pub fn id(&self) -> (res: i32)
        ensures
            res == dimension_id(*self),
    {
        match self {
            Self::Overworld => 0,
            Self::Nether => 1,
            Self::TheEnd => 2,
        }
    }
}

/// The record kind a database key names.
#[derive(Debug, Clone, Copy, PartialEq, Eq, Hash, Structural)]
pub enum KeyTag {
    Data2D,
    Data3D,
    SubChunkPrefix,
    LegacyTerrain,
    BlockEntity,
    Entity,
    PendingTicks,
    BlockTicks,
    BiomeState,
    Version,
    Other(u8),
}

/// The tag a key byte stands for.
pub open spec fn tag_of_byte(val: u8) -> KeyTag {
    if val == 0x2b {
        KeyTag::Data2D
    } else if val == 0x2c {
        KeyTag::Data3D
    } else if val == 0x2f {
        KeyTag::SubChunkPrefix
    } else if val == 0x30 {
        KeyTag::LegacyTerrain
    } else if val == 0x31 {
        KeyTag::BlockEntity
    } else if val == 0x32 {
        KeyTag::Entity
    } else if val == 0x33 {
        KeyTag::PendingTicks
    } else if val == 0x34 {
        KeyTag::BlockTicks
    } else if val == 0x35 {
        KeyTag::BiomeState
    } else if val == 0x76 {
        KeyTag::Version
    } else {
        KeyTag::Other(val)
    }
}

/// The key byte of a tag.
pub open spec fn byte_of_tag(t: KeyTag) -> u8 {
    match t {
        KeyTag::Data2D => 0x2b,
        KeyTag::Data3D => 0x2c,
        KeyTag::SubChunkPrefix => 0x2f,
        KeyTag::LegacyTerrain => 0x30,
        KeyTag::BlockEntity => 0x31,
        KeyTag::Entity => 0x32,
        KeyTag::PendingTicks => 0x33,
        KeyTag::BlockTicks => 0x34,
        KeyTag::BiomeState => 0x35,
        KeyTag::Version => 0x76,
        KeyTag::Other(v) => v,
    }
}

/// A tag that the byte it is written as reads back to: every named tag,
/// and `Other` of a byte that no named tag uses.
pub open spec fn is_canonical_tag(t: KeyTag) -> bool {
    tag_of_byte(byte_of_tag(t)) == t
}

impl KeyTag {
    pub fn from_u8(val: u8) -> (res: Self)
        ensures
            res == tag_of_byte(val),
    {
        match val {
            0x2b => Self::Data2D,
            0x2c => Self::Data3D,
            0x2f => Self::SubChunkPrefix,
            0x30 => Self::LegacyTerrain,
            0x31 => Self::BlockEntity,
            0x32 => Self::Entity,
            0x33 => Self::PendingTicks,
            0x34 => Self::BlockTicks,
            0x35 => Self::BiomeState,
            0x76 => Self::Version,
            other => Self::Other(other),
        }
    }

    pub fn as_u8(&self) -> (res: u8)
        ensures
            res == byte_of_tag(*self),
    {
        match self {
            Self::Data2D => 0x2b,
            Self::Data3D => 0x2c,
            Self::SubChunkPrefix => 0x2f,
            Self::LegacyTerrain => 0x30,
            Self::BlockEntity => 0x31,
            Self::Entity => 0x32,
            Self::PendingTicks => 0x33,
            Self::BlockTicks => 0x34,
            Self::BiomeState => 0x35,
            Self::Version => 0x76,
            Self::Other(v) => *v,
        }
    }
}

impl From<u8> for KeyTag {
    fn from(val: u8) -> (res: Self) {
        Self::from_u8(val)
    }
}

impl vstd::std_specs::convert::FromSpecImpl<u8> for KeyTag {
    open spec fn obeys_from_spec() -> bool {
        true
    }

    open spec fn from_spec(val: u8) -> Self {
        tag_of_byte(val)
    }
}

/// Every byte reads to a tag that writes back to the same byte.
pub proof fn lemma_tag_byte_roundtrip(val: u8)
    ensures
        byte_of_tag(tag_of_byte(val)) == val,
        is_canonical_tag(tag_of_byte(val)),
{
}

/// A decoded database key.
#[derive(Debug, Clone, Copy, PartialEq, Eq, Structural)]
pub struct DbKey {
    pub dimension: Dimension,
    pub chunk_pos: ChunkPos,
    pub tag: KeyTag,
    pub subchunk_y: Option<i8>,
}

/// The key `raw` decodes to.
///
/// A key is the chunk's `x` and `z` as little-endian `i32`, for dimensions
/// other than the overworld a little-endian `i32` dimension id, a tag byte,
/// and for subchunk records a byte with the subchunk's vertical index.
/// Lengths 9 and 10 are overworld keys; lengths 13 and 14 carry a dimension
/// id, an unknown id reading as the overworld. Other lengths are refused.
pub open spec fn key_of_bytes(raw: Seq<u8>) -> Result<DbKey> {
    let len = raw.len();
    let pos = ChunkPos { x: le_u32(raw) as i32, z: le_u32(raw.subrange(4, 8)) as i32 };
    if len < 9 {
        Err(AmberError::InvalidKeyLength { expected: 9, actual: len as usize })
    } else if len == 9 || len == 10 {
        Ok(
            DbKey {
                dimension: Dimension::Overworld,
                chunk_pos: pos,
                tag: tag_of_byte(raw[8]),
                subchunk_y: if len == 10 {
                    Some(raw[9] as i8)
                } else {
                    None
                },
            },
        )
    } else if len == 13 || len == 14 {
        Ok(
            DbKey {
                dimension: match dimension_of_id(le_u32(raw.subrange(8, 12)) as i32) {
                    Some(d) => d,
                    None => Dimension::Overworld,
                },
                chunk_pos: pos,
                tag: tag_of_byte(raw[12]),
                subchunk_y: if len == 14 {
                    Some(raw[13] as i8)
                } else {
                    None
                },
            },
        )
    } else {
        Err(AmberError::InvalidKeyLength { expected: 9, actual: len as usize })
    }
}

/// The bytes a key is written as.
pub open spec fn bytes_of_key(k: DbKey) -> Seq<u8> {
    le_bytes_u32(k.chunk_pos.x as u32) + le_bytes_u32(k.chunk_pos.z as u32) + (if k.dimension
        != Dimension::Overworld {
        le_bytes_u32(dimension_id(k.dimension) as u32)
    } else {
        Seq::empty()
    }) + seq![byte_of_tag(k.tag)] + (match k.subchunk_y {
        Some(y) => seq![y as u8],
        None => Seq::empty(),
    })
}

impl DbKey {
    /// Decodes a raw database key.
    pub fn parse(raw: &[u8]) -> (res: Result<Self>)
        ensures
            res == key_of_bytes(raw@),
    {
        let len = raw.len();
        if len < 9 {
            return Err(AmberError::InvalidKeyLength { expected: 9, actual: len });
        }
        let chunk_x = read_u32_le(raw) as i32;
        let chunk_z = read_u32_le(&raw[4..8]) as i32;
        let chunk_pos = ChunkPos::new(chunk_x, chunk_z);
        if len == 9 || len == 10 {
            let tag = KeyTag::from_u8(raw[8]);
            let subchunk_y = if len == 10 {
                Some(raw[9] as i8)
            } else {
                None
            };
            return Ok(Self { dimension: Dimension::Overworld, chunk_pos, tag, subchunk_y });
        }
        if len == 13 || len == 14 {
            let dim_id = read_u32_le(&raw[8..12]) as i32;
            let dimension = match Dimension::from_id(dim_id) {
                Some(d) => d,
                None => Dimension::Overworld,
            };
            let tag = KeyTag::from_u8(raw[12]);
            let subchunk_y = if len == 14 {
                Some(raw[13] as i8)
            } else {
                None
            };
            return Ok(Self { dimension, chunk_pos, tag, subchunk_y });
        }
        Err(AmberError::InvalidKeyLength { expected: 9, actual: len })
    }

    /// Encodes this key in the database layout.
    pub fn to_bytes(&self) -> (res: Vec<u8>)
        ensures
            res@ == bytes_of_key(*self),
    {
        let mut bytes: Vec<u8> = Vec::new();
        let xb = write_u32_le(self.chunk_pos.x as u32);
        push_bytes(&mut bytes, &xb);
        let zb = write_u32_le(self.chunk_pos.z as u32);
        push_bytes(&mut bytes, &zb);
        if self.dimension != Dimension::Overworld {
            let db = write_u32_le(self.dimension.id() as u32);
            push_bytes(&mut bytes, &db);
        }
        bytes.push(self.tag.as_u8());
        if let Some(sy) = self.subchunk_y {
            bytes.push(sy as u8);
        }
        assert(bytes@ =~= bytes_of_key(*self));
        bytes
    }
}

proof fn lemma_i32_u32_roundtrip(x: i32)
    ensures
        ((x as u32) as i32) == x,
{
    assert(((x as u32) as i32) == x) by (bit_vector);
}

proof fn lemma_i8_u8_roundtrip(y: i8)
    ensures
        ((y as u8) as i8) == y,
{
    assert(((y as u8) as i8) == y) by (bit_vector);
}

/// Writing a key and reading it back gives the key again, for every key
/// whose tag is canonical (an `Other` tag of a byte that a named tag uses
/// reads back as that named tag).
pub proof fn lemma_key_roundtrip(k: DbKey)
    requires
        is_canonical_tag(k.tag),
    ensures
        key_of_bytes(bytes_of_key(k)) == Ok::<DbKey, AmberError>(k),
{
    let b = bytes_of_key(k);
    let xs = le_bytes_u32(k.chunk_pos.x as u32);
    let zs = le_bytes_u32(k.chunk_pos.z as u32);
    lemma_le_u32_roundtrip(k.chunk_pos.x as u32, xs);
    lemma_le_u32_roundtrip(k.chunk_pos.z as u32, zs);
    lemma_i32_u32_roundtrip(k.chunk_pos.x);
    lemma_i32_u32_roundtrip(k.chunk_pos.z);
    assert(b.subrange(0, 4) =~= xs);
    assert(b.subrange(4, 8) =~= zs);
    assert(b.subrange(4, 8).subrange(0, 4) =~= zs);
    assert(xs.subrange(0, 4) =~= xs);
    assert(zs.subrange(0, 4) =~= zs);
    assert(le_u32(b) == k.chunk_pos.x as u32);
    assert(le_u32(b.subrange(4, 8)) == k.chunk_pos.z as u32);
    if let Some(y) = k.subchunk_y {
        lemma_i8_u8_roundtrip(y);
    }
    if k.dimension != Dimension::Overworld {
        let ds = le_bytes_u32(dimension_id(k.dimension) as u32);
        lemma_le_u32_roundtrip(dimension_id(k.dimension) as u32, ds);
        assert(b.subrange(8, 12) =~= ds);
        assert(b.subrange(8, 12).subrange(0, 4) =~= ds);
        assert(ds.subrange(0, 4) =~= ds);
        assert(le_u32(b.subrange(8, 12)) == dimension_id(k.dimension) as u32);
        assert((dimension_id(k.dimension) as u32) as i32 == dimension_id(k.dimension));
        assert(b[12] == byte_of_tag(k.tag));
        assert(b.len() == 13 || b.len() == 14);
    } else {
        assert(b[8] == byte_of_tag(k.tag));
        assert(b.len() == 9 || b.len() == 10);
    }
}

} // verus!
