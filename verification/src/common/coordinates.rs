use vstd::prelude::*;

verus! {

/// Floor of `v / 16`, the index of the 16-block cell that holds `v`.
pub open spec fn cell_of(v: int) -> int {
    v / 16
}

/// Position of `v` inside its 16-block cell, in `0..16`.
pub open spec fn offset_in_cell(v: int) -> int {
    v % 16
}

/// An absolute block position in a world.
#[derive(Debug, Clone, Copy, PartialEq, Eq, Hash, Structural)]
pub struct BlockPos {
    pub x: i32,
    pub y: i16,
    pub z: i32,
}

/// The position of a 16x16 chunk column, in chunk units.
#[derive(Debug, Clone, Copy, PartialEq, Eq, Hash, Structural)]
pub struct ChunkPos {
    pub x: i32,
    pub z: i32,
}

proof fn lemma_shift_split_i32(v: i32)
    ensures
        (v >> 4u32) as int == cell_of(v as int),
        (v & 15i32) as int == offset_in_cell(v as int),
{
    assert(0 <= (v & 15i32) < 16 && (v >> 4u32) * 16 + (v & 15i32) == v) by (bit_vector);
}

proof fn lemma_shift_split_i16(v: i16)
    ensures
        (v >> 4u16) as int == cell_of(v as int),
        (v & 15i16) as int == offset_in_cell(v as int),
{
    assert(0 <= (v & 15i16) < 16 && (v >> 4u16) * 16 + (v & 15i16) == v) by (bit_vector);
}

impl BlockPos {
    pub fn new(x: i32, y: i16, z: i32) -> (res: Self)
        ensures
            res.x == x,
            res.y == y,
            res.z == z,
    {
        Self { x, y, z }
    }

    /// The chunk column that holds this block.
    pub fn chunk_pos(&self) -> (res: ChunkPos)
        ensures
            res.x == cell_of(self.x as int),
            res.z == cell_of(self.z as int),
    {
        proof {
            lemma_shift_split_i32(self.x);
            lemma_shift_split_i32(self.z);
        }
        ChunkPos::new(self.x >> 4u32, self.z >> 4u32)
    }

    /// The index of the 16-block tall subchunk that holds this block,
    /// wrapped into `i8` (exact for `-2048 <= y < 2048`).
    pub fn subchunk_y(&self) -> (res: i8)
        ensures
            res as int == wrap_i8(cell_of(self.y as int)),
            -128 <= cell_of(self.y as int) < 128 ==> res == cell_of(self.y as int),
    {
        proof {
            lemma_shift_split_i16(self.y);
        }
        let cell: i16 = self.y >> 4u16;
        proof {
            lemma_wrap_i8(cell);
        }
        #[verifier::truncate]
        let r = cell as i8;
        r
    }

    pub fn local_x(&self) -> (res: usize)
        ensures
            res == offset_in_cell(self.x as int),
            res < 16,
    {
        proof {
            lemma_shift_split_i32(self.x);
        }
        (self.x & 15i32) as usize
    }

    pub fn local_y(&self) -> (res: usize)
        ensures
            res == offset_in_cell(self.y as int),
            res < 16,
    {
        proof {
            lemma_shift_split_i16(self.y);
        }
        (self.y & 15i16) as usize
    }

    pub fn local_z(&self) -> (res: usize)
        ensures
            res == offset_in_cell(self.z as int),
            res < 16,
    {
        proof {
            lemma_shift_split_i32(self.z);
        }
        (self.z & 15i32) as usize
    }
}

impl ChunkPos {
    pub fn new(x: i32, z: i32) -> (res: Self)
        ensures
            res.x == x,
            res.z == z,
    {
        Self { x, z }
    }

    /// The west edge of the chunk in block units: `16 * x`, wrapped to 32 bits.
    pub fn min_block_x(&self) -> (res: i32)
        ensures
            res as int == wrap_i32(self.x as int * 16),
    {
        shift_block(self.x)
    }

    /// The north edge of the chunk in block units: `16 * z`, wrapped to 32 bits.
    pub fn min_block_z(&self) -> (res: i32)
        ensures
            res as int == wrap_i32(self.z as int * 16),
    {
        shift_block(self.z)
    }
}

/// `v` reduced into the range of `i8` by two's complement wrapping.
pub open spec fn wrap_i8(v: int) -> int {
    let m = v % 256;
    if m >= 128 {
        m - 256
    } else {
        m
    }
}

proof fn lemma_wrap_i8(v: i16)
    ensures
        (v as i8) as int == wrap_i8(v as int),
{
    assert(0 <= (v & 255i16) < 256 && (v >> 8u16) * 256 + (v & 255i16) == v) by (bit_vector);
    assert((v & 255i16) >= 128 ==> (v as i8) == (v & 255i16) - 256) by (bit_vector);
    assert((v & 255i16) < 128 ==> (v as i8) == (v & 255i16)) by (bit_vector);
}

/// `v` reduced into the range of `i32` by two's complement wrapping.
pub open spec fn wrap_i32(v: int) -> int {
    let m = v % 0x1_0000_0000;
    if m >= 0x8000_0000 {
        m - 0x1_0000_0000
    } else {
        m
    }
}

fn shift_block(v: i32) -> (res: i32)
    ensures
        res as int == wrap_i32(v as int * 16),
{
    let r = v << 4u32;
    assert(r == v << 4u32);
    assert((v << 4u32) as int == wrap_i32(v as int * 16)) by (bit_vector);
    r
}

/// Index of the block at local coordinates `(x, y, z)` inside the 4096-entry
/// block array of a subchunk: `x` selects a 256-block slab, `z` a 16-block
/// column of it and `y` the block.
pub open spec fn subchunk_index(x: int, y: int, z: int) -> int {
    x * 256 + z * 16 + y
}

/// `(x << 8) | (z << 4) | y`; for coordinates below 16 this is
/// `subchunk_index(x, y, z)`.
pub fn block_subchunk_index(x: usize, y: usize, z: usize) -> (res: usize)
    ensures
        res == ((x << 8usize) | (z << 4usize) | y),
        x < 16 && y < 16 && z < 16 ==> res == subchunk_index(x as int, y as int, z as int)
            && res < 4096,
{
    let r = (x << 8usize) | (z << 4usize) | y;
    assert(x < 16 && y < 16 && z < 16 ==> ((x << 8usize) | (z << 4usize) | y) == x * 256 + z * 16 + y) by (bit_vector);
    r
}

/// A block position splits into its chunk column and its offset inside the
/// chunk: `16 * chunk + local` gives back the absolute coordinate.
pub proof fn lemma_block_pos_decomposes(b: BlockPos)
    ensures
        cell_of(b.x as int) * 16 + offset_in_cell(b.x as int) == b.x,
        cell_of(b.z as int) * 16 + offset_in_cell(b.z as int) == b.z,
        cell_of(b.y as int) * 16 + offset_in_cell(b.y as int) == b.y,
        0 <= offset_in_cell(b.x as int) < 16,
        0 <= offset_in_cell(b.y as int) < 16,
        0 <= offset_in_cell(b.z as int) < 16,
        wrap_i32(cell_of(b.x as int) * 16) == cell_of(b.x as int) * 16,
        wrap_i32(cell_of(b.z as int) * 16) == cell_of(b.z as int) * 16,
{
}

/// Distinct local coordinates address distinct entries of the block array.
pub proof fn lemma_subchunk_index_injective(x1: int, y1: int, z1: int, x2: int, y2: int, z2: int)
    requires
        0 <= x1 < 16, 0 <= y1 < 16, 0 <= z1 < 16,
        0 <= x2 < 16, 0 <= y2 < 16, 0 <= z2 < 16,
    ensures
        0 <= subchunk_index(x1, y1, z1) < 4096,
        subchunk_index(x1, y1, z1) == subchunk_index(x2, y2, z2) ==> x1 == x2 && y1 == y2 && z1 == z2,
{
}

/// Every entry of the block array is addressed by some local coordinates:
/// entry `i` by `x = i / 256`, `z = (i / 16) % 16`, `y = i % 16`.
pub proof fn lemma_subchunk_index_onto(i: int)
    requires
        0 <= i < 4096,
    ensures
        0 <= i / 256 < 16,
        0 <= (i / 16) % 16 < 16,
        0 <= i % 16 < 16,
        subchunk_index(i / 256, i % 16, (i / 16) % 16) == i,
{
}

} // verus!
