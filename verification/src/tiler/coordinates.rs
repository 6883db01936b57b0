use crate::common::coordinates::ChunkPos;
use vstd::prelude::*;

verus! {

/// A map tile: `zoom` is the pyramid level (the highest level holds one
/// tile per 16x16 chunks), `x` and `y` its column and row at that level.
#[derive(Clone, Copy, Debug, PartialEq, Eq, Hash, PartialOrd, Ord, Structural)]
pub struct TileCoord {
    pub zoom: u8,
    pub x: i32,
    pub y: i32,
}

proof fn lemma_shift_div(v: i32)
    ensures
        (v >> 4u32) as int == v as int / 16,
        (v & 15i32) as int == v as int % 16,
        (v >> 1u32) as int == v as int / 2,
        (v & 1i32) as int == v as int % 2,
{
    assert(0 <= (v & 15i32) < 16 && (v >> 4u32) * 16 + (v & 15i32) == v) by (bit_vector);
    assert(0 <= (v & 1i32) < 2 && (v >> 1u32) * 2 + (v & 1i32) == v) by (bit_vector);
}

/// The quadrant `(dx, dy)` a tile with column `x` and row `y` fills in its
/// parent.
pub open spec fn quadrant_of(x: int, y: int) -> (int, int) {
    (x % 2, y % 2)
}

impl TileCoord {
    pub fn new(zoom: u8, x: i32, y: i32) -> (res: Self)
        ensures
            res == (TileCoord { zoom, x, y }),
    {
        Self { zoom, x, y }
    }

    /// The tile at level `zoom` that holds a chunk: 16 chunks per tile side,
    /// rounding toward negative infinity.
    pub fn from_chunk_pos(chunk: ChunkPos, zoom: u8) -> (res: Self)
        ensures
            res.zoom == zoom,
            res.x == chunk.x as int / 16,
            res.y == chunk.z as int / 16,
    {
        proof {
            lemma_shift_div(chunk.x);
            lemma_shift_div(chunk.z);
        }
        Self { zoom, x: chunk.x >> 4u32, y: chunk.z >> 4u32 }
    }

    /// Pixel offset of a chunk inside its tile: 16 pixels per chunk.
    pub fn chunk_offset_in_tile(chunk: ChunkPos) -> (res: (usize, usize))
        ensures
            res.0 == (chunk.x as int % 16) * 16,
            res.1 == (chunk.z as int % 16) * 16,
            res.0 <= 240 && res.1 <= 240,
    {
        proof {
            lemma_shift_div(chunk.x);
            lemma_shift_div(chunk.z);
        }
        let ox = ((chunk.x & 15i32) as usize) * 16;
        let oy = ((chunk.z & 15i32) as usize) * 16;
        (ox, oy)
    }

    /// The tile one level up that covers this one; level 0 has none.
    pub fn parent(&self) -> (res: Option<Self>)
        ensures
            self.zoom == 0 ==> res is None,
            self.zoom > 0 ==> res == Some(
                TileCoord { zoom: (self.zoom - 1) as u8, x: (self.x as int / 2) as i32, y: (self.y as int / 2) as i32 },
            ),
    {
        if self.zoom == 0 {
            return None;
        }
        proof {
            lemma_shift_div(self.x);
            lemma_shift_div(self.y);
        }
        Some(Self { zoom: self.zoom - 1, x: self.x >> 1u32, y: self.y >> 1u32 })
    }

    /// Which quadrant of its parent this tile fills.
    pub fn quadrant_in_parent(&self) -> (res: (usize, usize))
        ensures
            res.0 == quadrant_of(self.x as int, self.y as int).0,
            res.1 == quadrant_of(self.x as int, self.y as int).1,
    {
        proof {
            lemma_shift_div(self.x);
            lemma_shift_div(self.y);
        }
        ((self.x & 1i32) as usize, (self.y & 1i32) as usize)
    }

    /// The four tiles one level down that this one covers, in the order
    /// top-left, top-right, bottom-left, bottom-right.
    pub fn children(&self) -> (res: [Self; 4])
        requires
            self.zoom < 255,
            -0x4000_0000 <= self.x < 0x4000_0000,
            -0x4000_0000 <= self.y < 0x4000_0000,
        ensures
            res@ == child_tiles(*self),
    {
        let next_z = self.zoom + 1;
        let bx = self.x * 2;
        let by = self.y * 2;
        let res = [
            Self::new(next_z, bx, by),
            Self::new(next_z, bx + 1, by),
            Self::new(next_z, bx, by + 1),
            Self::new(next_z, bx + 1, by + 1),
        ];
        assert(res@ =~= child_tiles(*self));
        res
    }
}

/// The four tiles one level below `t`.
pub open spec fn child_tiles(t: TileCoord) -> Seq<TileCoord> {
    let z = (t.zoom + 1) as u8;
    let bx = t.x * 2;
    let by = t.y * 2;
    seq![
        TileCoord { zoom: z, x: bx as i32, y: by as i32 },
        TileCoord { zoom: z, x: (bx + 1) as i32, y: by as i32 },
        TileCoord { zoom: z, x: bx as i32, y: (by + 1) as i32 },
        TileCoord { zoom: z, x: (bx + 1) as i32, y: (by + 1) as i32 },
    ]
}

/// Each child of a tile has that tile as its parent, and the child at
/// position `i` fills quadrant `(i % 2, i / 2)`.
pub proof fn lemma_children_parent(t: TileCoord, i: int)
    requires
        t.zoom < 255,
        -0x4000_0000 <= t.x < 0x4000_0000,
        -0x4000_0000 <= t.y < 0x4000_0000,
        0 <= i < 4,
    ensures
        child_tiles(t)[i].zoom == t.zoom + 1,
        child_tiles(t)[i].x as int / 2 == t.x,
        child_tiles(t)[i].y as int / 2 == t.y,
        quadrant_of(child_tiles(t)[i].x as int, child_tiles(t)[i].y as int) == (i % 2, i / 2),
{
}

/// A tile is among the children of its parent.
pub proof fn lemma_parent_children(t: TileCoord)
    requires
        t.zoom > 0,
    ensures
        ({
            let p = TileCoord { zoom: (t.zoom - 1) as u8, x: (t.x as int / 2) as i32, y: (t.y as int / 2) as i32 };
            child_tiles(p).contains(t)
        }),
{
    let p = TileCoord { zoom: (t.zoom - 1) as u8, x: (t.x as int / 2) as i32, y: (t.y as int / 2) as i32 };
    let q = quadrant_of(t.x as int, t.y as int);
    let i = q.0 + 2 * q.1;
    assert(child_tiles(p)[i] == t);
}

/// A chunk's tile and its offset inside the tile locate the chunk: the
/// tile's first chunk plus the offset in chunks.
pub proof fn lemma_chunk_tile_decomposes(chunk: ChunkPos)
    ensures
        (chunk.x as int / 16) * 16 + (chunk.x as int % 16) == chunk.x,
        (chunk.z as int / 16) * 16 + (chunk.z as int % 16) == chunk.z,
        0 <= chunk.x as int % 16 < 16,
        0 <= chunk.z as int % 16 < 16,
{
}

} // verus!
