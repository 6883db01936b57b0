use vstd::prelude::*;

verus! {

/// Side of a map tile in pixels.
pub const TILE_SIZE: usize = 256;

/// Bytes of a tile: four (red, green, blue, alpha) per pixel.
pub const TILE_BYTES: usize = TILE_SIZE * TILE_SIZE * 4;

/// Byte offset of channel `ch` of the pixel at column `x`, row `y` of a
/// tile.
pub open spec fn tile_index(x: int, y: int, ch: int) -> int {
    (y * 256 + x) * 4 + ch
}

/// An RGBA tile image, row by row.
#[derive(Clone, Debug)]
pub struct TileBuffer {
    pub pixels: Box<[u8; TILE_BYTES]>,
}

/// Where byte `i` of a tile falls in a 16x16 chunk image blitted with its
/// top-left corner at pixel `(ox, oy)`: the chunk byte it takes, if any.
pub open spec fn blit_source(ox: int, oy: int, i: int) -> Option<int> {
    let d = i - tile_index(ox, oy, 0);
    if 0 <= d && d / 1024 < 16 && d % 1024 < 64 {
        Some((d / 1024) * 64 + d % 1024)
    } else {
        None
    }
}

impl Default for TileBuffer {
    fn default() -> (res: Self)
        ensures
            forall|i: int| 0 <= i < TILE_BYTES ==> res.pixels@[i] == 0,
    {
        Self::new()
    }
}

impl TileBuffer {
    /// A fully transparent black tile.
    pub fn new() -> (res: Self)
        ensures
            forall|i: int| 0 <= i < TILE_BYTES ==> res.pixels@[i] == 0,
    {
        Self { pixels: Box::new([0u8; TILE_BYTES]) }
    }

    pub fn from_raw(data: Box<[u8; TILE_BYTES]>) -> (res: Self)
        ensures
            res.pixels@ == data@,
    {
        Self { pixels: data }
    }

    /// Whether every byte is zero.
    pub fn is_empty(&self) -> (res: bool)
        ensures
            res == forall|i: int| 0 <= i < TILE_BYTES ==> self.pixels@[i] == 0,
    {
        let mut i: usize = 0;
        while i < TILE_BYTES
            invariant
                i <= TILE_BYTES,
                forall|k: int| 0 <= k < i ==> self.pixels@[k] == 0,
            decreases TILE_BYTES - i,
        {
            if self.pixels[i] != 0 {
                return false;
            }
            i = i + 1;
        }
        true
    }

    /// Copies a 16x16 chunk image into the tile with its top-left corner at
    /// pixel `(ox, oy)`: chunk row `r` (64 bytes) lands at tile byte
    /// `((oy + r) * 256 + ox) * 4`.
    pub fn blit_chunk(&mut self, ox: usize, oy: usize, chunk_pixels: &[u8; 1024])
        requires
            (oy + 15) * 256 + ox + 16 <= 65536,
        ensures
            forall|i: int| 0 <= i < TILE_BYTES ==> final(self).pixels@[i] == match blit_source(
                ox as int,
                oy as int,
                i,
            ) {
                Some(j) => chunk_pixels@[j],
                None => old(self).pixels@[i],
            },
    {
        let ghost start = self.pixels@;
        let base = (oy * TILE_SIZE + ox) * 4;
        let mut cz: usize = 0;
        while cz < 16
            invariant
                (oy + 15) * 256 + ox + 16 <= 65536,
                base == tile_index(ox as int, oy as int, 0),
                cz <= 16,
                self.pixels@.len() == TILE_BYTES,
                forall|i: int| 0 <= i < TILE_BYTES ==> self.pixels@[i] == match blit_source(
                    ox as int,
                    oy as int,
                    i,
                ) {
                    Some(j) => if j / 64 < cz {
                        chunk_pixels@[j]
                    } else {
                        start[i]
                    },
                    None => start[i],
                },
            decreases 16 - cz,
        {
            let row = base + cz * 1024;
            let src = cz * 64;
            let mut k: usize = 0;
            while k < 64
                invariant
                    (oy + 15) * 256 + ox + 16 <= 65536,
                    base == tile_index(ox as int, oy as int, 0),
                    cz < 16,
                    row == base + cz * 1024,
                    src == cz * 64,
                    k <= 64,
                    self.pixels@.len() == TILE_BYTES,
                    forall|i: int| 0 <= i < TILE_BYTES ==> self.pixels@[i] == match blit_source(
                        ox as int,
                        oy as int,
                        i,
                    ) {
                        Some(j) => if j / 64 < cz || (j / 64 == cz && j % 64 < k) {
                            chunk_pixels@[j]
                        } else {
                            start[i]
                        },
                        None => start[i],
                    },
                decreases 64 - k,
            {
                let ghost before = self.pixels@;
                self.pixels[row + k] = chunk_pixels[src + k];
                proof {
                    assert forall|i: int| 0 <= i < TILE_BYTES implies self.pixels@[i] == match blit_source(
                        ox as int,
                        oy as int,
                        i,
                    ) {
                        Some(j) => if j / 64 < cz || (j / 64 == cz && j % 64 < k + 1) {
                            chunk_pixels@[j]
                        } else {
                            start[i]
                        },
                        None => start[i],
                    } by {
                        let d = i - base;
                        if i == row + k {
                            assert(d == cz * 1024 + k);
                            assert(d / 1024 == cz && d % 1024 == k) by (nonlinear_arith)
                                requires
                                    d == cz * 1024 + k,
                                    k < 64,
                                    cz < 16,
                            ;
                            assert(blit_source(ox as int, oy as int, i) == Some((cz * 64 + k) as int));
                            assert((cz * 64 + k) / 64 == cz && (cz * 64 + k) % 64 == k) by (nonlinear_arith)
                                requires
                                    k < 64,
                            ;
                        } else {
                            if let Some(j) = blit_source(ox as int, oy as int, i) {
                                assert(j == (d / 1024) * 64 + d % 1024);
                                assert(j / 64 == d / 1024 && j % 64 == d % 1024) by (nonlinear_arith)
                                    requires
                                        j == (d / 1024) * 64 + d % 1024,
                                        0 <= d % 1024 < 64,
                                        d / 1024 >= 0,
                                ;
                                if j / 64 == cz && j % 64 == k {
                                    assert(d == (d / 1024) * 1024 + d % 1024) by (nonlinear_arith);
                                }
                            }
                        }
                    }
                }
                k = k + 1;
            }
            proof {
                assert forall|i: int| 0 <= i < TILE_BYTES implies self.pixels@[i] == match blit_source(
                    ox as int,
                    oy as int,
                    i,
                ) {
                    Some(j) => if j / 64 < cz + 1 {
                        chunk_pixels@[j]
                    } else {
                        start[i]
                    },
                    None => start[i],
                } by {
                    if let Some(j) = blit_source(ox as int, oy as int, i) {
                        let d = i - base;
                        assert(j / 64 == d / 1024 && j % 64 == d % 1024) by (nonlinear_arith)
                            requires
                                j == (d / 1024) * 64 + d % 1024,
                                0 <= d % 1024 < 64,
                                d / 1024 >= 0,
                        ;
                    }
                }
            }
            cz = cz + 1;
        }
    }
}

} // verus!
