use vstd::prelude::*;

verus! {

/// A chunk drawn as seen from above: 16x16 RGBA pixels, row by row, and
/// the surface height of each column.
pub struct ChunkRasterResult {
    pub pixels: [u8; 1024],
    pub heightmap: [i16; 256],
}

} // verus!
