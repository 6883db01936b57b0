use super::palette::{BlockState, Palette};
use crate::common::coordinates::block_subchunk_index;
use vstd::prelude::*;

verus! {

/// One layer of a subchunk: a palette index for each of its 4096 blocks
/// (see [`crate::common::coordinates::subchunk_index`] for the order) and
/// the palette the indices refer to.
#[derive(Debug, PartialEq)]
pub struct SubChunkStorage {
    pub blocks: Box<[u16; 4096]>,
    pub palette: Palette,
}

impl SubChunkStorage {
    pub fn new(blocks: Box<[u16; 4096]>, palette: Palette) -> (res: Self)
        ensures
            res.blocks@ == blocks@,
            res.palette@ == palette@,
    {
        Self { blocks, palette }
    }

    /// The palette index stored for the block at `(x, y, z)`.
    pub fn get_palette_index(&self, x: usize, y: usize, z: usize) -> (res: usize)
        requires
            ((x << 8usize) | (z << 4usize) | y) < 4096,
        ensures
            res == self.blocks@[((x << 8usize) | (z << 4usize) | y) as int],
    {
        let idx = block_subchunk_index(x, y, z);
        self.blocks[idx] as usize
    }

    /// The palette entry of the block at `(x, y, z)`, if its index is inside
    /// the palette.
    pub fn get_block(&self, x: usize, y: usize, z: usize) -> (res: Option<&BlockState>)
        requires
            ((x << 8usize) | (z << 4usize) | y) < 4096,
        ensures
            ({
                let i = self.blocks@[((x << 8usize) | (z << 4usize) | y) as int] as int;
                &&& i < self.palette@.len() ==> res == Some(&self.palette@[i])
                &&& i >= self.palette@.len() ==> res is None
            }),
    {
        let palette_idx = self.get_palette_index(x, y, z);
        self.palette.get(palette_idx)
    }
}

/// A 16x16x16 section of a chunk column.
#[derive(Debug, PartialEq)]
pub struct SubChunk {
    pub version: u8,
    pub subchunk_y: Option<i8>,
    pub layers: Vec<SubChunkStorage>,
}

impl SubChunk {
    pub fn new(version: u8, layers: Vec<SubChunkStorage>, subchunk_y: Option<i8>) -> (res: Self)
        ensures
            res.version == version,
            res.subchunk_y == subchunk_y,
            res.layers@ == layers@,
    {
        Self { version, subchunk_y, layers }
    }

    /// The block at `(x, y, z)` in layer `layer`, if the layer exists and its
    /// palette holds the stored index.
    pub fn get_block(&self, layer: usize, x: usize, y: usize, z: usize) -> (res: Option<&BlockState>)
        requires
            ((x << 8usize) | (z << 4usize) | y) < 4096,
        ensures
            layer >= self.layers@.len() ==> res is None,
            layer < self.layers@.len() ==> ({
                let s = self.layers@[layer as int];
                let i = s.blocks@[((x << 8usize) | (z << 4usize) | y) as int] as int;
                &&& i < s.palette@.len() ==> res == Some(&s.palette@[i])
                &&& i >= s.palette@.len() ==> res is None
            }),
    {
        if layer < self.layers.len() {
            self.layers[layer].get_block(x, y, z)
        } else {
            None
        }
    }
}

} // verus!
