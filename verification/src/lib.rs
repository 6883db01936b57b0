//! Bedrock Edition world storage decoding and map tiling.
//!
//! The crate decodes LevelDB keys and tables of a Bedrock world, the NBT and
//! subchunk formats stored in them, and plans the tile pyramid of a rendered
//! map. Every function carries a contract that Verus checks.

pub mod cli;
pub mod common;
pub mod leveldb;
pub mod nbt;
pub mod raster;
pub mod subchunk;
pub mod tiler;
pub mod web;

pub use crate::common::{block_subchunk_index, AmberError, BlockPos, ChunkPos, Result};
pub use crate::leveldb::{decompress_payload, ChunkData, DbKey, Dimension, KeyTag, WorldDb};
pub use crate::subchunk::{BlockState, Palette, SubChunk, SubChunkParser, SubChunkStorage};
