pub mod binary;
pub mod coordinates;
pub mod error;
pub mod text;
pub mod utf8;

pub use self::coordinates::{block_subchunk_index, BlockPos, ChunkPos};
pub use self::error::{AmberError, Result};
