pub mod palette;
pub mod parser;
pub mod storage;

pub use self::palette::{BlockState, Palette};
pub use self::parser::SubChunkParser;
pub use self::storage::{SubChunk, SubChunkStorage};
