pub mod codecs;
pub mod decompressor;
pub mod keys;
pub mod reader;
pub mod sstable;
pub mod store;

pub use self::decompressor::decompress_payload;
pub use self::keys::{DbKey, Dimension, KeyTag};
pub use self::reader::{ChunkData, WorldDb};
pub use self::sstable::read_sstable;
