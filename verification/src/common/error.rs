use vstd::prelude::*;

verus! {

/// Errors raised while decoding world data.
///
/// Each message-carrying variant holds the text that describes the failure.
#[derive(Debug, Clone, PartialEq, Eq)]
pub enum AmberError {
    InvalidKeyLength { expected: usize, actual: usize },
    UnknownKeyTag(u8),
    DecompressionFailed(String),
    UnsupportedSubChunkVersion(u8),
    CorruptSubChunk(String),
    NbtError(String),
    PaletteOutOfBounds { index: usize, size: usize },
    BufferUnderflow { needed: usize, remaining: usize },
}

pub type Result<T> = std::result::Result<T, AmberError>;

} // verus!
