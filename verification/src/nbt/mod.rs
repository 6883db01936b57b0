pub mod reader;
pub mod tag;


pub use self::reader::NbtReader;
pub use self::tag::{NbtTag, NbtValue};
