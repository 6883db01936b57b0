pub mod compositor;
pub mod coordinates;
pub mod encoder;
pub mod pipeline;
pub mod pyramid;

pub use self::compositor::{TileBuffer, TILE_BYTES, TILE_SIZE};
pub use self::coordinates::TileCoord;
pub use self::encoder::TileFormat;
pub use self::pyramid::downsample_quadrants;
