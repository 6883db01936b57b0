pub mod chunk_raster;
pub mod colormap;
pub mod hillshade;
pub mod traverser;

pub use self::chunk_raster::ChunkRasterResult;
pub use self::colormap::{BlockColor, ColorMap};
pub use self::hillshade::shading_heights;
pub use self::traverser::{column_samples, ColumnSample, ColumnScanResult};
