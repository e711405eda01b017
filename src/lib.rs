//! Terminal video playback as coloured character grids: rasterising decoded
//! images into run-length-encoded frames, a checksummed frame cache, and the
//! real-time playback scheduler.

pub mod cli;
pub mod codec;
pub mod color;
pub mod error;
pub mod glyph;
pub mod pipeline;
pub mod player;
pub mod raster;
pub mod render;
pub mod rle;
pub mod schedule;
pub mod terminal;
pub mod text;
pub mod utils;
