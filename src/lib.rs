pub mod analyzer;
pub mod codec;
pub mod grid;
pub mod palette;
pub mod sampling;

pub use analyzer::{AnalyzerError, HandleImage};
pub use grid::PixelGrid;
