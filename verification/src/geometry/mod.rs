//! Geometry: multi-unit scalars, points, sizes, rectangles, paper presets.

pub mod paper_size;
pub mod point;
pub mod rect;
pub mod size;
pub mod unit;

pub use paper_size::PaperSize;
pub use point::Point;
pub use rect::Rect;
pub use size::Size;
pub use unit::Unit;
