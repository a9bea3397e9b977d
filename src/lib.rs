//! Sorted pixel sets with merge-based set algebra, and a cache that covers a
//! set with disjoint axis-aligned boxes.

pub mod pixel;
mod random;
pub mod set;
pub mod cache;
pub mod color;
pub mod laws;
pub mod shapes;

pub use cache::{PixelBox, PixelCache};
pub use color::Color;
pub use pixel::{Bounds, Pixel};
pub use set::PixelSet;

pub use cache::grow::grow_pixel_into_box;
