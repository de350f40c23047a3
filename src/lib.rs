//! A paint canvas whose pixels hold pigment state rather than colour.
//!
//! Each cell of the canvas holds a pigment value of a caller-chosen type;
//! beside the cells the canvas keeps a row-major RGBA byte buffer that a
//! renderer reads directly. A brush stamp visits the in-bounds pixels of a
//! square around its centre and lets the caller mix pigment into each one.

pub mod geometry;
pub mod pixel;
pub mod canvas;
pub mod laws;

pub use geometry::{HEIGHT, WIDTH, CELLS};
pub use pixel::clamp_channel;
pub use canvas::ImageBuffer;
