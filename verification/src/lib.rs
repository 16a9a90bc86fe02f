//! Multi-layer image compositing with verified placement, clipping and
//! ordering semantics.
//!
//! The library decodes a base image and any number of overlay images from
//! in-memory byte buffers, composites each overlay onto the base at a list of
//! pixel coordinates (clipping whatever falls outside the base), and encodes
//! the result as PNG bytes.  Decoding, per-pixel alpha blending and PNG
//! encoding are done by the `image` crate behind trusted declarations; the
//! pixel grid, the placement and clipping arithmetic, the layer ordering and
//! the error propagation are verified.

pub mod codec;
pub mod grid;
pub mod ops;
pub mod pixel;

pub use codec::{grid_from_rgba, grid_to_rgba};
pub use grid::Grid;
pub use ops::{decode_image, encode_image, multi_paste, paste, PasteError};
pub use pixel::Pixel;
