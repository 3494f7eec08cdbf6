//! Turns a raster image into a small grid of brightness values and renders
//! that grid as text.
//!
//! The pixels of the source are first reduced to one brightness sample each
//! ([`grayscale`]). Each axis of the source is split into one span per target
//! cell ([`partition`]), and every target cell becomes the average of the
//! samples in its box of the source ([`scaler`]). The grid is shown as text,
//! one character per cell ([`symbols`]).
//!
//! Around that, [`acquire`] turns the bytes of an image file, or the text
//! that a clipboard helper printed, into a source image, and [`sizing`]
//! settles how large the grid is to be.

use vstd::prelude::*;

pub mod acquire;
pub mod grayscale;
pub mod partition;
pub mod scaler;
pub mod sizing;
pub mod symbols;

pub use crate::grayscale::pixel_to_grayscale;
pub use crate::partition::get_ranges_by_ratio;
pub use crate::scaler::scale;
pub use crate::symbols::get_ascii_character;

verus! {

/// A width and a height, counted in cells.
#[derive(Clone, Copy, Debug, PartialEq, Eq, Structural)]
pub struct RectSize {
    pub width: usize,
    pub height: usize,
}

/// A raster of `width` by `height` cells, row after row in `data`.
///
/// As a source image it holds four bytes per cell: red, green, blue and
/// alpha. As a grid of brightness it holds one byte per cell.
#[derive(Clone, Debug)]
pub struct ImageData {
    pub width: usize,
    pub height: usize,
    pub data: Vec<u8>,
}

impl ImageData {
    /// Whether `data` holds exactly four bytes for each of the cells.
    pub open spec fn is_rgba(&self) -> bool {
        self.data@.len() == 4 * (self.width * self.height)
    }

    /// Whether `data` holds exactly one byte for each of the cells.
    pub open spec fn is_grid(&self) -> bool {
        self.data@.len() == self.width * self.height
    }
}

/// Why an image could not be scaled.
#[derive(Clone, Copy, Debug, PartialEq, Eq, Structural)]
pub enum ScaleError {
    /// The bytes handed in are not four for each pixel of the image.
    InvalidInput,
}

} // verus!
