//! Settling the size of the grid before an image is scaled.

use crate::RectSize;
use vstd::prelude::*;

verus! {

/// The width of the grid where none is asked for and none can be found out.
pub const DEFAULT_WIDTH: usize = 128;

/// The height of the grid where none is asked for and none can be found out.
pub const DEFAULT_HEIGHT: usize = 64;

/// By how much the size that the aspect ratio wants may exceed the grid
/// before the grid is trimmed.
pub const TRIM_BUFFER: usize = 5;

/// What a caller asked for as the size of the grid.
#[derive(Clone, Copy, Debug, PartialEq, Eq, Structural)]
pub enum SizeRequest {
    /// Both a width and a height.
    Exact(RectSize),
    /// Neither: the size is to be found out.
    Automatic,
    /// Only one of the two, which is no size.
    Incomplete,
}

/// Which side of the grid was trimmed to keep the aspect ratio.
#[derive(Clone, Copy, Debug, PartialEq, Eq, Structural)]
pub enum Trimmed {
    /// The grid is as it was.
    Neither,
    /// The height was replaced by the wanted height.
    Height,
    /// The width was replaced by the wanted width.
    Width,
}

/// The sum of the two, or the largest `usize` where the sum is larger.
pub open spec fn saturating_sum(left: usize, right: usize) -> int {
    if left + right > usize::MAX {
        usize::MAX as int
    } else {
        left + right
    }
}

/// The grid after trimming and the side that was trimmed, given the size
/// that the aspect ratio of the source wants. A wanted width that exceeds
/// the grid's by more than the buffer keeps the grid's width and takes the
/// wanted height; else a wanted height that exceeds the grid's by more than
/// the buffer keeps the grid's height and takes the wanted width.
pub open spec fn trimmed(wanted: RectSize, output_size: RectSize) -> (RectSize, Trimmed) {
    if wanted.width > saturating_sum(output_size.width, TRIM_BUFFER) {
        (RectSize { width: output_size.width, height: wanted.height }, Trimmed::Height)
    } else if wanted.height > saturating_sum(output_size.height, TRIM_BUFFER) {
        (RectSize { width: wanted.width, height: output_size.height }, Trimmed::Width)
    } else {
        (output_size, Trimmed::Neither)
    }
}

/// Sorts out what was asked for: a width and a height together are a size,
/// neither leaves the size to be found out, and one alone is no size.
pub fn requested_size(width: Option<usize>, height: Option<usize>) -> (request: SizeRequest)
    ensures
        request == match (width, height) {
            (Some(width), Some(height)) => SizeRequest::Exact(RectSize { width, height }),
            (None, None) => SizeRequest::Automatic,
            _ => SizeRequest::Incomplete,
        },
{
    match (width, height) {
        (Some(width), Some(height)) => SizeRequest::Exact(RectSize { width, height }),
        (None, None) => SizeRequest::Automatic,
        _ => SizeRequest::Incomplete,
    }
}

/// The size of the grid where none was asked for: that of the terminal if it
/// is known, else the default.
pub fn automatic_size(terminal: Option<RectSize>) -> (size: RectSize)
    ensures
        size == match terminal {
            Some(terminal) => terminal,
            None => (RectSize { width: DEFAULT_WIDTH, height: DEFAULT_HEIGHT }),
        },
{
    match terminal {
        Some(terminal) => terminal,
        None => RectSize { width: DEFAULT_WIDTH, height: DEFAULT_HEIGHT },
    }
}

/// Trims the grid to the size that the aspect ratio of the source wants, and
/// says which side was trimmed.
pub fn trim_to_wanted(wanted: RectSize, output_size: RectSize) -> (fitted: (RectSize, Trimmed))
    ensures
        fitted == trimmed(wanted, output_size),
{
    if wanted.width > output_size.width.saturating_add(TRIM_BUFFER) {
        (RectSize { width: output_size.width, height: wanted.height }, Trimmed::Height)
    } else if wanted.height > output_size.height.saturating_add(TRIM_BUFFER) {
        (RectSize { width: wanted.width, height: output_size.height }, Trimmed::Width)
    } else {
        (output_size, Trimmed::Neither)
    }
}

} // verus!
