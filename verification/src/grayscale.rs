//! Reducing red, green, blue and alpha to one brightness sample per pixel.

use crate::ScaleError;
use vstd::prelude::*;
use vstd::slice::slice_subrange;

verus! {

/// The brightness of one pixel: the average of its three colours, rounded
/// down, but never more than its alpha. A transparent pixel is dark whatever
/// its colour.
pub open spec fn gray_level(red: u8, green: u8, blue: u8, alpha: u8) -> u8 {
    let average = (red + green + blue) / 3;
    if average <= alpha {
        average as u8
    } else {
        alpha
    }
}

/// The brightness of every whole group of four bytes in `bytes`, in order.
pub open spec fn grayscale_of(bytes: Seq<u8>) -> Seq<u8> {
    Seq::new(
        bytes.len() / 4,
        |pixel: int|
            gray_level(
                bytes[4 * pixel],
                bytes[4 * pixel + 1],
                bytes[4 * pixel + 2],
                bytes[4 * pixel + 3],
            ),
    )
}

/// The brightness of the pixel whose red, green, blue and alpha are the first
/// four bytes of `chunk`.
pub fn pixel_to_grayscale(chunk: &[u8]) -> (level: u8)
    requires
        chunk@.len() >= 4,
    ensures
        level == gray_level(chunk@[0], chunk@[1], chunk@[2], chunk@[3]),
{
    let red: u32 = chunk[0] as u32;
    let green: u32 = chunk[1] as u32;
    let blue: u32 = chunk[2] as u32;
    let alpha: u32 = chunk[3] as u32;
    let average: u32 = (red + green + blue) / 3;
    if average <= alpha {
        average as u8
    } else {
        chunk[3]
    }
}

/// Reduces a stream of red, green, blue and alpha bytes to one brightness
/// sample per pixel, in the same order. A stream that does not end on a whole
/// pixel is refused.
pub fn to_grayscale(bytes: &[u8]) -> (reduced: Result<Vec<u8>, ScaleError>)
    ensures
        reduced is Ok <==> bytes@.len() % 4 == 0,
        reduced matches Ok(gray) ==> gray@ == grayscale_of(bytes@) && gray@.len() * 4
            == bytes@.len(),
        reduced matches Err(error) ==> error == ScaleError::InvalidInput,
{
    if bytes.len() % 4 != 0 {
        return Err(ScaleError::InvalidInput);
    }
    let pixels: usize = bytes.len() / 4;
    let mut gray: Vec<u8> = Vec::new();
    let mut pixel: usize = 0;
    while pixel < pixels
        invariant
            bytes@.len() == 4 * pixels,
            bytes@.len() <= usize::MAX,
            pixel <= pixels,
            gray@.len() == pixel,
            forall|at: int| 0 <= at < pixel ==> gray@[at] == grayscale_of(bytes@)[at],
        decreases pixels - pixel,
    {
        let chunk = slice_subrange(bytes, 4 * pixel, 4 * pixel + 4);
        gray.push(pixel_to_grayscale(chunk));
        pixel = pixel + 1;
    }
    assert(gray@ =~= grayscale_of(bytes@));
    Ok(gray)
}

} // verus!
