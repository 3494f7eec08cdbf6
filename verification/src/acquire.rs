//! Turning the bytes that a clipboard helper or a file hands over into a
//! source image.

use crate::ImageData;
use base64::Engine;
use vstd::prelude::*;

verus! {

/// Why handed-over bytes gave no image.
#[derive(Clone, Copy, Debug, PartialEq, Eq, Structural)]
pub enum AcquireError {
    /// The text from the clipboard helper is not base64.
    InvalidBase64,
    /// The bytes are not an image in a format that can be decoded.
    UndecodableImage,
}

/// base64's `DecodeError`, carried through unread.
#[verifier::external_type_specification]
#[verifier::external_body]
pub struct ExDecodeError(base64::DecodeError);

/// The image crate's `ImageError`, carried through unread.
#[verifier::external_type_specification]
#[verifier::external_body]
pub struct ExImageError(image::ImageError);

/// The bytes that standard base64 text with padding stands for, if the text
/// is well formed.
pub uninterp spec fn base64_decoded(text: Seq<u8>) -> Option<Seq<u8>>;

/// Calls `decode` of base64's `STANDARD` engine. The result is a function of
/// the text alone: the bytes that `base64_decoded` names, or an error where
/// it names none.
#[verifier::external_body]
fn decode_base64(text: &[u8]) -> (decoded: Result<Vec<u8>, base64::DecodeError>)
    ensures
        decoded matches Ok(bytes) ==> base64_decoded(text@) == Some(bytes@),
        decoded is Err ==> base64_decoded(text@) is None,
{
    base64::engine::general_purpose::STANDARD.decode(text)
}

/// Calls `load_from_memory` of the image crate and hands out what the loaded
/// picture gives as its `width`, its `height` and, through `into_rgba8` and
/// `into_vec`, its pixels as red, green, blue and alpha bytes. Nothing is
/// claimed of the result: the formats that the crate knows can be added to
/// while the process runs, so the bytes alone do not settle it.
#[verifier::external_body]
fn load_rgba(bytes: &[u8]) -> (loaded: Result<(u32, u32, Vec<u8>), image::ImageError>) {
    let picture = image::load_from_memory(bytes)?;
    Ok((picture.width(), picture.height(), picture.into_rgba8().into_vec()))
}

/// What a helper printed, less one carriage return and line feed at its end.
pub open spec fn without_line_ending(output: Seq<u8>) -> Seq<u8> {
    if output.len() >= 2 && output[output.len() - 2] == 13 && output[output.len() - 1] == 10 {
        output.take(output.len() - 2)
    } else {
        output
    }
}

/// Removes one carriage return and line feed from the end of `output`, if it
/// ends so.
pub fn strip_line_ending(output: Vec<u8>) -> (payload: Vec<u8>)
    ensures
        payload@ == without_line_ending(output@),
{
    let mut payload = output;
    let length: usize = payload.len();
    if length >= 2 && payload[length - 2] == 13 && payload[length - 1] == 10 {
        payload.truncate(length - 2);
    }
    payload
}

/// The source image of the given size over the given bytes.
pub fn image_from_parts(width: u32, height: u32, bytes: Vec<u8>) -> (image: ImageData)
    ensures
        image.width == width,
        image.height == height,
        image.data@ == bytes@,
{
    ImageData { width: width as usize, height: height as usize, data: bytes }
}

/// Decodes the bytes of an image file into a source image.
pub fn image_from_bytes(bytes: &[u8]) -> (decoded: Result<ImageData, AcquireError>)
    ensures
        decoded matches Err(error) ==> error == AcquireError::UndecodableImage,
{
    image_from_loaded(load_rgba(bytes))
}

/// What loading gave, as a source image: the image of the loaded size over
/// the loaded pixels, or, where loading failed, that the bytes are no image
/// that can be decoded.
pub fn image_from_loaded(loaded: Result<(u32, u32, Vec<u8>), image::ImageError>) -> (decoded:
    Result<ImageData, AcquireError>)
    ensures
        match loaded {
            Ok((width, height, pixels)) => decoded matches Ok(image) && image.width == width
                && image.height == height && image.data@ == pixels@,
            Err(_) => decoded matches Err(AcquireError::UndecodableImage),
        },
{
    match loaded {
        Ok((width, height, pixels)) => Ok(image_from_parts(width, height, pixels)),
        Err(_) => Err(AcquireError::UndecodableImage),
    }
}

/// The bytes of the image file that a clipboard helper printed as base64
/// text, or `None` where it printed nothing: the clipboard held no image.
pub fn payload_from_output(output: Vec<u8>) -> (payload: Result<Option<Vec<u8>>, AcquireError>)
    ensures
        without_line_ending(output@).len() == 0 ==> payload matches Ok(None),
        without_line_ending(output@).len() > 0 ==> match base64_decoded(
            without_line_ending(output@),
        ) {
            Some(bytes) => payload matches Ok(Some(file)) && file@ == bytes,
            None => payload matches Err(AcquireError::InvalidBase64),
        },
{
    let text = strip_line_ending(output);
    if text.len() == 0 {
        return Ok(None);
    }
    match decode_base64(text.as_slice()) {
        Ok(bytes) => Ok(Some(bytes)),
        Err(_) => Err(AcquireError::InvalidBase64),
    }
}

/// The image that a clipboard helper printed as base64 text, or `None`
/// where it printed nothing.
pub fn image_from_output(output: Vec<u8>) -> (image: Result<Option<ImageData>, AcquireError>)
    ensures
        without_line_ending(output@).len() == 0 ==> image matches Ok(None),
        without_line_ending(output@).len() > 0 ==> match base64_decoded(
            without_line_ending(output@),
        ) {
            Some(_) => image matches Ok(Some(_)) || image matches Err(
                AcquireError::UndecodableImage,
            ),
            None => image matches Err(AcquireError::InvalidBase64),
        },
{
    match payload_from_output(output) {
        Ok(None) => Ok(None),
        Ok(Some(file)) => match image_from_bytes(file.as_slice()) {
            Ok(image) => Ok(Some(image)),
            Err(error) => Err(error),
        },
        Err(error) => Err(error),
    }
}

} // verus!
