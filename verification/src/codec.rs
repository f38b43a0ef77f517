//! The outside encoders the engine hands its canvas to: the PNG writer of
//! the `image` crate and the text encoder of the `base64` crate.
//!
//! Nothing in this file is proved. Each item states what the rest of the
//! crate relies on.

use vstd::prelude::*;

verus! {

/// The error type of the `image` crate. Its values are carried through and
/// never looked into.
#[verifier::external_type_specification]
#[verifier::external_body]
pub struct ExImageError(image::ImageError);

/// The PNG file that the `image` crate writes for an image of
/// `width * height` pixels of four 8-bit channels, given as bytes row by row.
pub uninterp spec fn png_encoding(width: u32, height: u32, rgba: Seq<u8>) -> Seq<u8>;

/// The base64 text of `bytes` as the `base64` crate writes it with its
/// `STANDARD` engine: standard alphabet, padded.
pub uninterp spec fn base64_text(bytes: Seq<u8>) -> Seq<char>;

/// Calls `image::DynamicImage::write_to` with `ImageFormat::Png` on an image
/// of 8-bit RGBA pixels, writing into memory. The contract claims that the
/// bytes written depend on the size and the pixels alone. Whether the writer
/// succeeds is left to it. The buffer must hold exactly four bytes for each
/// pixel, which is what `ImageBuffer::from_raw` and the writer ask for.
#[verifier::external_body]
pub(crate) fn png_encode(width: u32, height: u32, rgba: Vec<u8>) -> (encoded: Result<
    Vec<u8>,
    image::ImageError,
>)
    requires
        rgba@.len() == 4 * (width * height),
    ensures
        encoded matches Ok(bytes) ==> bytes@ == png_encoding(width, height, rgba@),
{
    let pixels = image::RgbaImage::from_raw(width, height, rgba).unwrap();
    let mut buffer = Vec::new();
    image::DynamicImage::ImageRgba8(pixels).write_to(
        &mut std::io::Cursor::new(&mut buffer),
        image::ImageFormat::Png,
    )?;
    Ok(buffer)
}

/// Calls `to_string` on an error of the `image` crate: the message that its
/// `Display` impl writes. Nothing is claimed of the message.
#[verifier::external_body]
pub(crate) fn image_error_text(error: &image::ImageError) -> (message: String) {
    error.to_string()
}

/// Calls `base64::Engine::encode` on `base64::engine::general_purpose::STANDARD`.
/// The contract claims that the text depends on the bytes alone. The call
/// panics where the length of the text would not fit in `usize`: four
/// characters for every three bytes, and four more for a rest of one or two.
#[verifier::external_body]
pub(crate) fn base64_encode(bytes: &Vec<u8>) -> (text: String)
    requires
        4 * (bytes@.len() / 3) + 4 <= usize::MAX,
    ensures
        text@ == base64_text(bytes@),
{
    base64::Engine::encode(&base64::engine::general_purpose::STANDARD, bytes)
}

/// `String::push` appends one character.
pub assume_specification[ String::push ](text: &mut String, ch: char)
    ensures
        final(text)@ == old(text)@.push(ch),
;

/// `String::push_str` appends the characters of a string slice.
pub assume_specification[ String::push_str ](text: &mut String, tail: &str)
    ensures
        final(text)@ == old(text)@ + tail@,
;

} // verus!
