//! The answer a caller gets for an image: its size in a fixed-width header,
//! and the image as a PNG file in base64.

use vstd::prelude::*;
use crate::codec::{base64_encode, base64_text, image_error_text, png_encode, png_encoding};
use crate::raster::{rgba_bytes, Raster};

verus! {

/// Why an image could not be put into text.
#[derive(Debug, PartialEq, Eq)]
pub enum ResponseError {
    /// The image or its PNG file is too large to encode on this machine.
    TooLarge,
    /// The PNG writer failed, with its message.
    Codec(String),
}

/// The longest PNG file whose base64 text still fits in memory.
pub open spec fn base64_limit() -> int {
    3 * ((usize::MAX - 4) / 4) + 2
}

/// The character of a decimal digit.
pub open spec fn digit(d: nat) -> char {
    if d == 0 {
        '0'
    } else if d == 1 {
        '1'
    } else if d == 2 {
        '2'
    } else if d == 3 {
        '3'
    } else if d == 4 {
        '4'
    } else if d == 5 {
        '5'
    } else if d == 6 {
        '6'
    } else if d == 7 {
        '7'
    } else if d == 8 {
        '8'
    } else {
        '9'
    }
}

/// The last `count` decimal digits of `n`, most significant first, with
/// zeros in front where `n` has fewer digits.
pub open spec fn low_digits(n: nat, count: nat) -> Seq<char>
    decreases count,
{
    if count == 0 {
        Seq::empty()
    } else {
        low_digits(n / 10, (count - 1) as nat).push(digit(n % 10))
    }
}

/// A size in decimal, filled with zeros in front to nine digits. A size of a
/// thousand million or more takes ten.
pub open spec fn padded_size(n: u32) -> Seq<char> {
    if n < 1_000_000_000 {
        low_digits(n as nat, 9)
    } else {
        low_digits(n as nat, 10)
    }
}

/// The answer for an image of the given size whose encoded text is
/// `payload`: width, `x`, height, a space, and the payload.
pub open spec fn response_text(width: u32, height: u32, payload: Seq<char>) -> Seq<char> {
    padded_size(width) + seq!['x'] + padded_size(height) + seq![' '] + payload
}

/// The character of the decimal digit `d`.
fn digit_char(d: u32) -> (c: char)
    requires
        d < 10,
    ensures
        c == digit(d as nat),
{
    if d == 0 {
        '0'
    } else if d == 1 {
        '1'
    } else if d == 2 {
        '2'
    } else if d == 3 {
        '3'
    } else if d == 4 {
        '4'
    } else if d == 5 {
        '5'
    } else if d == 6 {
        '6'
    } else if d == 7 {
        '7'
    } else if d == 8 {
        '8'
    } else {
        '9'
    }
}

/// Appends a size in decimal, filled with zeros in front to nine digits.
fn push_padded_size(text: &mut String, n: u32)
    ensures
        final(text)@ == old(text)@ + padded_size(n),
{
    let count: usize = if n < 1_000_000_000 {
        9
    } else {
        10
    };
    let mut reversed: Vec<char> = Vec::new();
    let mut rest: u32 = n;
    while reversed.len() < count
        invariant
            reversed@.len() <= count,
            low_digits(n as nat, count as nat) == low_digits(
                rest as nat,
                (count - reversed@.len()) as nat,
            ) + reversed@.reverse(),
        decreases count - reversed@.len(),
    {
        let ghost before = reversed@;
        reversed.push(digit_char(rest % 10));
        proof {
            let left = (count - before.len()) as nat;
            assert(low_digits(rest as nat, left) == low_digits(
                (rest / 10) as nat,
                (left - 1) as nat,
            ).push(digit((rest % 10) as nat)));
            assert(reversed@.reverse() =~= seq![digit((rest % 10) as nat)] + before.reverse());
            assert(low_digits(rest as nat, left) + before.reverse() =~= low_digits(
                (rest / 10) as nat,
                (left - 1) as nat,
            ) + reversed@.reverse());
        }
        rest = rest / 10;
    }
    let ghost start = text@;
    let mut k: usize = count;
    while k > 0
        invariant
            k <= count,
            reversed@.len() == count,
            text@ == start + reversed@.reverse().subrange(0, count - k),
        decreases k,
    {
        k = k - 1;
        let ghost so_far = text@;
        text.push(reversed[k]);
        proof {
            assert(reversed@.reverse()[count - k - 1] == reversed@[k as int]);
            assert(text@ =~= start + reversed@.reverse().subrange(0, count - k));
        }
    }
    proof {
        assert(reversed@.reverse().subrange(0, count as int) =~= reversed@.reverse());
        assert(low_digits(rest as nat, 0) =~= Seq::<char>::empty());
        assert(low_digits(n as nat, count as nat) =~= reversed@.reverse());
    }
}

/// Puts the size of an image in front of its encoded text.
pub fn frame_response(width: u32, height: u32, payload: &String) -> (text: String)
    ensures
        text@ == response_text(width, height, payload@),
{
    let mut text = String::new();
    push_padded_size(&mut text, width);
    text.push('x');
    push_padded_size(&mut text, height);
    text.push(' ');
    text.push_str(payload.as_str());
    proof {
        assert(text@ =~= response_text(width, height, payload@));
    }
    text
}

/// Turns what the PNG writer gave into text: the base64 text of the file,
/// or the reason why there is none.
pub fn text_of_encoding(encoded: Result<Vec<u8>, String>) -> (text: Result<String, ResponseError>)
    ensures
        match encoded {
            Ok(bytes) => if bytes@.len() <= base64_limit() {
                text matches Ok(t) && t@ == base64_text(bytes@)
            } else {
                text == Err::<String, ResponseError>(ResponseError::TooLarge)
            },
            Err(message) => text matches Err(ResponseError::Codec(m)) && m@ == message@,
        },
{
    match encoded {
        Ok(bytes) => {
            if bytes.len() / 3 <= (usize::MAX - 4) / 4 {
                Ok(base64_encode(&bytes))
            } else {
                Err(ResponseError::TooLarge)
            }
        },
        Err(message) => Err(ResponseError::Codec(message)),
    }
}

/// Encodes an image as a PNG file and gives the file in base64.
///
/// An image with more bytes than memory can address is refused as too
/// large. Otherwise the PNG writer decides: its failure comes back with its
/// message, and its file goes into base64 unless it is too large for that.
pub fn img_as_base64(image: &Raster) -> (text: Result<String, ResponseError>)
    requires
        image.wf(),
    ensures
        4 * image.pixels().len() > usize::MAX ==> text == Err::<String, ResponseError>(
            ResponseError::TooLarge,
        ),
        text matches Ok(t) ==> t@ == base64_text(
            png_encoding(
                image.columns() as u32,
                image.rows() as u32,
                rgba_bytes(image.pixels()),
            ),
        ),
        text matches Err(ResponseError::TooLarge) ==> 4 * image.pixels().len() > usize::MAX
            || png_encoding(
            image.columns() as u32,
            image.rows() as u32,
            rgba_bytes(image.pixels()),
        ).len() > base64_limit(),
{
    let width: u32 = image.width();
    let height: u32 = image.height();
    assert(width * height <= u32::MAX * u32::MAX) by (nonlinear_arith)
        requires
            0 <= width <= u32::MAX,
            0 <= height <= u32::MAX,
    ;
    let count: u64 = (width as u64) * (height as u64);
    if count > (usize::MAX / 4) as u64 {
        return Err(ResponseError::TooLarge);
    }
    let rgba: Vec<u8> = image.to_rgba_bytes();
    let encoded: Result<Vec<u8>, String> = match png_encode(width, height, rgba) {
        Ok(bytes) => Ok(bytes),
        Err(error) => Err(image_error_text(&error)),
    };
    text_of_encoding(encoded)
}

/// The answer for an image: its size, and the image as a PNG file in
/// base64; or the reason why the image could not be put into text.
pub fn answer_for(image: &Raster) -> (answer: Result<String, ResponseError>)
    requires
        image.wf(),
    ensures
        4 * image.pixels().len() > usize::MAX ==> answer == Err::<String, ResponseError>(
            ResponseError::TooLarge,
        ),
        answer matches Ok(text) ==> text@ == response_text(
            image.columns() as u32,
            image.rows() as u32,
            base64_text(
                png_encoding(
                    image.columns() as u32,
                    image.rows() as u32,
                    rgba_bytes(image.pixels()),
                ),
            ),
        ),
        answer matches Err(ResponseError::TooLarge) ==> 4 * image.pixels().len() > usize::MAX
            || png_encoding(
            image.columns() as u32,
            image.rows() as u32,
            rgba_bytes(image.pixels()),
        ).len() > base64_limit(),
{
    match img_as_base64(image) {
        Ok(payload) => Ok(frame_response(image.width(), image.height(), &payload)),
        Err(e) => Err(e),
    }
}

} // verus!
