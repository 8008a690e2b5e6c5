//! Image encoding: PNG serialization of an RGBA buffer, standard base64,
//! and the self-describing `data:` URI wrapping of an encoded icon.

use vstd::prelude::*;
use crate::bitmap::normalize_spec;
use crate::bitmap::normalize_bitmap;

verus! {

/// The standard base64 alphabet, in value order.
pub open spec fn b64_alphabet() -> Seq<char> {
    "ABCDEFGHIJKLMNOPQRSTUVWXYZabcdefghijklmnopqrstuvwxyz0123456789+/"@
}

/// The alphabet character of a six-bit value.
pub open spec fn b64_char(v: int) -> char {
    b64_alphabet()[v]
}

/// RFC 4648 base64 with the standard alphabet and `=` padding: three
/// input bytes become four characters; a final group of one or two bytes
/// is padded to four characters with `=`.
pub open spec fn base64_encode(s: Seq<u8>) -> Seq<char>
    decreases s.len(),
{
    if s.len() == 0 {
        Seq::empty()
    } else if s.len() == 1 {
        let b0 = s[0] as int;
        seq![b64_char(b0 / 4), b64_char((b0 % 4) * 16), '=', '=']
    } else if s.len() == 2 {
        let b0 = s[0] as int;
        let b1 = s[1] as int;
        seq![b64_char(b0 / 4), b64_char((b0 % 4) * 16 + b1 / 16), b64_char((b1 % 16) * 4), '=']
    } else {
        let b0 = s[0] as int;
        let b1 = s[1] as int;
        let b2 = s[2] as int;
        seq![
            b64_char(b0 / 4),
            b64_char((b0 % 4) * 16 + b1 / 16),
            b64_char((b1 % 16) * 4 + b2 / 64),
            b64_char(b2 % 64),
        ] + base64_encode(s.skip(3))
    }
}

/// What the PNG serialization of a top-down RGBA buffer with the given
/// dimensions contains.
pub uninterp spec fn png_encoding(pixels: Seq<u8>, width: u32, height: u32) -> Seq<u8>;

/// Relies on base64's `Engine::encode` with the `STANDARD` engine, which
/// implements RFC 4648 base64 with the standard alphabet and `=` padding.
/// The call cannot panic: its buffer-size computation overflows only for
/// inputs longer than three quarters of the address space, and a slice
/// never exceeds half of it.
#[verifier::external_body]
fn base64_standard(bytes: &[u8]) -> (r: String)
    ensures
        r@ == base64_encode(bytes@),
{
    base64::Engine::encode(&base64::engine::general_purpose::STANDARD, bytes)
}

/// Relies on image's `PngEncoder::write_image` with 8-bit RGBA color:
/// the encoded bytes are a function of the pixel buffer and dimensions
/// alone. The length precondition matches the encoder's own buffer-size
/// check, so the call cannot panic. With nonzero dimensions it returns
/// `Ok`: the underlying encoder's only checks are for a zero dimension,
/// an invalid color combination and the buffer length, and every write
/// goes to an in-memory vector, which cannot fail.
#[verifier::external_body]
fn png_encode_rgba(pixels: &Vec<u8>, width: u32, height: u32) -> (r: Result<Vec<u8>, String>)
    requires
        pixels@.len() == 4 * (width as int) * (height as int),
    ensures
        r matches Ok(p) ==> p@ == png_encoding(pixels@, width, height),
        width > 0 && height > 0 ==> r is Ok,
{
    let mut png_data: Vec<u8> = Vec::new();
    let encoder = image::codecs::png::PngEncoder::new(&mut png_data);
    let outcome = image::ImageEncoder::write_image(
        encoder,
        pixels,
        width,
        height,
        image::ExtendedColorType::Rgba8,
    );
    match outcome {
        Ok(()) => Ok(png_data),
        Err(e) => Err(format!("Failed to encode PNG: {}", e)),
    }
}

/// Serializes a 32-bit device bitmap as PNG: normalizes it to top-down
/// RGBA (channel reorder, row flip for bottom-up storage), then encodes.
/// Rejects a buffer whose length is not `width * height * 4`, and
/// succeeds on every well-sized buffer with nonzero dimensions.
pub fn bitmap_to_png(buffer: Vec<u8>, width: u32, height: u32, is_top_down: bool) -> (r: Result<
    Vec<u8>,
    String,
>)
    ensures
        buffer@.len() != 4 * (width as int) * (height as int) ==> (r matches Err(e) && e@
            == "Failed to create image buffer"@),
        r matches Ok(p) ==> buffer@.len() == 4 * (width as int) * (height as int) && p@
            == png_encoding(
            normalize_spec(buffer@, width as int, height as int, is_top_down),
            width,
            height,
        ),
        buffer@.len() == 4 * (width as int) * (height as int) && width > 0 && height > 0 ==> r is Ok,
{
    proof {
        assert(4 * (width as int) * (height as int) < 0x100000000000000000) by (nonlinear_arith)
            requires
                0 <= (width as int) && (width as int) < 0x100000000,
                0 <= (height as int) && (height as int) < 0x100000000,
        ;
    }
    let expected: u128 = 4u128 * (width as u128) * (height as u128);
    if (buffer.len() as u128) != expected {
        return Err(String::from_str("Failed to create image buffer"));
    }
    let rgba = normalize_bitmap(buffer, width, height, is_top_down);
    png_encode_rgba(&rgba, width, height)
}

/// The standard base64 of the UTF-8 bytes of a string.
pub fn base64_of_str(s: &str) -> (r: String)
    ensures
        r@ == base64_encode(vstd::utf8::encode_utf8(s@)),
{
    base64_standard(s.as_bytes())
}

/// The `data:` URI of a PNG byte stream: the fixed header followed by
/// the standard base64 of the bytes.
pub open spec fn png_data_uri(png: Seq<u8>) -> Seq<char> {
    "data:image/png;base64,"@ + base64_encode(png)
}

/// Encodes a 32-bit device bitmap as a self-describing
/// `data:image/png;base64,` string: PNG serialization of the normalized
/// buffer, wrapped as a data URI. Succeeds on every well-sized buffer
/// with nonzero dimensions.
pub fn icon_to_base64(buffer: Vec<u8>, width: u32, height: u32, is_top_down: bool) -> (r: Result<
    String,
    String,
>)
    ensures
        buffer@.len() != 4 * (width as int) * (height as int) ==> (r matches Err(e) && e@
            == "Failed to create image buffer"@),
        r matches Ok(s) ==> buffer@.len() == 4 * (width as int) * (height as int) && s@
            == png_data_uri(
            png_encoding(
                normalize_spec(buffer@, width as int, height as int, is_top_down),
                width,
                height,
            ),
        ),
        buffer@.len() == 4 * (width as int) * (height as int) && width > 0 && height > 0 ==> r is Ok,
{
    let png = match bitmap_to_png(buffer, width, height, is_top_down) {
        Ok(p) => p,
        Err(e) => {
            return Err(e);
        },
    };
    let b64 = base64_standard(png.as_slice());
    let mut uri = String::from_str("data:image/png;base64,");
    uri.append(b64.as_str());
    Ok(uri)
}

} // verus!
