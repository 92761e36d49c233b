//! PNG encoding of RGBA pixel buffers, done by the `image` crate.

use vstd::prelude::*;

verus! {

/// The outcome of encoding a `width` x `height` 8-bit RGBA buffer as PNG with the
/// `image` crate's default PNG encoder: the file bytes, or the error's message.
pub uninterp spec fn spec_png_rgba8(width: u32, height: u32, rgba: Seq<u8>) -> Result<
    Seq<u8>,
    Seq<char>,
>;

/// The eight bytes that open every PNG file.
pub open spec fn png_signature() -> Seq<u8> {
    seq![0x89u8, 0x50u8, 0x4Eu8, 0x47u8, 0x0Du8, 0x0Au8, 0x1Au8, 0x0Au8]
}

/// Encodes an RGBA buffer as PNG through `image::RgbaImage::from_raw` and
/// `image::DynamicImage::write_to` with `ImageFormat::Png`, writing into memory.
/// Claimed: the outcome is `spec_png_rgba8` of the arguments (bytes, or the
/// error's `to_string`); a zero width or height is refused and every other size
/// is encoded (the `png` encoder's only refusal of a well-sized 8-bit RGBA buffer
/// is a zero dimension, checked before it writes); encoded bytes start with the PNG signature (the
/// `png` encoder writes it first). The encoded bytes themselves are not described.
#[verifier::external_body]
pub(crate) fn encode_png_rgba8(width: u32, height: u32, rgba: Vec<u8>) -> (r: Result<
    Vec<u8>,
    String,
>)
    requires
        rgba@.len() == width * height * 4,
    ensures
        match r {
            Ok(bytes) => spec_png_rgba8(width, height, rgba@) == Ok::<Seq<u8>, Seq<char>>(bytes@),
            Err(msg) => spec_png_rgba8(width, height, rgba@) == Err::<Seq<u8>, Seq<char>>(msg@),
        },
        r is Err <==> (width == 0 || height == 0),
        r matches Ok(bytes) ==> bytes@.len() >= 8 && bytes@.take(8) == png_signature(),
{
    let img = image::RgbaImage::from_raw(width, height, rgba).expect("buffer of width*height*4 bytes");
    let mut png = Vec::new();
    image::DynamicImage::ImageRgba8(img)
        .write_to(&mut std::io::Cursor::new(&mut png), image::ImageFormat::Png)
        .map(|_| png)
        .map_err(|e| e.to_string())
}

} // verus!
