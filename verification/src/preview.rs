//! Screenshots: from the bytes of an image file to pixels.

use vstd::prelude::*;

verus! {

/// An image of red, green, blue and alpha bytes, row by row.
#[derive(Debug)]
pub struct RgbaImage {
    pub width: u32,
    pub height: u32,
    pub pixels: Vec<u8>,
}

/// The width, the height and the pixels of an image.
pub open spec fn image_view(image: Option<RgbaImage>) -> Option<(u32, u32, Seq<u8>)> {
    match image {
        Some(i) => Some((i.width, i.height, i.pixels@)),
        None => None,
    }
}

/// What `image::load_from_memory` and `to_rgba8` make of the bytes of an image
/// file: its width, its height and its pixels.
pub uninterp spec fn image_pixels(bytes: Seq<u8>) -> Option<(u32, u32, Seq<u8>)>;

/// Calls `image::load_from_memory` and turns the image into red, green, blue
/// and alpha bytes: four for each pixel. The result is a function of the bytes
/// alone: the formats that are built in are PNG and JPEG, and where the JPEG
/// decoder has a routine of its own for a processor, it computes the same
/// integers as the others. No decoding hook that would change how bytes are
/// read is registered with the crate.
#[verifier::external_body]
fn decode_image(bytes: &Vec<u8>) -> (r: Option<RgbaImage>)
    ensures
        image_view(r) == image_pixels(bytes@),
        r matches Some(i) ==> i.pixels@.len() == 4 * i.width * i.height,
{
    let rgba = image::load_from_memory(bytes).ok()?.to_rgba8();
    Some(RgbaImage { width: rgba.width(), height: rgba.height(), pixels: rgba.into_raw() })
}

/// The pixels of an image file, four bytes for each, where it can be decoded.
pub fn load_texture(bytes: &Vec<u8>) -> (r: Option<RgbaImage>)
    ensures
        image_view(r) == image_pixels(bytes@),
        r matches Some(i) ==> i.pixels@.len() == 4 * i.width * i.height,
{
    decode_image(bytes)
}

/// What the preview panel shows.
#[derive(Debug)]
pub enum Preview {
    Missing,
    Loaded(RgbaImage),
}

/// The preview that a decoded screenshot gives.
pub fn preview_of(image: Option<RgbaImage>) -> (r: Preview)
    ensures
        image matches Some(i) ==> r == Preview::Loaded(i),
        image is None ==> r is Missing,
{
    match image {
        Some(i) => Preview::Loaded(i),
        None => Preview::Missing,
    }
}

/// The preview from the bytes of the screenshot; there are none where the entry
/// names no screenshot, or one that cannot be read.
pub fn load_preview(bytes: &Option<Vec<u8>>) -> (r: Preview)
    ensures
        bytes is None ==> r is Missing,
        r matches Preview::Loaded(i) ==> i.pixels@.len() == 4 * i.width * i.height,
        bytes matches Some(b) ==> match image_pixels(b@) {
            Some(p) => r matches Preview::Loaded(i) && (i.width, i.height, i.pixels@) == p,
            None => r is Missing,
        },
{
    match bytes {
        Some(b) => preview_of(load_texture(b)),
        None => Preview::Missing,
    }
}

} // verus!
