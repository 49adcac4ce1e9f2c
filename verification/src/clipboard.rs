//! Images handed to the clipboard: the PNG the editor sends is decoded into
//! RGBA pixels here; placing them on the system clipboard is I/O and stays
//! outside the library.

use vstd::prelude::*;
use crate::frame::{RgbaFrame, rows_bytes};

verus! {

/// What `image` makes of the bytes `png`: the width, the height and the raw
/// RGBA bytes (row-major, four per pixel) of the decoded image, or the text
/// of its decode error.
pub uninterp spec fn png_rgba_of(png: Seq<u8>) -> Result<(u32, u32, Seq<u8>), Seq<char>>;

/// Calls `image::load_from_memory` on `png`, then `DynamicImage::into_rgba8`,
/// `ImageBuffer::dimensions` and `ImageBuffer::into_raw`.
/// Trusted: the outcome is what the crate computes (named `png_rgba_of`),
/// the error rendered by its `Display` impl; an RGBA buffer holds exactly
/// four bytes per pixel. The reader runs with the crate's default limits, so
/// an oversized image is an error, not an abort.
#[verifier::external_body]
fn load_png_rgba(png: &[u8]) -> (r: Result<(u32, u32, Vec<u8>), String>)
    ensures
        match r {
            Ok((w, h, px)) => {
                &&& png_rgba_of(png@) == Ok::<(u32, u32, Seq<u8>), Seq<char>>((w, h, px@))
                &&& px@.len() == 4 * w * h
            },
            Err(msg) => png_rgba_of(png@) == Err::<(u32, u32, Seq<u8>), Seq<char>>(msg@),
        },
{
    match image::load_from_memory(png) {
        Ok(img) => {
            let rgba = img.into_rgba8();
            let (w, h) = rgba.dimensions();
            Ok((w, h, rgba.into_raw()))
        },
        Err(e) => Err(e.to_string()),
    }
}

/// The image encoded in the PNG bytes `png`, as a frame, or the decode
/// error message.
pub fn decode_png_rgba(png: &[u8]) -> (r: Result<RgbaFrame, String>)
    ensures
        match r {
            Ok(f) => {
                &&& f@.wf()
                &&& png_rgba_of(png@) == Ok::<(u32, u32, Seq<u8>), Seq<char>>(
                    (f@.width, f@.height() as u32, rows_bytes(f@.rows)),
                )
            },
            Err(msg) => png_rgba_of(png@) == Err::<(u32, u32, Seq<u8>), Seq<char>>(msg@),
        },
{
    match load_png_rgba(png) {
        Ok((w, h, px)) => {
            let ghost raw = px@;
            let f = RgbaFrame::from_raw(w, h, px).unwrap();
            assert(rows_bytes(f@.rows) == raw);
            Ok(f)
        },
        Err(msg) => Err(msg),
    }
}

} // verus!
