use vstd::prelude::*;
use tiny_skia::Pixmap;
use crate::color::PremulPixel;

verus! {

#[verifier::external_type_specification]
#[verifier::external_body]
pub struct ExPixmap(Pixmap);

/// The pixels that a pixmap holds, row by row, each as its premultiplied
/// (red, green, blue, alpha) bytes.
pub uninterp spec fn pixmap_pixels(p: Pixmap) -> Seq<(u8, u8, u8, u8)>;

/// The width of a pixmap, in pixels.
pub uninterp spec fn pixmap_width(p: Pixmap) -> u32;

/// One stored pixel as a library value.
pub open spec fn as_pixel(t: (u8, u8, u8, u8)) -> PremulPixel {
    PremulPixel { r: t.0, g: t.1, b: t.2, a: t.3 }
}

/// What a rasterised source holds at `(x, y)`: the pixel at index
/// `width * y + x`, when that index fits a `u32` and lies among the pixels;
/// nothing otherwise.
pub open spec fn lookup(pixels: Seq<(u8, u8, u8, u8)>, width: u32, x: u32, y: u32) -> Option<PremulPixel> {
    let idx = width as int * y as int + x as int;
    if idx <= u32::MAX && idx < pixels.len() {
        Some(as_pixel(pixels[idx]))
    } else {
        None
    }
}

/// Relies on `tiny_skia::Pixmap::pixel`, which computes `width * y + x` with
/// checked `u32` arithmetic and returns the pixel at that index of the pixel
/// slice, if any; and on `PremultipliedColorU8::{red, green, blue, alpha}`,
/// which return its four bytes.
#[verifier::external_body]
pub(crate) fn source_pixel(pm: &Pixmap, x: u32, y: u32) -> (r: Option<PremulPixel>)
    ensures
        r == lookup(pixmap_pixels(*pm), pixmap_width(*pm), x, y),
{
    pm.pixel(x, y).map(|c| PremulPixel { r: c.red(), g: c.green(), b: c.blue(), a: c.alpha() })
}

} // verus!
