use vstd::prelude::*;
use image::{ImageBuffer, RgbImage};
use crate::color::RgbColor;

verus! {

/// An RGB image of the `image` crate, which does the encoding. Its bytes
/// and size are known to proofs through `image_bytes`, `image_width` and
/// `image_height`.
#[verifier::external_body]
pub struct Raster {
    pub image: RgbImage,
}

/// The channel bytes of an RGB image, row by row, three per pixel.
pub uninterp spec fn image_bytes(b: Raster) -> Seq<u8>;

/// The width of an RGB image, in pixels.
pub uninterp spec fn image_width(b: Raster) -> u32;

/// The height of an RGB image, in pixels.
pub uninterp spec fn image_height(b: Raster) -> u32;

/// Relies on `image::ImageBuffer::new`: a buffer of `width * height` pixels
/// with every channel zero; it panics where `3 * width * height` overflows.
#[verifier::external_body]
pub(crate) fn new_image(width: u32, height: u32) -> (r: Raster)
    requires
        3 * width as int * height as int <= isize::MAX,
    ensures
        image_width(r) == width,
        image_height(r) == height,
        image_bytes(r) == Seq::new((3 * width as int * height as int) as nat, |i: int| 0u8),
{
    Raster { image: ImageBuffer::new(width, height) }
}

/// Relies on `image::ImageBuffer::put_pixel`: writes the three channels at
/// byte `3 * (y * width + x)`; it panics outside the image.
#[verifier::external_body]
pub(crate) fn put_pixel(img: &mut Raster, x: u32, y: u32, c: RgbColor)
    requires
        x < image_width(*old(img)),
        y < image_height(*old(img)),
    ensures
        image_width(*final(img)) == image_width(*old(img)),
        image_height(*final(img)) == image_height(*old(img)),
        image_bytes(*final(img)) == ({
            let at = 3 * (y as int * image_width(*old(img)) as int + x as int);
            image_bytes(*old(img)).update(at, c.r).update(at + 1, c.g).update(at + 2, c.b)
        }),
{
    img.image.put_pixel(x, y, image::Rgb([c.r, c.g, c.b]))
}

} // verus!
