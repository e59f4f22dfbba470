use vstd::prelude::*;

verus! {

/// An opaque 8-bit RGB colour.
#[derive(Clone, Copy, Debug, PartialEq, Eq, Structural)]
pub struct RgbColor {
    pub r: u8,
    pub g: u8,
    pub b: u8,
}

/// A premultiplied 8-bit RGBA pixel: the colour channels are already scaled
/// by `a / 255`.
#[derive(Clone, Copy, Debug, PartialEq, Eq, Structural)]
pub struct PremulPixel {
    pub r: u8,
    pub g: u8,
    pub b: u8,
    pub a: u8,
}

/// What a tile is blended against.
#[derive(Clone, Copy, Debug, PartialEq, Eq, Structural)]
pub enum Background {
    /// No background: the tile shows the raw premultiplied channels.
    Original,
    /// An opaque solid colour.
    Solid(RgbColor),
}

/// Opaque white, the background that every preview includes.
pub open spec fn white() -> RgbColor {
    RgbColor { r: 255, g: 255, b: 255 }
}

/// One channel blended: `c * a/255 + bg * (1 - a/255)`, truncated toward zero.
pub open spec fn blend_channel(c: int, bg: int, a: int) -> int {
    (c * a + bg * (255 - a)) / 255
}

/// The colour a tile shows for `p` against `background`.
pub open spec fn blend_spec(p: PremulPixel, background: Background) -> RgbColor {
    match background {
        Background::Original => RgbColor { r: p.r, g: p.g, b: p.b },
        Background::Solid(bg) => RgbColor {
            r: blend_channel(p.r as int, bg.r as int, p.a as int) as u8,
            g: blend_channel(p.g as int, bg.g as int, p.a as int) as u8,
            b: blend_channel(p.b as int, bg.b as int, p.a as int) as u8,
        },
    }
}

proof fn lemma_blend_channel_bounds(c: int, bg: int, a: int)
    requires
        0 <= c <= 255,
        0 <= bg <= 255,
        0 <= a <= 255,
    ensures
        0 <= c * a + bg * (255 - a) <= 255 * 255,
        0 <= blend_channel(c, bg, a) <= 255,
{
    assert(0 <= c * a <= 255 * a) by (nonlinear_arith)
        requires 0 <= c <= 255, 0 <= a <= 255;
    assert(0 <= bg * (255 - a) <= 255 * (255 - a)) by (nonlinear_arith)
        requires 0 <= bg <= 255, 0 <= a <= 255;
}

fn blend_one(c: u8, bg: u8, a: u8) -> (r: u8)
    ensures
        r as int == blend_channel(c as int, bg as int, a as int),
{
    proof {
        lemma_blend_channel_bounds(c as int, bg as int, a as int);
    }
    let sum: u32 = c as u32 * a as u32 + bg as u32 * (255 - a) as u32;
    (sum / 255) as u8
}

/// Blends a premultiplied pixel against a background. Against a solid colour
/// each channel is `c * a/255 + bg * (1 - a/255)`, truncated; with no
/// background the premultiplied channels pass through unchanged.
pub fn blend(pixel: &PremulPixel, background: &Background) -> (r: RgbColor)
    ensures
        r == blend_spec(*pixel, *background),
{
    match background {
        Background::Original => RgbColor { r: pixel.r, g: pixel.g, b: pixel.b },
        Background::Solid(bg) => RgbColor {
            r: blend_one(pixel.r, bg.r, pixel.a),
            g: blend_one(pixel.g, bg.g, pixel.a),
            b: blend_one(pixel.b, bg.b, pixel.a),
        },
    }
}

/// Blending against no background reproduces the pixel's premultiplied
/// channels exactly.
pub proof fn lemma_original_passthrough(p: PremulPixel)
    ensures
        blend_spec(p, Background::Original) == (RgbColor { r: p.r, g: p.g, b: p.b }),
{
}

/// Blending a fully opaque pixel against white reproduces its own colour;
/// blending a fully transparent one against white gives pure white.
pub proof fn lemma_white_extremes(p: PremulPixel)
    ensures
        p.a == 255 ==> blend_spec(p, Background::Solid(white())) == (RgbColor {
            r: p.r,
            g: p.g,
            b: p.b,
        }),
        p.a == 0 ==> blend_spec(p, Background::Solid(white())) == white(),
{
    assert forall|c: int| 0 <= c <= 255 implies blend_channel(c, 255, 255) == c
        && blend_channel(c, 255, 0) == 255 by {
        assert(c * 255 + 255 * (255 - 255) == c * 255) by (nonlinear_arith);
        assert(c * 0 + 255 * (255 - 0) == 255 * 255) by (nonlinear_arith);
    }
}

} // verus!
