use vstd::prelude::*;
use vstd::arithmetic::div_mod::{lemma_fundamental_div_mod, lemma_fundamental_div_mod_converse};
use tiny_skia::Pixmap;
use crate::color::{Background, PremulPixel, RgbColor, blend, blend_spec};
use crate::error::IconError;
use crate::raster::{Raster, image_bytes, image_height, image_width, new_image, put_pixel};
use crate::source::{lookup, pixmap_pixels, pixmap_width, source_pixel};

verus! {

/// The colour stored for pixel number `q` (counted row by row).
pub open spec fn rgb_at(data: Seq<u8>, q: int) -> RgbColor {
    RgbColor { r: data[3 * q], g: data[3 * q + 1], b: data[3 * q + 2] }
}

/// The colour a canvas starts with where nothing is drawn.
pub open spec fn black() -> RgbColor {
    RgbColor { r: 0, g: 0, b: 0 }
}

/// A tile's colour for a source position: the blend of the source pixel
/// against the tile's background, or the untouched starting colour where the
/// source has no pixel.
pub open spec fn tile_color(src: Option<PremulPixel>, bg: Background) -> RgbColor {
    match src {
        Some(p) => blend_spec(p, bg),
        None => black(),
    }
}

/// A preview canvas's width: one `edge`-wide band per background.
pub open spec fn preview_width(edge: u32, n: int) -> int {
    edge as int * n
}

/// The colour of canvas pixel number `q` in a preview of `edge`-sized tiles:
/// with `W` the canvas width, it lies in row `q / W`, in band
/// `(q % W) / edge`, at column `(q % W) % edge` of that band.
pub open spec fn preview_color(
    pixels: Seq<(u8, u8, u8, u8)>,
    source_width: u32,
    edge: u32,
    bgs: Seq<Background>,
    q: int,
) -> RgbColor {
    let w = preview_width(edge, bgs.len() as int);
    let col = q % w;
    let y = q / w;
    tile_color(lookup(pixels, source_width, (col % edge as int) as u32, y as u32), bgs[col / edge as int])
}

/// A preview canvas of this size can be held: its width fits a `u32` and
/// its bytes fit in one allocation.
pub open spec fn preview_fits(edge: u32, n: int) -> bool {
    preview_width(edge, n) <= u32::MAX && 3 * preview_width(edge, n) * edge as int <= isize::MAX
}

/// `img` is the preview of a source with `pixels` and `source_width`, in
/// `edge`-sized tiles against `bgs`, left to right.
pub open spec fn is_preview(
    img: Raster,
    pixels: Seq<(u8, u8, u8, u8)>,
    source_width: u32,
    edge: u32,
    bgs: Seq<Background>,
) -> bool {
    let w = image_width(img) as int;
    let h = image_height(img) as int;
    &&& w == preview_width(edge, bgs.len() as int)
    &&& h == edge
    &&& image_bytes(img).len() == 3 * w * h
    &&& forall|q: int|
        0 <= q < w * h ==> #[trigger] rgb_at(image_bytes(img), q) == preview_color(
            pixels,
            source_width,
            edge,
            bgs,
            q,
        )
}

proof fn lemma_div_below(a: int, d: int, n: int)
    requires
        0 <= a < d * n,
        d > 0,
    ensures
        0 <= a / d < n,
        0 <= a % d < d,
{
    lemma_fundamental_div_mod(a, d);
    assert(0 <= a % d < d);
    let k = a / d;
    assert(k >= 0) by (nonlinear_arith)
        requires a == d * k + a % d, 0 <= a % d < d, a >= 0, d > 0;
    assert(k < n) by (nonlinear_arith)
        requires a == d * k + a % d, 0 <= a % d, a < d * n, d > 0;
}

/// Lays the source out once per background, left to right: the tile for
/// background `i` starts at column `edge * i`, and source position `(x, y)`
/// of an `edge` x `edge` square is blended into `(x + edge * i, y)`. Where
/// the source has no pixel the canvas keeps its starting black. Fails only
/// when a canvas of that size cannot be held.
pub fn composite(pixmap: &Pixmap, edge: u32, backgrounds: &Vec<Background>) -> (r: Result<Raster, IconError>)
    ensures
        r is Ok <==> preview_fits(edge, backgrounds@.len() as int),
        r is Ok ==> is_preview(
            r->Ok_0,
            pixmap_pixels(*pixmap),
            pixmap_width(*pixmap),
            edge,
            backgrounds@,
        ),
        r is Err ==> r->Err_0 == IconError::BufferAllocationError,
{
    let n = backgrounds.len();
    proof {
        assert(edge as int * n as int <= u32::MAX as int * usize::MAX as int) by (nonlinear_arith)
            requires edge <= u32::MAX, n <= usize::MAX;
    }
    let wide: u128 = edge as u128 * n as u128;
    if wide > u32::MAX as u128 {
        return Err(IconError::BufferAllocationError);
    }
    let width: u32 = wide as u32;
    proof {
        assert(width as int * edge as int <= u32::MAX as int * u32::MAX as int) by (nonlinear_arith)
            requires width <= u32::MAX, edge <= u32::MAX;
    }
    let total_u128: u128 = width as u128 * edge as u128;
    proof {
        assert(3 * (width as int) * (edge as int) == 3 * (width as int * edge as int)) by (nonlinear_arith);
    }
    if 3 * total_u128 > isize::MAX as u128 {
        return Err(IconError::BufferAllocationError);
    }
    let total: usize = total_u128 as usize;
    let ghost pixels = pixmap_pixels(*pixmap);
    let ghost pw = pixmap_width(*pixmap);
    let mut img = new_image(width, edge);
    let mut q: usize = 0;
    while q < total
        invariant
            0 <= q <= total,
            total as int == width as int * edge as int,
            width as int == preview_width(edge, backgrounds@.len() as int),
            n == backgrounds@.len(),
            pixels == pixmap_pixels(*pixmap),
            pw == pixmap_width(*pixmap),
            image_width(img) == width,
            image_height(img) == edge,
            image_bytes(img).len() == 3 * total,
            forall|k: int|
                0 <= k < q ==> #[trigger] rgb_at(image_bytes(img), k) == preview_color(
                    pixels,
                    pw,
                    edge,
                    backgrounds@,
                    k,
                ),
            forall|k: int| q <= k < total ==> #[trigger] rgb_at(image_bytes(img), k) == black(),
        decreases total - q,
    {
        proof {
            lemma_div_below(q as int, width as int, edge as int);
            lemma_div_below(q as int % width as int, edge as int, n as int);
            lemma_fundamental_div_mod(q as int, width as int);
        }
        let y = q / width as usize;
        let col = q % width as usize;
        let i = col / edge as usize;
        let x = col % edge as usize;
        let ghost before = image_bytes(img);
        assert(rgb_at(before, q as int) == black());
        match source_pixel(pixmap, x as u32, y as u32) {
            Some(p) => {
                let color = blend(&p, &backgrounds[i]);
                put_pixel(&mut img, col as u32, y as u32, color);
                assert(y as int * width as int + col as int == q) by (nonlinear_arith)
                    requires q as int == width as int * (q as int / width as int) + q as int % width as int,
                        y as int == q as int / width as int, col as int == q as int % width as int;
            },
            None => {},
        }
        assert forall|k: int| 0 <= k < total && k != q implies #[trigger] rgb_at(image_bytes(img), k)
            == rgb_at(before, k) by {}
        q = q + 1;
    }
    Ok(img)
}

/// Bands keep the order of the backgrounds: in a preview, the pixel at
/// column `edge * i + x` of row `y` is source position `(x, y)` blended
/// against the `i`-th background, whatever the colours are.
pub proof fn lemma_band_order(
    c: Raster,
    pixels: Seq<(u8, u8, u8, u8)>,
    source_width: u32,
    edge: u32,
    bgs: Seq<Background>,
    x: int,
    y: int,
    i: int,
)
    requires
        is_preview(c, pixels, source_width, edge, bgs),
        0 <= x < edge,
        0 <= y < edge,
        0 <= i < bgs.len(),
    ensures
        rgb_at(image_bytes(c), y * image_width(c) as int + edge as int * i + x) == tile_color(
            lookup(pixels, source_width, x as u32, y as u32),
            bgs[i],
        ),
{
    let e = edge as int;
    let n = bgs.len() as int;
    let w = image_width(c) as int;
    let col = e * i + x;
    assert(e * (i + 1) == e * i + e) by (nonlinear_arith);
    assert(e * (i + 1) <= e * n) by (nonlinear_arith)
        requires i + 1 <= n, e >= 0;
    assert(col < w);
    let q = y * w + col;
    assert(w * (y + 1) == w * y + w) by (nonlinear_arith);
    assert(w * (y + 1) <= w * e) by (nonlinear_arith)
        requires y + 1 <= e, w >= 0;
    assert(y * w == w * y) by (nonlinear_arith);
    assert(q < w * e);
    assert(0 <= q) by (nonlinear_arith)
        requires q == y * w + col, 0 <= col, 0 <= y, 0 <= w;
    lemma_fundamental_div_mod_converse(q, w, y, col);
    assert(e * i == i * e) by (nonlinear_arith);
    lemma_fundamental_div_mod_converse(col, e, i, x);
    assert(rgb_at(image_bytes(c), q) == preview_color(pixels, source_width, edge, bgs, q));
}

/// A preview built from `extra` given colours has one band for the original
/// tile, one for white and one for each given colour: it is
/// `edge * (extra + 2)` pixels wide and `edge` pixels high.
pub proof fn lemma_preview_size(
    c: Raster,
    pixels: Seq<(u8, u8, u8, u8)>,
    source_width: u32,
    edge: u32,
    bgs: Seq<Background>,
    extra: nat,
)
    requires
        bgs.len() == extra + 2,
        is_preview(c, pixels, source_width, edge, bgs),
    ensures
        image_width(c) as int == edge as int * (extra + 2),
        image_height(c) == edge,
{
}

} // verus!
