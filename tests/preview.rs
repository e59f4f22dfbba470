use icon_preview::background::{parse_background, resolve_backgrounds};
use icon_preview::canvas::composite;
use icon_preview::color::{blend, Background, PremulPixel, RgbColor};
use icon_preview::error::IconError;
use icon_preview::raster::Raster;
use icon_preview::scale::{compute_scale, Scale};
use tiny_skia::{Pixmap, PremultipliedColorU8};

fn rgb(r: u8, g: u8, b: u8) -> RgbColor {
    RgbColor { r, g, b }
}

fn px(r: u8, g: u8, b: u8, a: u8) -> PremulPixel {
    PremulPixel { r, g, b, a }
}

/// The colour of a preview at `(x, y)`.
fn at(c: &Raster, x: u32, y: u32) -> RgbColor {
    let p = c.image.get_pixel(x, y);
    rgb(p.0[0], p.0[1], p.0[2])
}

fn white() -> Background {
    Background::Solid(rgb(255, 255, 255))
}

/// A 2x2 pixmap holding the given pixels row by row.
fn pixmap_2x2(p: [(u8, u8, u8, u8); 4]) -> Pixmap {
    let mut pm = Pixmap::new(2, 2).unwrap();
    for (slot, (r, g, b, a)) in pm.pixels_mut().iter_mut().zip(p.iter()) {
        *slot = PremultipliedColorU8::from_rgba(*r, *g, *b, *a).unwrap();
    }
    pm
}

#[test]
fn scale_of_tall_source_follows_height() {
    let s = compute_scale(50, 200, 100);
    assert_eq!(s, Scale { num: 100, den: 200 });
    assert_eq!(s.num as f64 / s.den as f64, 0.5);
}

#[test]
fn scale_of_wide_source_follows_width() {
    let s = compute_scale(400, 100, 200);
    assert_eq!(s, Scale { num: 200, den: 400 });
    // the width reaches the edge, the height stays inside
    assert_eq!(400 * s.num, 200 * s.den);
    assert!(100 * s.num <= 200 * s.den);
}

#[test]
fn scale_of_square_source_fills_both_axes() {
    let s = compute_scale(24, 24, 200);
    assert_eq!(s, Scale { num: 200, den: 24 });
    assert_eq!(24 * s.num, 200 * s.den);
}

#[test]
fn blend_half_alpha_against_red() {
    let out = blend(&px(200, 100, 50, 128), &Background::Solid(rgb(255, 0, 0)));
    assert_eq!(out, rgb(227, 50, 25));
}

#[test]
fn blend_against_original_passes_channels_through() {
    let out = blend(&px(10, 20, 30, 40), &Background::Original);
    assert_eq!(out, rgb(10, 20, 30));
    let out = blend(&px(0, 0, 0, 0), &Background::Original);
    assert_eq!(out, rgb(0, 0, 0));
}

#[test]
fn blend_opaque_against_white_keeps_colour() {
    assert_eq!(blend(&px(12, 200, 77, 255), &white()), rgb(12, 200, 77));
}

#[test]
fn blend_transparent_against_white_is_white() {
    assert_eq!(blend(&px(0, 0, 0, 0), &white()), rgb(255, 255, 255));
}

#[test]
fn blend_truncates_toward_zero() {
    // 100 * 128 / 255 = 50.19..., 0 * 128 + 10 * 127 = 1270, / 255 = 4.98...
    let out = blend(&px(100, 0, 1, 128), &Background::Solid(rgb(0, 10, 0)));
    assert_eq!(out, rgb(50, 4, 0));
}

#[test]
fn parse_three_channels() {
    assert_eq!(parse_background("10,20,30"), Ok(rgb(10, 20, 30)));
    assert_eq!(parse_background("0,255,+7"), Ok(rgb(0, 255, 7)));
    assert_eq!(parse_background("007,0,0"), Ok(rgb(7, 0, 0)));
}

#[test]
fn parse_wrong_arity_is_rejected() {
    assert_eq!(
        parse_background("10,20"),
        Err(IconError::InvalidBackgroundSpec("10,20".to_string()))
    );
    assert_eq!(
        parse_background("1,2,3,4"),
        Err(IconError::InvalidBackgroundSpec("1,2,3,4".to_string()))
    );
    assert_eq!(parse_background(""), Err(IconError::InvalidBackgroundSpec(String::new())));
}

#[test]
fn parse_bad_channels_are_rejected() {
    for bad in ["256,0,0", "1,,3", "a,b,c", "1, 2,3", "-1,2,3", "+,2,3", "1,2,3,", "é,1,2"] {
        assert_eq!(parse_background(bad), Err(IconError::InvalidBackgroundSpec(bad.to_string())));
    }
}

#[test]
fn resolve_puts_original_and_white_first() {
    let texts = vec!["255,0,0".to_string(), "0,0,255".to_string()];
    let bgs = resolve_backgrounds(&texts).unwrap();
    assert_eq!(
        bgs,
        vec![
            Background::Original,
            white(),
            Background::Solid(rgb(255, 0, 0)),
            Background::Solid(rgb(0, 0, 255)),
        ]
    );
    assert_eq!(resolve_backgrounds(&vec![]).unwrap(), vec![Background::Original, white()]);
}

#[test]
fn resolve_reports_first_invalid_text() {
    let texts = vec!["1,2,3".to_string(), "1,2".to_string(), "x".to_string()];
    assert_eq!(
        resolve_backgrounds(&texts),
        Err(IconError::InvalidBackgroundSpec("1,2".to_string()))
    );
}

fn sample_pixmap() -> Pixmap {
    pixmap_2x2([(255, 0, 0, 255), (0, 0, 0, 0), (0, 64, 0, 128), (10, 20, 30, 255)])
}

#[test]
fn composite_size_counts_every_background() {
    let pm = sample_pixmap();
    let texts = vec!["0,0,255".to_string()];
    let bgs = resolve_backgrounds(&texts).unwrap();
    let c: Raster = composite(&pm, 2, &bgs).unwrap();
    assert_eq!(c.image.width(), 2 * 3);
    assert_eq!(c.image.height(), 2);
    assert_eq!(c.image.as_raw().len(), 3 * 6 * 2);
}

#[test]
fn composite_bands_follow_background_order() {
    let pm = sample_pixmap();
    let bgs = vec![
        Background::Original,
        white(),
        Background::Solid(rgb(0, 0, 255)),
        Background::Solid(rgb(0, 0, 0)),
    ];
    let c = composite(&pm, 2, &bgs).unwrap();
    // band 0: raw premultiplied channels
    assert_eq!(at(&c, 0, 0), rgb(255, 0, 0));
    assert_eq!(at(&c, 1, 0), rgb(0, 0, 0));
    assert_eq!(at(&c, 0, 1), rgb(0, 64, 0));
    assert_eq!(at(&c, 1, 1), rgb(10, 20, 30));
    // band 1: white
    assert_eq!(at(&c, 2, 0), rgb(255, 0, 0));
    assert_eq!(at(&c, 3, 0), rgb(255, 255, 255));
    // 64 * 128 / 255 = 32.1..., 255 * 127 / 255 = 127
    assert_eq!(at(&c, 2, 1), rgb(127, 159, 127));
    assert_eq!(at(&c, 3, 1), rgb(10, 20, 30));
    // band 2: blue
    assert_eq!(at(&c, 4, 0), rgb(255, 0, 0));
    assert_eq!(at(&c, 5, 0), rgb(0, 0, 255));
    assert_eq!(at(&c, 4, 1), rgb(0, 32, 127));
    // band 3: black
    assert_eq!(at(&c, 7, 0), rgb(0, 0, 0));
    assert_eq!(at(&c, 6, 1), rgb(0, 32, 0));
}

#[test]
fn composite_leaves_uncovered_positions_black() {
    // a 2x2 source in 3-pixel tiles: index 2*y + x runs past the four pixels
    // from row 2 on, and wraps into the next row for x = 2
    let pm = sample_pixmap();
    let c = composite(&pm, 3, &vec![white()]).unwrap();
    assert_eq!(c.image.width(), 3);
    assert_eq!(at(&c, 2, 0), rgb(127, 159, 127));
    assert_eq!(at(&c, 0, 2), rgb(0, 0, 0));
    assert_eq!(at(&c, 2, 2), rgb(0, 0, 0));
}

#[test]
fn composite_with_no_backgrounds_is_empty() {
    let pm = sample_pixmap();
    let c = composite(&pm, 2, &vec![]).unwrap();
    assert_eq!((c.image.width(), c.image.height(), c.image.as_raw().len()), (0, 2, 0));
}

#[test]
fn composite_too_wide_is_an_allocation_error() {
    let pm = sample_pixmap();
    let bgs = vec![Background::Original, white()];
    assert_eq!(composite(&pm, u32::MAX, &bgs).err(), Some(IconError::BufferAllocationError));
}
