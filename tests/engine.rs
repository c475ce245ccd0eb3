use caption_overlay::adapt::adjust_target;
use caption_overlay::compose::{blend_copy, compose, draw_on_image, OUTER_MARGIN};
use caption_overlay::error::EngineError;
use caption_overlay::glyphs::{render_text, GlyphCoverage, GlyphRun, TEXT_MARGIN};
use caption_overlay::raster::Bitmap;

fn solid(width: u32, height: u32, px: [u8; 4]) -> Bitmap {
    let mut data = Vec::new();
    for _ in 0..(width * height) {
        data.extend_from_slice(&px);
    }
    Bitmap { width, height, data }
}

fn pixel(b: &Bitmap, x: u32, y: u32) -> [u8; 4] {
    let o = (4 * (y * b.width + x)) as usize;
    [b.data[o], b.data[o + 1], b.data[o + 2], b.data[o + 3]]
}

fn box_glyph(left: i32, top: i32, width: u32, height: u32, v: u8) -> GlyphCoverage {
    GlyphCoverage { left, top, width, height, coverage: vec![v; (width * height) as usize] }
}

fn space() -> GlyphCoverage {
    GlyphCoverage { left: 0, top: 0, width: 0, height: 0, coverage: Vec::new() }
}

/// A run shaped like a caption at the engine's usual scale: `n` solid glyphs 60 pixels
/// wide and 90 high, 70 pixels apart, on a line 150 pixels high.
fn caption_run(n: u32) -> GlyphRun {
    let m = TEXT_MARGIN as i32;
    let glyphs = (0..n).map(|i| box_glyph(m + 70 * i as i32, m + 30, 60, 90, 255)).collect();
    GlyphRun { height: 150, glyphs }
}

#[test]
fn single_sample_gets_border_and_fill() {
    let run = GlyphRun { height: 10, glyphs: vec![box_glyph(20, 20, 1, 1, 255)] };
    assert!(run.is_valid());
    let b = render_text(&run).unwrap();
    assert_eq!(b.width, 1 + 2 * TEXT_MARGIN);
    assert_eq!(b.height, 10 + 2 * TEXT_MARGIN);
    assert_eq!(b.data.len(), (4 * b.width * b.height) as usize);
    assert_eq!(pixel(&b, 20, 20), [255, 255, 255, 255]);
    assert_eq!(pixel(&b, 14, 14), [0, 0, 0, 255]);
    assert_eq!(pixel(&b, 26, 26), [0, 0, 0, 255]);
    assert_eq!(pixel(&b, 13, 20), [0, 0, 0, 0]);
    assert_eq!(pixel(&b, 27, 20), [0, 0, 0, 0]);
    assert_eq!(pixel(&b, 20, 27), [0, 0, 0, 0]);
}

#[test]
fn width_spans_leftmost_to_rightmost_bound() {
    let run = GlyphRun {
        height: 30,
        glyphs: vec![box_glyph(20, 25, 10, 10, 255), space(), box_glyph(50, 25, 7, 10, 255)],
    };
    let b = render_text(&run).unwrap();
    assert_eq!(b.width, 37 + 40);
    assert_eq!(b.height, 70);
}

#[test]
fn fill_is_drawn_over_every_border() {
    // The second glyph's border reaches over the first glyph's fill.
    let run = GlyphRun {
        height: 20,
        glyphs: vec![box_glyph(20, 20, 3, 3, 255), box_glyph(24, 20, 3, 3, 255)],
    };
    let b = render_text(&run).unwrap();
    for y in 20..23 {
        for x in (20..23).chain(24..27) {
            assert_eq!(pixel(&b, x, y), [255, 255, 255, 255]);
        }
    }
    assert_eq!(pixel(&b, 23, 21), [0, 0, 0, 255]);
}

#[test]
fn zero_coverage_leaves_canvas_transparent() {
    let run = GlyphRun { height: 5, glyphs: vec![box_glyph(20, 20, 4, 4, 0)] };
    let b = render_text(&run).unwrap();
    assert!(b.data.iter().all(|&v| v == 0));
}

#[test]
fn rendering_is_pure() {
    let run = caption_run(3);
    let a = render_text(&run).unwrap();
    let b = render_text(&run).unwrap();
    assert_eq!(a.width, b.width);
    assert_eq!(a.height, b.height);
    assert_eq!(a.data, b.data);
}

#[test]
fn no_glyph_box_is_a_layout_error() {
    let empty = GlyphRun { height: 10, glyphs: Vec::new() };
    assert_eq!(render_text(&empty).err(), Some(EngineError::GlyphLayoutError));
    let spaces = GlyphRun { height: 10, glyphs: vec![space(), space()] };
    assert_eq!(render_text(&spaces).err(), Some(EngineError::GlyphLayoutError));
}

#[test]
fn mismatched_coverage_is_invalid() {
    let mut g = box_glyph(20, 20, 3, 3, 255);
    g.coverage.pop();
    let run = GlyphRun { height: 10, glyphs: vec![g] };
    assert!(!run.is_valid());
    assert!(caption_run(2).is_valid());
}

#[test]
fn narrower_bitmap_is_centered() {
    let mut b = solid(2, 1, [1, 2, 3, 4]);
    b.data[4..8].copy_from_slice(&[5, 6, 7, 8]);
    let r = adjust_target(b, 5);
    assert_eq!((r.width, r.height), (5, 1));
    assert_eq!(pixel(&r, 0, 0), [0, 0, 0, 0]);
    assert_eq!(pixel(&r, 1, 0), [1, 2, 3, 4]);
    assert_eq!(pixel(&r, 2, 0), [5, 6, 7, 8]);
    assert_eq!(pixel(&r, 3, 0), [0, 0, 0, 0]);
    assert_eq!(pixel(&r, 4, 0), [0, 0, 0, 0]);
}

#[test]
fn pad_then_crop_round_trip() {
    let mut b = solid(3, 2, [0, 0, 0, 0]);
    for (i, v) in b.data.iter_mut().enumerate() {
        *v = i as u8;
    }
    let before = b.data.clone();
    let r = adjust_target(b, 10);
    let off = (10 - 3) / 2;
    let mut back = Vec::new();
    for y in 0..2u32 {
        for x in 0..3u32 {
            back.extend_from_slice(&pixel(&r, off + x, y));
        }
    }
    assert_eq!(back, before);
}

#[test]
fn wider_caption_scales_down_to_photo_width() {
    let b = solid(200, 50, [255, 255, 255, 255]);
    let r = adjust_target(b, 100);
    assert_eq!(r.width, 100);
    assert_eq!(r.height, 25);
    assert_eq!(r.data.len(), 4 * 100 * 25);
    assert_eq!(pixel(&r, 50, 12), [255, 255, 255, 255]);
}

#[test]
fn downscale_never_upsamples() {
    let b = solid(301, 7, [9, 9, 9, 255]);
    let r = adjust_target(b, 300);
    assert_eq!(r.width, 300);
    assert!(r.height <= 7 && r.height >= 1);
    let thin = solid(1000, 1, [9, 9, 9, 255]);
    let r = adjust_target(thin, 10);
    assert_eq!((r.width, r.height), (10, 1));
}

#[test]
fn equal_width_is_unchanged() {
    let b = solid(4, 3, [1, 2, 3, 4]);
    let data = b.data.clone();
    let r = adjust_target(b, 4);
    assert_eq!((r.width, r.height), (4, 3));
    assert_eq!(r.data, data);
}

#[test]
fn blend_copy_composites_source_over() {
    let mut dst = solid(3, 3, [0, 0, 0, 255]);
    let mut src = solid(2, 1, [255, 255, 255, 255]);
    src.data[4..8].copy_from_slice(&[200, 100, 50, 0]);
    blend_copy(&mut dst, &src, 1, 2);
    assert_eq!(pixel(&dst, 1, 2), [255, 255, 255, 255]);
    assert_eq!(pixel(&dst, 2, 2), [0, 0, 0, 255]);
    assert_eq!(pixel(&dst, 0, 2), [0, 0, 0, 255]);
    assert_eq!(pixel(&dst, 1, 1), [0, 0, 0, 255]);
}

#[test]
fn half_transparent_source_mixes() {
    let mut dst = solid(1, 1, [0, 0, 0, 255]);
    let src = solid(1, 1, [255, 255, 255, 128]);
    blend_copy(&mut dst, &src, 0, 0);
    let p = pixel(&dst, 0, 0);
    assert!(p[0] > 100 && p[0] < 160);
    assert!(p[3] >= 254);
}

#[test]
fn captions_on_photo_keep_size_and_bands() {
    let photo = solid(800, 600, [10, 120, 200, 255]);
    let top = caption_run(17);
    let bottom = caption_run(16);
    let out = draw_on_image(&photo, &top, &bottom).unwrap();
    assert_eq!((out.width, out.height), (800, 600));
    assert_eq!(out.data.len(), 4 * 800 * 600);
    // Above the top caption and below the bottom one the photo shows.
    assert_eq!(pixel(&out, 400, 0), [10, 120, 200, 255]);
    assert_eq!(pixel(&out, 400, 599), [10, 120, 200, 255]);
    // Both bands hold opaque caption pixels near their edge of the photo.
    let opaque_row = |y: u32| (0..800).filter(|&x| pixel(&out, x, y) != [10, 120, 200, 255]).count();
    let top_band = (OUTER_MARGIN..OUTER_MARGIN + 120).map(|y| opaque_row(y)).max().unwrap();
    let bottom_band = (600 - OUTER_MARGIN - 120..600 - OUTER_MARGIN).map(|y| opaque_row(y)).max().unwrap();
    assert!(top_band > 100);
    assert!(bottom_band > 100);
    let near_white = |p: [u8; 4]| p[0] >= 250 && p[1] >= 250 && p[2] >= 250 && p[3] == 255;
    assert!((0..800).any(|x| near_white(pixel(&out, x, 80))));
    assert!((0..800).any(|x| near_white(pixel(&out, x, 520))));
}

#[test]
fn wide_caption_on_narrow_photo() {
    let photo = solid(100, 400, [50, 50, 50, 255]);
    let out = draw_on_image(&photo, &caption_run(5), &caption_run(4)).unwrap();
    assert_eq!((out.width, out.height), (100, 400));
}

#[test]
fn short_photo_is_a_geometry_error() {
    let photo = solid(800, 300, [50, 50, 50, 255]);
    // Each caption is 190 pixels high: 190 + 190 + 20 > 300.
    let r = draw_on_image(&photo, &caption_run(3), &caption_run(3));
    assert_eq!(r.err(), Some(EngineError::GeometryError));
    let exact = solid(800, 400, [50, 50, 50, 255]);
    assert!(draw_on_image(&exact, &caption_run(3), &caption_run(3)).is_ok());
    let one_short = solid(800, 399, [50, 50, 50, 255]);
    let r = draw_on_image(&one_short, &caption_run(3), &caption_run(3));
    assert_eq!(r.err(), Some(EngineError::GeometryError));
}

#[test]
fn caption_without_glyphs_fails_layout() {
    let photo = solid(800, 600, [50, 50, 50, 255]);
    let empty = GlyphRun { height: 150, glyphs: vec![space()] };
    let r = draw_on_image(&photo, &caption_run(3), &empty);
    assert_eq!(r.err(), Some(EngineError::GlyphLayoutError));
}

fn png_bytes(width: u32, height: u32) -> Vec<u8> {
    let img = image::RgbaImage::from_pixel(width, height, image::Rgba([30, 60, 90, 255]));
    let mut out = std::io::Cursor::new(Vec::new());
    img.write_to(&mut out, image::ImageFormat::Png).unwrap();
    out.into_inner()
}

#[test]
fn compose_outputs_jpeg_of_same_size() {
    let bytes = png_bytes(800, 600);
    let jpeg = compose(&bytes, &caption_run(17), &caption_run(16)).unwrap();
    assert_eq!(&jpeg[0..2], &[0xFF, 0xD8]);
    let back = image::load_from_memory(&jpeg).unwrap();
    assert_eq!((back.width(), back.height()), (800, 600));
}

#[test]
fn undecodable_bytes_are_a_decode_error() {
    let r = compose(&[1, 2, 3, 4, 5], &caption_run(2), &caption_run(2));
    assert_eq!(r.err(), Some(EngineError::DecodeError));
}

#[test]
fn compose_reports_geometry_error() {
    let bytes = png_bytes(800, 100);
    let r = compose(&bytes, &caption_run(2), &caption_run(2));
    assert_eq!(r.err(), Some(EngineError::GeometryError));
}

#[test]
fn glyph_too_close_to_an_edge_is_invalid() {
    // Left bound 2 leaves no room for a 6-pixel border.
    let run = GlyphRun { height: 30, glyphs: vec![box_glyph(2, 20, 5, 5, 255)] };
    assert!(!run.is_valid());
    // A box reaching below the line's bottom margin.
    let run = GlyphRun { height: 10, glyphs: vec![box_glyph(20, 20, 5, 30, 255)] };
    assert!(!run.is_valid());
    // Exactly the border's width of room on every side.
    let run = GlyphRun { height: 0, glyphs: vec![box_glyph(20, 6, 5, 28, 255)] };
    assert!(run.is_valid());
    let b = render_text(&run).unwrap();
    assert_eq!((b.width, b.height), (45, 40));
    assert_eq!(pixel(&b, 20, 0), [0, 0, 0, 255]);
    assert_eq!(pixel(&b, 20, 39), [0, 0, 0, 255]);
}
