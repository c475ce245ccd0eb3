//! Blending adapted captions onto a photo, and the decode / encode boundary.

use vstd::prelude::*;

use crate::adapt::{adapted, adjust_target};
use crate::error::EngineError;
use crate::glyphs::{lemma_extent_ordered, outlined, render_text, GlyphRun, RunView};
use crate::raster::{lemma_stamp_keeps_length, stamp, stamp_pixel, Bitmap, Raster};

verus! {

/// Distance kept between each caption and the top or bottom edge of the photo.
pub const OUTER_MARGIN: u32 = 10;

/// Quality at which the composite is encoded.
pub const JPEG_QUALITY: u8 = 95;

/// Pixel `i` of `r`, counting row after row.
pub open spec fn nth_pixel(r: Raster, i: int) -> Seq<u8> {
    r.data.subrange(4 * i, 4 * i + 4)
}

/// The first `n` pixels of `src`, row after row, blended onto the buffer `c`
/// (`dw` × `dh` pixels) with `src`'s corner at `(tx, ty)`.
pub open spec fn overlay_pixels(
    c: Seq<u8>,
    dw: nat,
    dh: nat,
    src: Raster,
    tx: int,
    ty: int,
    n: nat,
) -> Seq<u8>
    decreases n,
{
    if n == 0 {
        c
    } else {
        let i = n - 1;
        stamp(
            overlay_pixels(c, dw, dh, src, tx, ty, (n - 1) as nat),
            dw,
            dh,
            tx + i % (src.width as int),
            ty + i / (src.width as int),
            nth_pixel(src, i),
        )
    }
}

/// `src` blended source-over onto `dst` with its corner at `(tx, ty)`.
pub open spec fn overlay(dst: Raster, src: Raster, tx: int, ty: int) -> Raster {
    Raster {
        width: dst.width,
        height: dst.height,
        data: overlay_pixels(dst.data, dst.width, dst.height, src, tx, ty, src.width * src.height),
    }
}

/// The two adapted captions and both margins fit in the photo's height.
pub open spec fn captions_fit(photo: Raster, top: Raster, bottom: Raster) -> bool {
    top.height + bottom.height + 2 * OUTER_MARGIN <= photo.height
}

/// The photo with the top caption blended `OUTER_MARGIN` below its top edge and the
/// bottom caption `OUTER_MARGIN` above its bottom edge.
pub open spec fn composed(photo: Raster, top: Raster, bottom: Raster) -> Raster {
    let with_top = overlay(photo, top, 0, OUTER_MARGIN as int);
    overlay(with_top, bottom, 0, photo.height - bottom.height - OUTER_MARGIN)
}

/// A decoded photo the engine can work on: not empty, one RGBA pixel per 4 bytes.
pub open spec fn valid_photo(p: Raster) -> bool {
    p.wf() && p.width > 0 && p.height > 0
}

/// What drawing the two runs on `photo` gives.
pub open spec fn drawn(photo: Raster, top: RunView, bottom: RunView) -> Result<Raster, EngineError> {
    if !top.renderable() || !bottom.renderable() {
        Err(EngineError::GlyphLayoutError)
    } else {
        let t = adapted(outlined(top), photo.width);
        let b = adapted(outlined(bottom), photo.width);
        if captions_fit(photo, t, b) {
            Ok(composed(photo, t, b))
        } else {
            Err(EngineError::GeometryError)
        }
    }
}

/// Blends `im2` source-over onto `im1` with its corner at `(target_x, target_y)`.
pub fn blend_copy(im1: &mut Bitmap, im2: &Bitmap, target_x: u32, target_y: u32)
    requires
        old(im1).wf(),
        im2.wf(),
        target_x + im2.width <= old(im1).width,
        target_y + im2.height <= old(im1).height,
    ensures
        final(im1)@ == overlay(old(im1)@, im2@, target_x as int, target_y as int),
        final(im1).wf(),
{
    let ghost c0 = im1.data@;
    let len2 = im2.data.len();
    assert(4 * im2.width * im2.height == 4 * (im2.width * im2.height)) by (nonlinear_arith);
    let n: usize = len2 / 4;
    assert(n == im2.width * im2.height);
    let w2 = im2.width as usize;
    let mut i: usize = 0;
    while i < n
        invariant
            i <= n,
            n == im2.width * im2.height,
            im2.data@.len() == 4 * n,
            len2 == im2.data@.len(),
            w2 == im2.width,
            im2.wf(),
            im1.wf(),
            im1.width == old(im1).width,
            im1.height == old(im1).height,
            target_x + im2.width <= im1.width,
            target_y + im2.height <= im1.height,
            im1.data@ == overlay_pixels(
                c0,
                im1.width as nat,
                im1.height as nat,
                im2@,
                target_x as int,
                target_y as int,
                i as nat,
            ),
        decreases n - i,
    {
        assert(w2 > 0) by {
            if w2 == 0 {
                assert(im2.width * im2.height == 0) by (nonlinear_arith)
                    requires im2.width == 0;
            }
        }
        proof {
            vstd::arithmetic::div_mod::lemma_multiply_divide_lt(i as int, w2 as int, im2.height as int);
        }
        let px: [u8; 4] = [im2.data[4 * i], im2.data[4 * i + 1], im2.data[4 * i + 2], im2.data[4 * i + 3]];
        assert(px@ =~= nth_pixel(im2@, i as int));
        let x = target_x as i64 + (i % w2) as i64;
        let y = target_y as i64 + (i / w2) as i64;
        stamp_pixel(&mut im1.data, im1.width, im1.height, x, y, px);
        i = i + 1;
    }
}

/// Draws the outlined captions of `top_text` and `bottom_text` on a copy of `im`: each
/// is fitted to the photo's width, the top one is blended `OUTER_MARGIN` below the top
/// edge and the bottom one `OUTER_MARGIN` above the bottom edge.
pub fn draw_on_image(im: &Bitmap, top_text: &GlyphRun, bottom_text: &GlyphRun) -> (r: Result<
    Bitmap,
    EngineError,
>)
    requires
        valid_photo(im@),
        top_text@.wf(),
        bottom_text@.wf(),
    ensures
        match r {
            Ok(out) => drawn(im@, top_text@, bottom_text@) == Ok::<Raster, EngineError>(out@)
                && out.wf(),
            Err(e) => drawn(im@, top_text@, bottom_text@) == Err::<Raster, EngineError>(e),
        },
{
    let top = match render_text(top_text) {
        Ok(b) => b,
        Err(e) => return Err(e),
    };
    let bottom = match render_text(bottom_text) {
        Ok(b) => b,
        Err(e) => return Err(e),
    };
    proof {
        lemma_extent_ordered(top_text@.glyphs, top_text@.glyphs.len());
        lemma_extent_ordered(bottom_text@.glyphs, bottom_text@.glyphs.len());
    }
    let width = im.width;
    let height = im.height;
    // A caption that is only padded keeps its height; one higher than the photo can
    // never fit.
    if (top.width < width && top.height > height) || (bottom.width < width && bottom.height
        > height) {
        return Err(EngineError::GeometryError);
    }
    assert(im.data.len() == im.data@.len());
    assert(top.width < width ==> 4 * width * top.height <= 4 * width * height) by (nonlinear_arith)
        requires top.width < width ==> top.height <= height;
    assert(bottom.width < width ==> 4 * width * bottom.height <= 4 * width * height) by (nonlinear_arith)
        requires bottom.width < width ==> bottom.height <= height;
    let top = adjust_target(top, width);
    let bottom = adjust_target(bottom, width);
    if top.height as u64 + bottom.height as u64 + 2 * OUTER_MARGIN as u64 > height as u64 {
        return Err(EngineError::GeometryError);
    }
    let mut buf = Bitmap { width, height, data: im.data.clone() };
    assert(buf.data@ =~= im.data@);
    blend_copy(&mut buf, &top, 0, OUTER_MARGIN);
    blend_copy(&mut buf, &bottom, 0, height - bottom.height - OUTER_MARGIN);
    Ok(buf)
}

proof fn lemma_overlay_keeps_length(
    c: Seq<u8>,
    dw: nat,
    dh: nat,
    src: Raster,
    tx: int,
    ty: int,
    n: nat,
)
    requires
        c.len() == 4 * dw * dh,
    ensures
        overlay_pixels(c, dw, dh, src, tx, ty, n).len() == c.len(),
    decreases n,
{
    if n > 0 {
        let i = n - 1;
        lemma_overlay_keeps_length(c, dw, dh, src, tx, ty, (n - 1) as nat);
        lemma_stamp_keeps_length(
            overlay_pixels(c, dw, dh, src, tx, ty, (n - 1) as nat),
            dw,
            dh,
            tx + i % (src.width as int),
            ty + i / (src.width as int),
            nth_pixel(src, i),
        );
    }
}

/// Drawing two renderable captions whose adapted bitmaps fit in the photo's height
/// succeeds: both captions are adapted to exactly the photo's width, and the composite
/// has the photo's width and height.
pub proof fn lemma_composite_keeps_size(photo: Raster, top: RunView, bottom: RunView)
    requires
        valid_photo(photo),
        top.renderable(),
        bottom.renderable(),
        captions_fit(
            photo,
            adapted(outlined(top), photo.width),
            adapted(outlined(bottom), photo.width),
        ),
    ensures
        adapted(outlined(top), photo.width).width == photo.width,
        adapted(outlined(bottom), photo.width).width == photo.width,
        drawn(photo, top, bottom) is Ok,
        drawn(photo, top, bottom)->Ok_0.width == photo.width,
        drawn(photo, top, bottom)->Ok_0.height == photo.height,
        drawn(photo, top, bottom)->Ok_0.wf(),
{
    let t = adapted(outlined(top), photo.width);
    let b = adapted(outlined(bottom), photo.width);
    let with_top = overlay(photo, t, 0, OUTER_MARGIN as int);
    lemma_overlay_keeps_length(photo.data, photo.width, photo.height, t, 0, OUTER_MARGIN as int, t.width * t.height);
    lemma_overlay_keeps_length(
        with_top.data,
        with_top.width,
        with_top.height,
        b,
        0,
        photo.height - b.height - OUTER_MARGIN,
        b.width * b.height,
    );
}

#[verifier::external_type_specification]
#[verifier::external_body]
pub struct ExImageError(image::ImageError);

/// Width, height and RGBA bytes of the image that image's decoders read from `bytes`.
pub uninterp spec fn decoded(bytes: Seq<u8>) -> (nat, nat, Seq<u8>);

/// The bytes image's JPEG encoder writes for an RGBA buffer at a given quality.
pub uninterp spec fn jpeg_encoded(data: Seq<u8>, width: nat, height: nat, quality: nat) -> Seq<u8>;

/// Whether image's decoders accept `bytes`.
pub uninterp spec fn decodes(bytes: Seq<u8>) -> bool;

/// Largest side, in pixels, that the JPEG format can describe.
pub const JPEG_MAX_SIDE: u32 = 65535;

pub open spec fn decoded_photo(bytes: Seq<u8>) -> Raster {
    let (w, h, d) = decoded(bytes);
    Raster { width: w, height: h, data: d }
}

/// Relies on `image::load_from_memory`, which guesses the format from the bytes and
/// decodes them under the default limits, and on `DynamicImage::to_rgba8`; whether it
/// succeeds and what comes out depend on the bytes alone.
#[verifier::external_body]
fn decode_rgba(bytes: &[u8]) -> (r: Result<Bitmap, image::ImageError>)
    ensures
        r is Ok <==> decodes(bytes@),
        r matches Ok(b) ==> decoded(bytes@) == (b.width as nat, b.height as nat, b.data@),
{
    match image::load_from_memory(bytes) {
        Ok(im) => {
            let rgba = im.to_rgba8();
            Ok(Bitmap { width: rgba.width(), height: rgba.height(), data: rgba.into_raw() })
        },
        Err(e) => Err(e),
    }
}

/// Relies on `JpegEncoder::new_with_quality` and `encode_image` of image's JPEG codec
/// (the alpha channel is dropped); the bytes written depend on the pixels, the size and
/// the quality alone. `encode_image` fails with `InvalidSize` when a side is 0 or over
/// 65535, and otherwise only when the writer fails, and writing to a `Vec` does not fail.
/// `ImageBuffer::from_raw` accepts the buffer because its length is that of `width` ×
/// `height` pixels.
#[verifier::external_body]
fn encode_jpeg(b: &Bitmap, quality: u8) -> (r: Result<Vec<u8>, image::ImageError>)
    requires
        b.wf(),
        1 <= quality <= 100,
    ensures
        r is Ok <==> (0 < b.width <= 65535 && 0 < b.height <= 65535),
        r matches Ok(out) ==> out@ == jpeg_encoded(
            b.data@,
            b.width as nat,
            b.height as nat,
            quality as nat,
        ),
{
    let img = image::RgbaImage::from_raw(b.width, b.height, b.data.clone()).unwrap();
    let mut out: Vec<u8> = Vec::new();
    let res = image::codecs::jpeg::JpegEncoder::new_with_quality(&mut out, quality).encode_image(&img);
    match res {
        Ok(()) => Ok(out),
        Err(e) => Err(e),
    }
}

/// Whether a decoded bitmap is a photo the engine can work on.
fn check_photo(b: &Bitmap) -> (r: bool)
    ensures
        r == valid_photo(b@),
{
    assert(b.width * b.height <= u32::MAX * u32::MAX) by (nonlinear_arith);
    let area: u128 = b.width as u128 * b.height as u128;
    let expected: u128 = 4 * area;
    assert(4 * b.width * b.height == 4 * (b.width * b.height)) by (nonlinear_arith);
    b.width > 0 && b.height > 0 && b.data.len() as u128 == expected
}

/// Decodes a photo, draws both captions on it and encodes the result as JPEG at
/// `JPEG_QUALITY`. It fails with `DecodeError` when the bytes do not decode to a
/// non-empty image, with the error of `draw_on_image` when drawing fails, and with
/// `EncodeError` only when a side of the photo is beyond what JPEG can describe.
pub fn compose(photo_bytes: &[u8], top_text: &GlyphRun, bottom_text: &GlyphRun) -> (r: Result<
    Vec<u8>,
    EngineError,
>)
    requires
        top_text@.wf(),
        bottom_text@.wf(),
    ensures
        match r {
            Ok(out) => {
                let p = decoded_photo(photo_bytes@);
                &&& decodes(photo_bytes@)
                &&& valid_photo(p)
                &&& p.width <= JPEG_MAX_SIDE
                &&& p.height <= JPEG_MAX_SIDE
                &&& drawn(p, top_text@, bottom_text@) is Ok
                &&& out@ == jpeg_encoded(
                    drawn(p, top_text@, bottom_text@)->Ok_0.data,
                    p.width,
                    p.height,
                    JPEG_QUALITY as nat,
                )
            },
            Err(EngineError::DecodeError) => !decodes(photo_bytes@) || !valid_photo(
                decoded_photo(photo_bytes@),
            ),
            Err(EngineError::EncodeError) => {
                let p = decoded_photo(photo_bytes@);
                &&& decodes(photo_bytes@)
                &&& valid_photo(p)
                &&& drawn(p, top_text@, bottom_text@) is Ok
                &&& (p.width > JPEG_MAX_SIDE || p.height > JPEG_MAX_SIDE)
            },
            Err(e) => {
                let p = decoded_photo(photo_bytes@);
                &&& decodes(photo_bytes@)
                &&& valid_photo(p)
                &&& drawn(p, top_text@, bottom_text@) == Err::<Raster, EngineError>(e)
            },
        },
{
    let photo = match decode_rgba(photo_bytes) {
        Ok(b) => b,
        Err(_) => return Err(EngineError::DecodeError),
    };
    if !check_photo(&photo) {
        return Err(EngineError::DecodeError);
    }
    let out = match draw_on_image(&photo, top_text, bottom_text) {
        Ok(b) => b,
        Err(e) => return Err(e),
    };
    match encode_jpeg(&out, JPEG_QUALITY) {
        Ok(bytes) => Ok(bytes),
        Err(_) => Err(EngineError::EncodeError),
    }
}

} // verus!
