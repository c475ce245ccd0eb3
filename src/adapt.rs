//! Fitting a caption bitmap to the width of a photo.

use vstd::prelude::*;

use crate::raster::{Bitmap, Raster};

verus! {

/// Column at which a bitmap `width` pixels wide is placed to be centered in `target`.
pub open spec fn centered_offset(width: nat, target: nat) -> int {
    (target - width) / 2
}

/// Byte `i` of `b` centered on a transparent canvas `target` pixels wide.
pub open spec fn pad_byte(b: Raster, target: nat, i: int) -> u8 {
    let row = 4 * target as int;
    let y = i / row;
    let j = i % row;
    let off = 4 * centered_offset(b.width, target);
    if off <= j < off + 4 * b.width {
        b.data[4 * b.width * y + (j - off)]
    } else {
        0u8
    }
}

/// `b` pasted at `centered_offset` on a transparent canvas `target` pixels wide and as
/// high as `b`.
pub open spec fn padded(b: Raster, target: nat) -> Raster {
    Raster {
        width: target,
        height: b.height,
        data: Seq::new(4 * target * b.height, |i: int| pad_byte(b, target, i)),
    }
}

/// The columns `x0 .. x0 + width` of `r`.
pub open spec fn cropped(r: Raster, x0: nat, width: nat) -> Raster {
    Raster {
        width,
        height: r.height,
        data: Seq::new(
            4 * width * r.height,
            |i: int| r.data[4 * r.width * (i / (4 * width as int)) + 4 * x0 + i % (4 * width as int)],
        ),
    }
}

/// Height that keeps the aspect ratio when a `width` × `height` bitmap is scaled to
/// `target` columns: `height * target / width` rounded to nearest, and at least 1.
pub open spec fn scaled_height(width: nat, height: nat, target: nat) -> nat {
    let q = (2 * (height * target) + width) / (2 * width);
    if q == 0 {
        1
    } else {
        q as nat
    }
}

/// What image's Catmull-Rom resampling makes of an RGBA buffer.
pub uninterp spec fn resampled(
    data: Seq<u8>,
    width: nat,
    height: nat,
    new_width: nat,
    new_height: nat,
) -> Seq<u8>;

/// Relies on `image::imageops::resize` with `FilterType::CatmullRom`: it returns a
/// buffer of exactly `new_width` × `new_height` RGBA pixels. `ImageBuffer::from_raw`
/// accepts the input because its length is that of `width` × `height` pixels.
#[verifier::external_body]
fn resize_catmull_rom(data: &Vec<u8>, width: u32, height: u32, new_width: u32, new_height: u32) -> (r:
    Vec<u8>)
    requires
        data@.len() == 4 * width * height,
        width > 0,
        height > 0,
        new_width > 0,
        new_height > 0,
        4 * new_width * new_height <= usize::MAX,
    ensures
        r@ == resampled(data@, width as nat, height as nat, new_width as nat, new_height as nat),
        r@.len() == 4 * new_width * new_height,
{
    let src = image::RgbaImage::from_raw(width, height, data.clone()).unwrap();
    image::imageops::resize(&src, new_width, new_height, image::imageops::FilterType::CatmullRom).into_raw()
}

/// The caption bitmap `b` made exactly `target` pixels wide: centered on a transparent
/// canvas when narrower, scaled down with its aspect ratio kept when wider, unchanged
/// otherwise.
pub open spec fn adapted(b: Raster, target: nat) -> Raster {
    if b.width < target {
        padded(b, target)
    } else if b.width > target {
        let h = scaled_height(b.width, b.height, target);
        Raster {
            width: target,
            height: h,
            data: resampled(b.data, b.width, b.height, target, h),
        }
    } else {
        b
    }
}

proof fn lemma_row_split(i: int, row: int, y: int, j: int)
    requires
        row > 0,
        0 <= j < row,
        i == row * y + j,
    ensures
        i / row == y,
        i % row == j,
{
    assert(row * y == y * row) by (nonlinear_arith);
    vstd::arithmetic::div_mod::lemma_fundamental_div_mod_converse(i, row, y, j);
}

/// Centers `b` on a transparent canvas `target` pixels wide.
fn pad_to_width(b: &Bitmap, target: u32) -> (r: Bitmap)
    requires
        b.wf(),
        b.width < target,
        b.height > 0,
        4 * target * b.height <= usize::MAX,
    ensures
        r@ == padded(b@, target as nat),
        r.wf(),
{
    let ghost pb = padded(b@, target as nat);
    let w = b.width as usize;
    let h = b.height as usize;
    assert(4 * target <= 4 * target * b.height && 4 * b.width <= 4 * b.width * b.height)
        by (nonlinear_arith)
        requires b.height > 0;
    let row: usize = 4 * target as usize;
    let src_row: usize = 4 * w;
    assert(b.data.len() == b.data@.len());
    let off: usize = 4 * ((target - b.width) / 2) as usize;
    let n: usize = if h == 0 { 0 } else { row * h };
    assert(n == 4 * target * b.height) by (nonlinear_arith)
        requires n == (if h == 0 { 0 } else { row * h }), row == 4 * target, h == b.height;
    let mut data: Vec<u8> = Vec::with_capacity(n);
    let mut y: usize = 0;
    while y < h
        invariant
            y <= h,
            h == b.height,
            w == b.width,
            b.wf(),
            b.width < target,
            row == 4 * target,
            src_row == 4 * w,
            b.data@.len() <= usize::MAX,
            off == 4 * centered_offset(b.width as nat, target as nat),
            n == 4 * target * b.height,
            data@.len() == row * y,
            forall|i: int| 0 <= i < data@.len() ==> data@[i] == pad_byte(b@, target as nat, i),
        decreases h - y,
    {
        assert(row * y + row <= n) by (nonlinear_arith)
            requires y < h, n == 4 * target * h, row == 4 * target;
        let mut j: usize = 0;
        while j < row
            invariant
                j <= row,
                y < h,
                h == b.height,
                w == b.width,
                b.wf(),
                b.width < target,
                row == 4 * target,
                src_row == 4 * w,
                b.data@.len() <= usize::MAX,
                off == 4 * centered_offset(b.width as nat, target as nat),
                row * y + row <= n,
                n == 4 * target * b.height,
                data@.len() == row * y + j,
                forall|i: int| 0 <= i < data@.len() ==> data@[i] == pad_byte(b@, target as nat, i),
            decreases row - j,
        {
            proof {
                lemma_row_split(row * y + j, row as int, y as int, j as int);
            }
            let byte = if off <= j && j < off + 4 * w {
                assert(src_row * y + (j - off) < src_row * h) by (nonlinear_arith)
                    requires j - off < src_row, y < h;
                assert(src_row * h == b.data@.len()) by (nonlinear_arith)
                    requires src_row == 4 * w, h == b.height, w == b.width, b.data@.len() == 4 * b.width * b.height;
                b.data[src_row * y + (j - off)]
            } else {
                0u8
            };
            data.push(byte);
            j = j + 1;
        }
        y = y + 1;
        assert(data@.len() == row * y) by (nonlinear_arith)
            requires data@.len() == row * (y - 1) + row;
    }
    assert(data@ =~= pb.data);
    Bitmap { width: target, height: b.height, data }
}

/// `scaled_height(width, height, target)`, which for a downscale is at most `height`.
fn scaled_height_of(width: u32, height: u32, target: u32) -> (r: u32)
    requires
        width > target > 0,
        height > 0,
    ensures
        r == scaled_height(width as nat, height as nat, target as nat),
        1 <= r <= height,
{
    assert(height * target <= u32::MAX * u32::MAX) by (nonlinear_arith);
    let ht: u128 = height as u128 * target as u128;
    let x: u128 = 2 * ht + width as u128;
    let d: u128 = 2 * width as u128;
    proof {
        assert(x < d * (height + 1)) by (nonlinear_arith)
            requires x == 2 * (height * target) + width, d == 2 * width, target < width;
        vstd::arithmetic::div_mod::lemma_multiply_divide_lt(x as int, d as int, height + 1);
    }
    let q = x / d;
    if q == 0 {
        1
    } else {
        q as u32
    }
}

/// Makes a caption bitmap exactly `target_width` pixels wide: a narrower one is
/// centered on a transparent canvas, a wider one is scaled down (Catmull-Rom) to that
/// width with its height scaled in proportion, one of that width is kept.
pub fn adjust_target(im: Bitmap, target_width: u32) -> (r: Bitmap)
    requires
        im.wf(),
        im.width > 0,
        im.height > 0,
        target_width > 0,
        im.width < target_width ==> 4 * target_width * im.height <= usize::MAX,
    ensures
        r@ == adapted(im@, target_width as nat),
        r.wf(),
        r.width == target_width,
        im.width > target_width ==> r.height <= im.height,
        im.width <= target_width ==> r.height == im.height,
        im.width < target_width ==> cropped(
            r@,
            centered_offset(im.width as nat, target_width as nat) as nat,
            im.width as nat,
        ) == im@,
{
    proof {
        if im.width > target_width {
            lemma_downscale_never_upsamples(im@, target_width as nat);
        } else if im.width < target_width {
            lemma_pad_then_crop(im@, target_width as nat);
        }
    }
    if im.width < target_width {
        pad_to_width(&im, target_width)
    } else if im.width > target_width {
        let h = scaled_height_of(im.width, im.height, target_width);
        assert(im.data.len() == im.data@.len());
        assert(4 * target_width * h <= 4 * im.width * im.height) by (nonlinear_arith)
            requires target_width < im.width, h <= im.height;
        let data = resize_catmull_rom(&im.data, im.width, im.height, target_width, h);
        Bitmap { width: target_width, height: h, data }
    } else {
        im
    }
}

/// Scaling a caption down never makes it larger: a bitmap wider than the target comes
/// out exactly as wide as the target and no higher than it was.
pub proof fn lemma_downscale_never_upsamples(b: Raster, target: nat)
    requires
        b.wf(),
        b.width > target > 0,
        b.height > 0,
    ensures
        adapted(b, target).width == target,
        adapted(b, target).height <= b.height,
{
    let x = 2 * (b.height * target) + b.width;
    let d = 2 * b.width;
    assert(x < d * (b.height + 1)) by (nonlinear_arith)
        requires x == 2 * (b.height * target) + b.width, d == 2 * b.width, target < b.width;
    vstd::arithmetic::div_mod::lemma_multiply_divide_lt(x as int, d as int, b.height + 1 as int);
}

/// Padding a narrower bitmap to `target` columns and cropping its centered region of
/// the bitmap's own width gives back the bitmap it started from.
pub proof fn lemma_pad_then_crop(b: Raster, target: nat)
    requires
        b.wf(),
        b.width < target,
    ensures
        cropped(adapted(b, target), centered_offset(b.width, target) as nat, b.width) == b,
{
    let p = adapted(b, target);
    let off = centered_offset(b.width, target);
    let c = cropped(p, off as nat, b.width);
    if b.width == 0 {
        assert(4 * b.width * b.height == 0 && 4 * b.width * p.height == 0) by (nonlinear_arith)
            requires b.width == 0;
        assert(c.data =~= b.data);
    } else {
        let row = 4 * b.width as int;
        let prow = 4 * target as int;
        assert forall|i: int| 0 <= i < c.data.len() implies c.data[i] == b.data[i] by {
            let y = i / row;
            let j = i % row;
            vstd::arithmetic::div_mod::lemma_fundamental_div_mod(i, row);
            vstd::arithmetic::div_mod::lemma_div_pos_is_pos(i, row);
            assert(y < b.height) by {
                vstd::arithmetic::div_mod::lemma_multiply_divide_lt(i, row, b.height as int);
            }
            let k = prow * y + 4 * off + j;
            assert(0 <= 4 * off + j < prow);
            assert(k < p.data.len()) by (nonlinear_arith)
                requires k == prow * y + 4 * off + j, 4 * off + j < prow, y < b.height,
                    p.data.len() == 4 * target * b.height, prow == 4 * target, 0 <= y;
            assert(0 <= k) by (nonlinear_arith)
                requires k == prow * y + 4 * off + j, 0 <= 4 * off + j, 0 <= y, prow >= 0;
            lemma_row_split(k, prow, y, 4 * off + j);
            assert(i == row * y + j);
        }
        assert(c.data =~= b.data);
    }
}

} // verus!
