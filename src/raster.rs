//! RGBA pixel buffers and the source-over blend of one pixel.

use vstd::prelude::*;

verus! {

/// What image's source-over blend gives for a source whose alpha is neither 0 nor 255.
pub uninterp spec fn blend_of(dst: Seq<u8>, src: Seq<u8>) -> Seq<u8>;

/// Source-over compositing of the RGBA pixel `src` onto `dst`: a transparent source
/// leaves the destination unchanged, an opaque source replaces it.
pub open spec fn over(dst: Seq<u8>, src: Seq<u8>) -> Seq<u8> {
    if src[3] == 0 {
        dst
    } else if src[3] == 255 {
        src
    } else {
        blend_of(dst, src)
    }
}

/// Relies on image's `Blend for Rgba<u8>` (through `Pixel::blend`): it returns early,
/// leaving the destination as it was, when the source alpha is 0, and copies the source
/// when its alpha is the maximum; otherwise it composites in floating point.
#[verifier::external_body]
fn blend_pixel(dst: [u8; 4], src: [u8; 4]) -> (r: [u8; 4])
    ensures
        src[3] == 0 ==> r == dst,
        src[3] == 255 ==> r == src,
        0 < src[3] < 255 ==> r@ == blend_of(dst@, src@),
{
    let mut p = image::Rgba(dst);
    image::Pixel::blend(&mut p, &image::Rgba(src));
    p.0
}

/// The mathematical content of a bitmap: its size and its bytes, four per pixel
/// (red, green, blue, alpha), row after row.
pub struct Raster {
    pub width: nat,
    pub height: nat,
    pub data: Seq<u8>,
}

/// Offset of the first byte of pixel `(x, y)` in a buffer `width` pixels wide.
pub open spec fn pixel_offset(width: nat, x: int, y: int) -> int {
    4 * (y * width + x)
}

impl Raster {
    pub open spec fn wf(self) -> bool {
        self.data.len() == 4 * self.width * self.height
    }

    pub open spec fn in_bounds(self, x: int, y: int) -> bool {
        0 <= x < self.width && 0 <= y < self.height
    }

    /// The four bytes of pixel `(x, y)`.
    pub open spec fn pixel(self, x: int, y: int) -> Seq<u8> {
        let o = pixel_offset(self.width, x, y);
        self.data.subrange(o, o + 4)
    }
}

/// A fully transparent buffer of `n` bytes.
pub open spec fn transparent(n: nat) -> Seq<u8> {
    Seq::new(n, |i: int| 0u8)
}

/// Blends `src` onto pixel `(x, y)` of the buffer `c`; a position outside the
/// `width` × `height` area leaves the buffer unchanged.
pub open spec fn stamp(c: Seq<u8>, width: nat, height: nat, x: int, y: int, src: Seq<u8>) -> Seq<u8> {
    if 0 <= x < width && 0 <= y < height {
        let o = pixel_offset(width, x, y);
        let b = over(c.subrange(o, o + 4), src);
        c.update(o, b[0]).update(o + 1, b[1]).update(o + 2, b[2]).update(o + 3, b[3])
    } else {
        c
    }
}

pub proof fn lemma_offset_in_buffer(width: nat, height: nat, x: int, y: int)
    requires
        0 <= x < width,
        0 <= y < height,
    ensures
        0 <= pixel_offset(width, x, y),
        pixel_offset(width, x, y) + 4 <= 4 * width * height,
{
    assert(0 <= y * width) by (nonlinear_arith)
        requires 0 <= y, 0 <= width;
    assert(y * width + x + 1 <= width * height) by (nonlinear_arith)
        requires 0 <= x < width, 0 <= y < height;
    assert(4 * (width * height) == 4 * width * height) by (nonlinear_arith);
}

pub proof fn lemma_stamp_keeps_length(c: Seq<u8>, width: nat, height: nat, x: int, y: int, src: Seq<u8>)
    requires
        c.len() == 4 * width * height,
    ensures
        stamp(c, width, height, x, y, src).len() == c.len(),
{
    if 0 <= x < width && 0 <= y < height {
        lemma_offset_in_buffer(width, height, x, y);
    }
}

/// The four bytes of pixel `(x, y)` of a buffer `width` pixels wide.
pub open spec fn pixel_in(c: Seq<u8>, width: nat, x: int, y: int) -> Seq<u8> {
    let o = pixel_offset(width, x, y);
    c.subrange(o, o + 4)
}

/// A stamp elsewhere, or a transparent one, leaves pixel `(x, y)` as it was.
pub proof fn lemma_stamp_keeps_pixel(
    c: Seq<u8>,
    width: nat,
    height: nat,
    x: int,
    y: int,
    x2: int,
    y2: int,
    src: Seq<u8>,
)
    requires
        c.len() == 4 * width * height,
        0 <= x < width,
        0 <= y < height,
        (x2, y2) != (x, y) || src[3] == 0,
    ensures
        pixel_in(stamp(c, width, height, x2, y2, src), width, x, y) == pixel_in(c, width, x, y),
{
    let c2 = stamp(c, width, height, x2, y2, src);
    lemma_offset_in_buffer(width, height, x, y);
    if 0 <= x2 < width && 0 <= y2 < height {
        lemma_offset_in_buffer(width, height, x2, y2);
        let o = pixel_offset(width, x, y);
        let o2 = pixel_offset(width, x2, y2);
        if (x2, y2) != (x, y) {
            assert(y * width + x != y2 * width + x2) by {
                if y < y2 {
                    assert(y * width + x < y2 * width + x2) by (nonlinear_arith)
                        requires y < y2, 0 <= x < width, 0 <= x2;
                } else if y > y2 {
                    assert(y2 * width + x2 < y * width + x) by (nonlinear_arith)
                        requires y2 < y, 0 <= x2 < width, 0 <= x;
                }
            }
            assert(o + 4 <= o2 || o2 + 4 <= o);
        } else {
            assert(o == o2);
        }
        assert(pixel_in(c2, width, x, y) =~= pixel_in(c, width, x, y));
    }
}

/// An opaque stamp on pixel `(x, y)` leaves exactly its color there.
pub proof fn lemma_stamp_opaque(c: Seq<u8>, width: nat, height: nat, x: int, y: int, src: Seq<u8>)
    requires
        c.len() == 4 * width * height,
        0 <= x < width,
        0 <= y < height,
        src.len() == 4,
        src[3] == 255,
    ensures
        pixel_in(stamp(c, width, height, x, y, src), width, x, y) == src,
{
    lemma_offset_in_buffer(width, height, x, y);
    assert(pixel_in(stamp(c, width, height, x, y, src), width, x, y) =~= src);
}

/// An owned RGBA buffer.
pub struct Bitmap {
    pub width: u32,
    pub height: u32,
    pub data: Vec<u8>,
}

impl View for Bitmap {
    type V = Raster;

    open spec fn view(&self) -> Raster {
        Raster { width: self.width as nat, height: self.height as nat, data: self.data@ }
    }
}

impl Bitmap {
    pub open spec fn wf(&self) -> bool {
        self@.wf()
    }

    /// A fully transparent bitmap of the given size.
    pub fn new_transparent(width: u32, height: u32) -> (r: Bitmap)
        requires
            4 * width * height <= usize::MAX,
        ensures
            r.width == width,
            r.height == height,
            r.data@ == transparent((4 * width * height) as nat),
            r.wf(),
    {
        assert(4 * width <= 4 * width * height || height == 0) by (nonlinear_arith);
        let n: usize = if height == 0 { 0 } else { 4 * (width as usize) * (height as usize) };
        let mut data: Vec<u8> = Vec::with_capacity(n);
        let mut i: usize = 0;
        while i < n
            invariant
                i <= n,
                data@ == transparent(i as nat),
            decreases n - i,
        {
            data.push(0u8);
            i = i + 1;
            assert(data@ =~= transparent(i as nat));
        }
        Bitmap { width, height, data }
    }
}

/// Blends `src` onto pixel `(x, y)` of `canvas`, a buffer of `width` × `height`
/// pixels; positions outside it are skipped.
pub fn stamp_pixel(canvas: &mut Vec<u8>, width: u32, height: u32, x: i64, y: i64, src: [u8; 4])
    requires
        old(canvas)@.len() == 4 * width * height,
    ensures
        final(canvas)@.len() == old(canvas)@.len(),
        final(canvas)@ == stamp(old(canvas)@, width as nat, height as nat, x as int, y as int, src@),
{
    if 0 <= x && x < width as i64 && 0 <= y && y < height as i64 {
        proof {
            lemma_offset_in_buffer(width as nat, height as nat, x as int, y as int);
        }
        assert(canvas.len() == 4 * width * height);
        assert(y * width <= y * width + x) by (nonlinear_arith)
            requires 0 <= x, 0 <= y;
        let o: usize = 4 * ((y as usize) * (width as usize) + (x as usize));
        let dst: [u8; 4] = [canvas[o], canvas[o + 1], canvas[o + 2], canvas[o + 3]];
        assert(dst@ =~= canvas@.subrange(o as int, o + 4));
        let b = blend_pixel(dst, src);
        assert(b@ == over(dst@, src@));
        canvas.set(o, b[0]);
        canvas.set(o + 1, b[1]);
        canvas.set(o + 2, b[2]);
        canvas.set(o + 3, b[3]);
    }
}

} // verus!
