//! Glyph coverage and the outlined caption bitmap drawn from it.

use vstd::prelude::*;

use crate::error::EngineError;
use crate::raster::{
    lemma_stamp_keeps_length, lemma_stamp_keeps_pixel, lemma_stamp_opaque, pixel_in, stamp,
    stamp_pixel, transparent, Bitmap, Raster,
};

verus! {

/// Transparent margin laid around the glyphs on each side of a caption bitmap; the
/// layout starts its pen at this offset.
pub const TEXT_MARGIN: u32 = 20;

/// Thickness of the border drawn around the glyphs.
pub const BORDER_SIZE: u32 = 6;

/// Side of the square kernel the border is smeared over.
pub const KERNEL_SIDE: u32 = 13;

/// Coverage of one positioned glyph: its pixel bounding box, placed in caption
/// coordinates, and one coverage byte (0 to 255) per pixel of the box, row after row.
/// A glyph without a bounding box (a space) has width or height 0.
pub struct GlyphCoverage {
    pub left: i32,
    pub top: i32,
    pub width: u32,
    pub height: u32,
    pub coverage: Vec<u8>,
}

/// The mathematical content of a `GlyphCoverage`.
pub struct GlyphView {
    pub left: int,
    pub top: int,
    pub width: nat,
    pub height: nat,
    pub coverage: Seq<u8>,
}

impl View for GlyphCoverage {
    type V = GlyphView;

    open spec fn view(&self) -> GlyphView {
        GlyphView {
            left: self.left as int,
            top: self.top as int,
            width: self.width as nat,
            height: self.height as nat,
            coverage: self.coverage@,
        }
    }
}

impl GlyphView {
    pub open spec fn wf(self) -> bool {
        self.coverage.len() == self.width * self.height
    }

    pub open spec fn has_area(self) -> bool {
        self.width > 0 && self.height > 0
    }

    /// A glyph with a box keeps at least `BORDER_SIZE` pixels between its box and every
    /// edge of a `cw` × `ch` canvas, room for its border.
    pub open spec fn padded_in(self, cw: int, ch: int) -> bool {
        self.has_area() ==> {
            &&& BORDER_SIZE <= self.left
            &&& self.left + self.width + BORDER_SIZE <= cw
            &&& BORDER_SIZE <= self.top
            &&& self.top + self.height + BORDER_SIZE <= ch
        }
    }

    /// Column, in caption coordinates, of the `i`-th coverage sample.
    pub open spec fn x_of(self, i: int) -> int {
        self.left + i % (self.width as int)
    }

    /// Row, in caption coordinates, of the `i`-th coverage sample.
    pub open spec fn y_of(self, i: int) -> int {
        self.top + i / (self.width as int)
    }
}

/// One line of text laid out by a font at a fixed scale: the height of the font's
/// line (ascent minus descent, rounded up) and the coverage of each glyph in order.
pub struct GlyphRun {
    pub height: u32,
    pub glyphs: Vec<GlyphCoverage>,
}

/// The mathematical content of a `GlyphRun`.
pub struct RunView {
    pub height: nat,
    pub glyphs: Seq<GlyphView>,
}

pub open spec fn glyph_views(gs: Seq<GlyphCoverage>) -> Seq<GlyphView> {
    gs.map_values(|g: GlyphCoverage| g@)
}

impl View for GlyphRun {
    type V = RunView;

    open spec fn view(&self) -> RunView {
        RunView { height: self.height as nat, glyphs: glyph_views(self.glyphs@) }
    }
}

/// Leftmost left bound and rightmost right bound of the glyphs with a bounding box
/// among the first `n`; `None` when there is none.
pub open spec fn extent(gs: Seq<GlyphView>, n: nat) -> Option<(int, int)>
    decreases n,
{
    if n == 0 {
        None
    } else {
        let prev = extent(gs, (n - 1) as nat);
        let g = gs[n - 1];
        if !g.has_area() {
            prev
        } else {
            match prev {
                None => Some((g.left, g.left + g.width)),
                Some((l, r)) => Some(
                    (if g.left < l { g.left } else { l }, if g.left + g.width > r {
                        g.left + g.width
                    } else {
                        r
                    }),
                ),
            }
        }
    }
}

/// The extent of glyphs that have a bounding box is never empty.
pub proof fn lemma_extent_ordered(gs: Seq<GlyphView>, n: nat)
    ensures
        extent(gs, n) matches Some((l, r)) ==> l < r,
    decreases n,
{
    if n > 0 {
        lemma_extent_ordered(gs, (n - 1) as nat);
    }
}

impl RunView {
    pub open spec fn glyph_extent(self) -> Option<(int, int)> {
        extent(self.glyphs, self.glyphs.len())
    }

    /// At least one glyph has a non-empty bounding box.
    pub open spec fn renderable(self) -> bool {
        self.glyph_extent() is Some
    }

    /// Width of the caption bitmap: the glyphs' extent plus the margin on both sides.
    pub open spec fn canvas_width(self) -> int {
        let (l, r) = self.glyph_extent()->0;
        r - l + 2 * TEXT_MARGIN
    }

    /// Height of the caption bitmap: the line height plus the margin above and below.
    pub open spec fn canvas_height(self) -> int {
        self.height + 2 * TEXT_MARGIN
    }

    /// Every coverage buffer matches its box, the caption bitmap is addressable, and
    /// every glyph box leaves room for its border inside it.
    pub open spec fn wf(self) -> bool {
        &&& forall|i: int| 0 <= i < self.glyphs.len() ==> (#[trigger] self.glyphs[i]).wf()
        &&& self.renderable() ==> {
            &&& self.canvas_width() <= u32::MAX
            &&& self.canvas_height() <= u32::MAX
            &&& 4 * self.canvas_width() * self.canvas_height() <= usize::MAX
            &&& forall|i: int|
                0 <= i < self.glyphs.len() ==> (#[trigger] self.glyphs[i]).padded_in(
                    self.canvas_width(),
                    self.canvas_height(),
                )
        }
    }
}

pub open spec fn border_color(v: u8) -> Seq<u8> {
    seq![0u8, 0u8, 0u8, v]
}

pub open spec fn fill_color(v: u8) -> Seq<u8> {
    seq![255u8, 255u8, 255u8, v]
}

/// The first `k` border stamps of coverage sample `i` of glyph `g`: the kernel is
/// walked column by column, each offset from -`BORDER_SIZE` to `BORDER_SIZE`.
pub open spec fn border_kernel(c: Seq<u8>, cw: nat, ch: nat, g: GlyphView, i: int, k: nat) -> Seq<u8>
    decreases k,
{
    if k == 0 {
        c
    } else {
        let j = k - 1;
        stamp(
            border_kernel(c, cw, ch, g, i, (k - 1) as nat),
            cw,
            ch,
            g.x_of(i) + j / (KERNEL_SIDE as int) - BORDER_SIZE,
            g.y_of(i) + j % (KERNEL_SIDE as int) - BORDER_SIZE,
            border_color(g.coverage[i]),
        )
    }
}

/// The border pass of the first `n` coverage samples of glyph `g`.
pub open spec fn border_pixels(c: Seq<u8>, cw: nat, ch: nat, g: GlyphView, n: nat) -> Seq<u8>
    decreases n,
{
    if n == 0 {
        c
    } else {
        border_kernel(
            border_pixels(c, cw, ch, g, (n - 1) as nat),
            cw,
            ch,
            g,
            n - 1,
            (KERNEL_SIDE * KERNEL_SIDE) as nat,
        )
    }
}

/// The border pass of the first `n` glyphs.
pub open spec fn border_glyphs(c: Seq<u8>, cw: nat, ch: nat, gs: Seq<GlyphView>, n: nat) -> Seq<u8>
    decreases n,
{
    if n == 0 {
        c
    } else {
        let g = gs[n - 1];
        border_pixels(border_glyphs(c, cw, ch, gs, (n - 1) as nat), cw, ch, g, g.coverage.len())
    }
}

/// The fill pass of the first `n` coverage samples of glyph `g`.
pub open spec fn fill_pixels(c: Seq<u8>, cw: nat, ch: nat, g: GlyphView, n: nat) -> Seq<u8>
    decreases n,
{
    if n == 0 {
        c
    } else {
        let i = n - 1;
        stamp(
            fill_pixels(c, cw, ch, g, (n - 1) as nat),
            cw,
            ch,
            g.x_of(i),
            g.y_of(i),
            fill_color(g.coverage[i]),
        )
    }
}

/// The fill pass of the first `n` glyphs.
pub open spec fn fill_glyphs(c: Seq<u8>, cw: nat, ch: nat, gs: Seq<GlyphView>, n: nat) -> Seq<u8>
    decreases n,
{
    if n == 0 {
        c
    } else {
        let g = gs[n - 1];
        fill_pixels(fill_glyphs(c, cw, ch, gs, (n - 1) as nat), cw, ch, g, g.coverage.len())
    }
}

/// The outlined caption of a renderable run: a transparent canvas, then the border
/// pass over every glyph, then the fill pass over every glyph.
pub open spec fn outlined(run: RunView) -> Raster {
    let cw = run.canvas_width() as nat;
    let ch = run.canvas_height() as nat;
    let n = run.glyphs.len();
    let bordered = border_glyphs(transparent(4 * cw * ch), cw, ch, run.glyphs, n);
    Raster { width: cw, height: ch, data: fill_glyphs(bordered, cw, ch, run.glyphs, n) }
}

proof fn lemma_border_kernel_length(c: Seq<u8>, cw: nat, ch: nat, g: GlyphView, i: int, k: nat)
    requires
        c.len() == 4 * cw * ch,
    ensures
        border_kernel(c, cw, ch, g, i, k).len() == c.len(),
    decreases k,
{
    if k > 0 {
        let j = k - 1;
        lemma_border_kernel_length(c, cw, ch, g, i, (k - 1) as nat);
        lemma_stamp_keeps_length(
            border_kernel(c, cw, ch, g, i, (k - 1) as nat),
            cw,
            ch,
            g.x_of(i) + j / (KERNEL_SIDE as int) - BORDER_SIZE,
            g.y_of(i) + j % (KERNEL_SIDE as int) - BORDER_SIZE,
            border_color(g.coverage[i]),
        );
    }
}

proof fn lemma_border_pixels_length(c: Seq<u8>, cw: nat, ch: nat, g: GlyphView, n: nat)
    requires
        c.len() == 4 * cw * ch,
    ensures
        border_pixels(c, cw, ch, g, n).len() == c.len(),
    decreases n,
{
    if n > 0 {
        lemma_border_pixels_length(c, cw, ch, g, (n - 1) as nat);
        lemma_border_kernel_length(
            border_pixels(c, cw, ch, g, (n - 1) as nat),
            cw,
            ch,
            g,
            n - 1,
            (KERNEL_SIDE * KERNEL_SIDE) as nat,
        );
    }
}

proof fn lemma_border_glyphs_length(c: Seq<u8>, cw: nat, ch: nat, gs: Seq<GlyphView>, n: nat)
    requires
        c.len() == 4 * cw * ch,
    ensures
        border_glyphs(c, cw, ch, gs, n).len() == c.len(),
    decreases n,
{
    if n > 0 {
        lemma_border_glyphs_length(c, cw, ch, gs, (n - 1) as nat);
        lemma_border_pixels_length(
            border_glyphs(c, cw, ch, gs, (n - 1) as nat),
            cw,
            ch,
            gs[n - 1],
            gs[n - 1].coverage.len(),
        );
    }
}

proof fn lemma_fill_pixels_length(c: Seq<u8>, cw: nat, ch: nat, g: GlyphView, n: nat)
    requires
        c.len() == 4 * cw * ch,
    ensures
        fill_pixels(c, cw, ch, g, n).len() == c.len(),
    decreases n,
{
    if n > 0 {
        let i = n - 1;
        lemma_fill_pixels_length(c, cw, ch, g, (n - 1) as nat);
        lemma_stamp_keeps_length(
            fill_pixels(c, cw, ch, g, (n - 1) as nat),
            cw,
            ch,
            g.x_of(i),
            g.y_of(i),
            fill_color(g.coverage[i]),
        );
    }
}

proof fn lemma_fill_glyphs_length(c: Seq<u8>, cw: nat, ch: nat, gs: Seq<GlyphView>, n: nat)
    requires
        c.len() == 4 * cw * ch,
    ensures
        fill_glyphs(c, cw, ch, gs, n).len() == c.len(),
    decreases n,
{
    if n > 0 {
        lemma_fill_glyphs_length(c, cw, ch, gs, (n - 1) as nat);
        lemma_fill_pixels_length(
            fill_glyphs(c, cw, ch, gs, (n - 1) as nat),
            cw,
            ch,
            gs[n - 1],
            gs[n - 1].coverage.len(),
        );
    }
}

/// Sample `i` of glyph `g` does not paint pixel `(x, y)`: it lies elsewhere or has no
/// coverage.
pub open spec fn misses(g: GlyphView, i: int, x: int, y: int) -> bool {
    (g.x_of(i), g.y_of(i)) != (x, y) || g.coverage[i] == 0
}

/// Fill samples `m .. n` of `g` that miss `(x, y)` leave it as it was.
proof fn lemma_fill_pixels_keep(c: Seq<u8>, cw: nat, ch: nat, g: GlyphView, m: nat, n: nat, x: int, y: int)
    requires
        c.len() == 4 * cw * ch,
        0 <= x < cw,
        0 <= y < ch,
        m <= n,
        forall|i: int| m <= i < n ==> #[trigger] misses(g, i, x, y),
    ensures
        pixel_in(fill_pixels(c, cw, ch, g, n), cw, x, y) == pixel_in(fill_pixels(c, cw, ch, g, m), cw, x, y),
    decreases n - m,
{
    if n > m {
        let i = n - 1;
        assert(misses(g, i, x, y));
        lemma_fill_pixels_keep(c, cw, ch, g, m, (n - 1) as nat, x, y);
        lemma_fill_pixels_length(c, cw, ch, g, (n - 1) as nat);
        lemma_stamp_keeps_pixel(
            fill_pixels(c, cw, ch, g, (n - 1) as nat),
            cw,
            ch,
            x,
            y,
            g.x_of(i),
            g.y_of(i),
            fill_color(g.coverage[i]),
        );
    }
}

/// The fill of glyphs `m .. n`, none of which paints `(x, y)`, leaves it as it was.
proof fn lemma_fill_glyphs_keep(
    c: Seq<u8>,
    cw: nat,
    ch: nat,
    gs: Seq<GlyphView>,
    m: nat,
    n: nat,
    x: int,
    y: int,
)
    requires
        c.len() == 4 * cw * ch,
        0 <= x < cw,
        0 <= y < ch,
        m <= n,
        forall|j: int, k: int|
            m <= j < n && 0 <= k < gs[j].coverage.len() ==> #[trigger] misses(gs[j], k, x, y),
    ensures
        pixel_in(fill_glyphs(c, cw, ch, gs, n), cw, x, y) == pixel_in(fill_glyphs(c, cw, ch, gs, m), cw, x, y),
    decreases n - m,
{
    if n > m {
        let g = gs[n - 1];
        lemma_fill_glyphs_keep(c, cw, ch, gs, m, (n - 1) as nat, x, y);
        lemma_fill_glyphs_length(c, cw, ch, gs, (n - 1) as nat);
        assert forall|k: int| 0 <= k < g.coverage.len() implies #[trigger] misses(g, k, x, y) by {
            assert(misses(gs[n - 1], k, x, y));
        }
        lemma_fill_pixels_keep(fill_glyphs(c, cw, ch, gs, (n - 1) as nat), cw, ch, g, 0, g.coverage.len(), x, y);
    }
}

/// Two different samples of one glyph lie at different positions.
proof fn lemma_samples_distinct(g: GlyphView, i: int, k: int)
    requires
        g.wf(),
        0 <= i < k < g.coverage.len(),
    ensures
        (g.x_of(i), g.y_of(i)) != (g.x_of(k), g.y_of(k)),
{
    let w = g.width as int;
    if w == 0 {
        assert(g.width * g.height == 0);
    } else {
        vstd::arithmetic::div_mod::lemma_fundamental_div_mod(i, w);
        vstd::arithmetic::div_mod::lemma_fundamental_div_mod(k, w);
    }
}

/// Fill wins over border: where a glyph's sample has full coverage and no glyph drawn
/// after it paints the same pixel, the caption shows the opaque fill color there, so
/// nothing of any border is visible at that pixel.
pub proof fn lemma_fill_wins(run: RunView, gi: int, i: int)
    requires
        run.wf(),
        run.renderable(),
        0 <= gi < run.glyphs.len(),
        0 <= i < run.glyphs[gi].coverage.len(),
        run.glyphs[gi].coverage[i] == 255,
        forall|j: int, k: int|
            gi < j < run.glyphs.len() && 0 <= k < run.glyphs[j].coverage.len() ==> #[trigger] misses(
                run.glyphs[j],
                k,
                run.glyphs[gi].x_of(i),
                run.glyphs[gi].y_of(i),
            ),
    ensures
        outlined(run).pixel(run.glyphs[gi].x_of(i), run.glyphs[gi].y_of(i)) == fill_color(255),
{
    let cw = run.canvas_width() as nat;
    let ch = run.canvas_height() as nat;
    let n = run.glyphs.len();
    let g = run.glyphs[gi];
    let x = g.x_of(i);
    let y = g.y_of(i);
    let b = border_glyphs(transparent(4 * cw * ch), cw, ch, run.glyphs, n);
    lemma_samples_padded(run);
    assert(BORDER_SIZE <= run.glyphs[gi].x_of(i));
    lemma_border_glyphs_length(transparent(4 * cw * ch), cw, ch, run.glyphs, n);
    assert(g.wf());
    // Glyphs after `gi` leave the pixel alone.
    lemma_fill_glyphs_keep(b, cw, ch, run.glyphs, (gi + 1) as nat, n, x, y);
    let before = fill_glyphs(b, cw, ch, run.glyphs, gi as nat);
    lemma_fill_glyphs_length(b, cw, ch, run.glyphs, gi as nat);
    // Within glyph `gi`, the samples after `i` lie elsewhere.
    assert forall|k: int| i + 1 <= k < g.coverage.len() implies #[trigger] misses(g, k, x, y) by {
        lemma_samples_distinct(g, i, k);
    }
    lemma_fill_pixels_keep(before, cw, ch, g, (i + 1) as nat, g.coverage.len(), x, y);
    lemma_fill_pixels_length(before, cw, ch, g, i as nat);
    lemma_stamp_opaque(fill_pixels(before, cw, ch, g, i as nat), cw, ch, x, y, fill_color(255));
}

/// Rasterizing is a function of the run alone: equal runs give the same caption bitmap.
pub proof fn lemma_render_is_pure(a: RunView, b: RunView)
    requires
        a == b,
    ensures
        outlined(a) == outlined(b),
{
}

/// Where sample `i` of glyph `g` lands, in caption coordinates.
fn sample_position(g: &GlyphCoverage, i: usize) -> (r: (i64, i64))
    requires
        g@.wf(),
        i < g.coverage@.len(),
    ensures
        r.0 == g@.x_of(i as int),
        r.1 == g@.y_of(i as int),
        i32::MIN <= r.0 <= i32::MAX + u32::MAX,
        i32::MIN <= r.1 <= i32::MAX + u32::MAX,
{
    let gw = g.width as usize;
    assert(gw > 0) by {
        if gw == 0 {
            assert(g.width * g.height == 0);
        }
    }
    proof {
        vstd::arithmetic::div_mod::lemma_multiply_divide_lt(i as int, gw as int, g.height as int);
        vstd::arithmetic::div_mod::lemma_div_pos_is_pos(i as int, gw as int);
    }
    (g.left as i64 + (i % gw) as i64, g.top as i64 + (i / gw) as i64)
}

/// Border pass of one glyph: every coverage sample is smeared over the square
/// kernel around its position.
fn border_glyph(canvas: &mut Vec<u8>, cw: u32, ch: u32, g: &GlyphCoverage)
    requires
        old(canvas)@.len() == 4 * cw * ch,
        g@.wf(),
    ensures
        final(canvas)@.len() == old(canvas)@.len(),
        final(canvas)@ == border_pixels(old(canvas)@, cw as nat, ch as nat, g@, g@.coverage.len()),
{
    let ghost c0 = canvas@;
    let n = g.coverage.len();
    let mut i: usize = 0;
    while i < n
        invariant
            i <= n,
            n == g@.coverage.len(),
            g@.wf(),
            canvas@.len() == 4 * cw * ch,
            canvas@ == border_pixels(c0, cw as nat, ch as nat, g@, i as nat),
        decreases n - i,
    {
        let v = g.coverage[i];
        let (x, y) = sample_position(g, i);
        let ghost before = canvas@;
        let mut k: u32 = 0;
        while k < KERNEL_SIDE * KERNEL_SIDE
            invariant
                k <= KERNEL_SIDE * KERNEL_SIDE,
                i < n,
                n == g@.coverage.len(),
                v == g@.coverage[i as int],
                x == g@.x_of(i as int),
                y == g@.y_of(i as int),
                i32::MIN <= x <= i32::MAX + u32::MAX,
                i32::MIN <= y <= i32::MAX + u32::MAX,
                canvas@.len() == 4 * cw * ch,
                canvas@ == border_kernel(before, cw as nat, ch as nat, g@, i as int, k as nat),
            decreases KERNEL_SIDE * KERNEL_SIDE - k,
        {
            let color: [u8; 4] = [0u8, 0u8, 0u8, v];
            assert(color@ =~= border_color(v));
            let bx = x + (k / KERNEL_SIDE) as i64 - BORDER_SIZE as i64;
            let by = y + (k % KERNEL_SIDE) as i64 - BORDER_SIZE as i64;
            stamp_pixel(canvas, cw, ch, bx, by, color);
            k = k + 1;
        }
        i = i + 1;
    }
}

/// Fill pass of one glyph: every coverage sample is blended at its own position.
fn fill_glyph(canvas: &mut Vec<u8>, cw: u32, ch: u32, g: &GlyphCoverage)
    requires
        old(canvas)@.len() == 4 * cw * ch,
        g@.wf(),
    ensures
        final(canvas)@.len() == old(canvas)@.len(),
        final(canvas)@ == fill_pixels(old(canvas)@, cw as nat, ch as nat, g@, g@.coverage.len()),
{
    let ghost c0 = canvas@;
    let n = g.coverage.len();
    let mut i: usize = 0;
    while i < n
        invariant
            i <= n,
            n == g@.coverage.len(),
            g@.wf(),
            canvas@.len() == 4 * cw * ch,
            canvas@ == fill_pixels(c0, cw as nat, ch as nat, g@, i as nat),
        decreases n - i,
    {
        let v = g.coverage[i];
        let (x, y) = sample_position(g, i);
        let color: [u8; 4] = [255u8, 255u8, 255u8, v];
        assert(color@ =~= fill_color(v));
        stamp_pixel(canvas, cw, ch, x, y, color);
        i = i + 1;
    }
}

/// Border pass over all glyphs, in order.
fn border_pass(canvas: &mut Vec<u8>, cw: u32, ch: u32, glyphs: &Vec<GlyphCoverage>)
    requires
        old(canvas)@.len() == 4 * cw * ch,
        forall|i: int| 0 <= i < glyphs@.len() ==> (#[trigger] glyph_views(glyphs@)[i]).wf(),
    ensures
        final(canvas)@.len() == old(canvas)@.len(),
        final(canvas)@ == border_glyphs(
            old(canvas)@,
            cw as nat,
            ch as nat,
            glyph_views(glyphs@),
            glyphs@.len(),
        ),
{
    let ghost c0 = canvas@;
    let ghost gs = glyph_views(glyphs@);
    let mut gi: usize = 0;
    while gi < glyphs.len()
        invariant
            gi <= glyphs@.len(),
            gs == glyph_views(glyphs@),
            forall|i: int| 0 <= i < glyphs@.len() ==> (#[trigger] glyph_views(glyphs@)[i]).wf(),
            canvas@.len() == 4 * cw * ch,
            canvas@ == border_glyphs(c0, cw as nat, ch as nat, gs, gi as nat),
        decreases glyphs@.len() - gi,
    {
        let g = &glyphs[gi];
        assert(gs[gi as int] == g@);
        border_glyph(canvas, cw, ch, g);
        gi = gi + 1;
    }
}

/// Fill pass over all glyphs, in order.
fn fill_pass(canvas: &mut Vec<u8>, cw: u32, ch: u32, glyphs: &Vec<GlyphCoverage>)
    requires
        old(canvas)@.len() == 4 * cw * ch,
        forall|i: int| 0 <= i < glyphs@.len() ==> (#[trigger] glyph_views(glyphs@)[i]).wf(),
    ensures
        final(canvas)@.len() == old(canvas)@.len(),
        final(canvas)@ == fill_glyphs(
            old(canvas)@,
            cw as nat,
            ch as nat,
            glyph_views(glyphs@),
            glyphs@.len(),
        ),
{
    let ghost c0 = canvas@;
    let ghost gs = glyph_views(glyphs@);
    let mut gi: usize = 0;
    while gi < glyphs.len()
        invariant
            gi <= glyphs@.len(),
            gs == glyph_views(glyphs@),
            forall|i: int| 0 <= i < glyphs@.len() ==> (#[trigger] glyph_views(glyphs@)[i]).wf(),
            canvas@.len() == 4 * cw * ch,
            canvas@ == fill_glyphs(c0, cw as nat, ch as nat, gs, gi as nat),
        decreases glyphs@.len() - gi,
    {
        let g = &glyphs[gi];
        assert(gs[gi as int] == g@);
        fill_glyph(canvas, cw, ch, g);
        gi = gi + 1;
    }
}

/// Leftmost left bound and rightmost right bound over the glyphs that have a
/// bounding box.
fn glyph_extent(glyphs: &Vec<GlyphCoverage>) -> (r: Option<(i64, i64)>)
    ensures
        match r {
            None => extent(glyph_views(glyphs@), glyphs@.len()) is None,
            Some((l, rt)) => {
                &&& extent(glyph_views(glyphs@), glyphs@.len()) == Some((l as int, rt as int))
                &&& i32::MIN <= l < rt <= i32::MAX + u32::MAX
            },
        },
{
    let ghost gs = glyph_views(glyphs@);
    let mut acc: Option<(i64, i64)> = None;
    let mut gi: usize = 0;
    while gi < glyphs.len()
        invariant
            gi <= glyphs@.len(),
            gs == glyph_views(glyphs@),
            match acc {
                None => extent(gs, gi as nat) is None,
                Some((l, rt)) => {
                    &&& extent(gs, gi as nat) == Some((l as int, rt as int))
                    &&& i32::MIN <= l < rt <= i32::MAX + u32::MAX
                },
            },
        decreases glyphs@.len() - gi,
    {
        let g = &glyphs[gi];
        assert(gs[gi as int] == g@);
        if g.width > 0 && g.height > 0 {
            let gl = g.left as i64;
            let gr = g.left as i64 + g.width as i64;
            acc = match acc {
                None => Some((gl, gr)),
                Some((l, rt)) => Some(
                    (if gl < l { gl } else { l }, if gr > rt { gr } else { rt }),
                ),
            };
        }
        gi = gi + 1;
    }
    acc
}

/// Whether every glyph box leaves room for its border in a `cw` × `ch` canvas.
fn all_padded(glyphs: &Vec<GlyphCoverage>, cw: i128, ch: i128) -> (r: bool)
    ensures
        r == forall|i: int|
            0 <= i < glyphs@.len() ==> (#[trigger] glyph_views(glyphs@)[i]).padded_in(
                cw as int,
                ch as int,
            ),
{
    let ghost gs = glyph_views(glyphs@);
    let b: i128 = BORDER_SIZE as i128;
    let mut gi: usize = 0;
    while gi < glyphs.len()
        invariant
            gi <= glyphs@.len(),
            gs == glyph_views(glyphs@),
            b == BORDER_SIZE,
            forall|i: int| 0 <= i < gi ==> (#[trigger] gs[i]).padded_in(cw as int, ch as int),
        decreases glyphs@.len() - gi,
    {
        let g = &glyphs[gi];
        assert(gs[gi as int] == g@);
        if g.width > 0 && g.height > 0 {
            let left = g.left as i128;
            let top = g.top as i128;
            if !(b <= left && left + g.width as i128 + b <= cw && b <= top && top + g.height as i128
                + b <= ch) {
                return false;
            }
        }
        gi = gi + 1;
    }
    true
}

/// Each coverage sample of a run lies at least `BORDER_SIZE` pixels inside the caption
/// bitmap, so every stamp of its border kernel falls on the bitmap.
pub proof fn lemma_samples_padded(run: RunView)
    requires
        run.wf(),
        run.renderable(),
    ensures
        forall|gi: int, i: int|
            0 <= gi < run.glyphs.len() && 0 <= i < run.glyphs[gi].coverage.len() ==> {
                &&& BORDER_SIZE <= #[trigger] run.glyphs[gi].x_of(i)
                &&& run.glyphs[gi].x_of(i) + BORDER_SIZE < run.canvas_width()
                &&& BORDER_SIZE <= run.glyphs[gi].y_of(i)
                &&& run.glyphs[gi].y_of(i) + BORDER_SIZE < run.canvas_height()
            },
{
    assert forall|gi: int, i: int|
        0 <= gi < run.glyphs.len() && 0 <= i < run.glyphs[gi].coverage.len() implies {
        &&& BORDER_SIZE <= #[trigger] run.glyphs[gi].x_of(i)
        &&& run.glyphs[gi].x_of(i) + BORDER_SIZE < run.canvas_width()
        &&& BORDER_SIZE <= run.glyphs[gi].y_of(i)
        &&& run.glyphs[gi].y_of(i) + BORDER_SIZE < run.canvas_height()
    } by {
        let g = run.glyphs[gi];
        assert(g.wf());
        assert(g.padded_in(run.canvas_width(), run.canvas_height()));
        let w = g.width as int;
        assert(w > 0 && g.height > 0) by {
            if w == 0 || g.height == 0 {
                assert(g.width * g.height == 0) by (nonlinear_arith)
                    requires g.width == 0 || g.height == 0;
            }
        }
        vstd::arithmetic::div_mod::lemma_mod_pos_bound(i, w);
        vstd::arithmetic::div_mod::lemma_div_pos_is_pos(i, w);
        vstd::arithmetic::div_mod::lemma_multiply_divide_lt(i, w, g.height as int);
    }
}

impl GlyphRun {
    /// Whether every coverage buffer matches its box and the caption bitmap the
    /// run would give is addressable.
    pub fn is_valid(&self) -> (r: bool)
        ensures
            r == self@.wf(),
    {
        let ghost gs = self@.glyphs;
        let mut gi: usize = 0;
        while gi < self.glyphs.len()
            invariant
                gi <= self.glyphs@.len(),
                gs == glyph_views(self.glyphs@),
                forall|i: int| 0 <= i < gi ==> (#[trigger] gs[i]).wf(),
            decreases self.glyphs@.len() - gi,
        {
            let g = &self.glyphs[gi];
            assert(gs[gi as int] == g@);
            assert(g.width * g.height <= u32::MAX * u32::MAX) by (nonlinear_arith);
            if g.coverage.len() as u64 != g.width as u64 * g.height as u64 {
                return false;
            }
            gi = gi + 1;
        }
        match glyph_extent(&self.glyphs) {
            None => true,
            Some((l, rt)) => {
                let cw: i128 = (rt - l) as i128 + 2 * TEXT_MARGIN as i128;
                let ch: i128 = self.height as i128 + 2 * TEXT_MARGIN as i128;
                if cw > u32::MAX as i128 || ch > u32::MAX as i128 {
                    false
                } else {
                    assert(0 <= cw * ch <= u32::MAX * u32::MAX) by (nonlinear_arith)
                        requires 0 <= cw <= u32::MAX, 0 <= ch <= u32::MAX;
                    assert(4 * cw * ch == 4 * (cw * ch)) by (nonlinear_arith);
                    let area = cw * ch;
                    4 * area <= usize::MAX as i128 && all_padded(&self.glyphs, cw, ch)
                }
            },
        }
    }
}

/// Rasterizes the outlined caption of a run: a transparent bitmap as wide as the
/// glyphs' extent and as high as the line, with `TEXT_MARGIN` around both, on which
/// every glyph's border is drawn first and every glyph's fill after. Every sample lies
/// at least `BORDER_SIZE` pixels inside the bitmap.
pub fn render_text(run: &GlyphRun) -> (r: Result<Bitmap, EngineError>)
    requires
        run@.wf(),
    ensures
        match r {
            Ok(b) => {
                &&& run@.renderable()
                &&& b@ == outlined(run@)
                &&& b.wf()
                &&& forall|gi: int, i: int|
                    0 <= gi < run@.glyphs.len() && 0 <= i < run@.glyphs[gi].coverage.len() ==> {
                        &&& BORDER_SIZE <= #[trigger] run@.glyphs[gi].x_of(i)
                        &&& run@.glyphs[gi].x_of(i) + BORDER_SIZE < b.width
                        &&& BORDER_SIZE <= run@.glyphs[gi].y_of(i)
                        &&& run@.glyphs[gi].y_of(i) + BORDER_SIZE < b.height
                    }
            },
            Err(e) => !run@.renderable() && e == EngineError::GlyphLayoutError,
        },
{
    match glyph_extent(&run.glyphs) {
        None => Err(EngineError::GlyphLayoutError),
        Some((l, rt)) => {
            let cw: u32 = ((rt - l) + 2 * TEXT_MARGIN as i64) as u32;
            let ch: u32 = run.height + 2 * TEXT_MARGIN;
            proof {
                lemma_samples_padded(run@);
            }
            let mut canvas = Bitmap::new_transparent(cw, ch);
            border_pass(&mut canvas.data, cw, ch, &run.glyphs);
            fill_pass(&mut canvas.data, cw, ch, &run.glyphs);
            Ok(canvas)
        },
    }
}

} // verus!
