use vstd::prelude::*;

use crate::error::ArtError;
use crate::quantize::ceil_div;
use crate::raster::CoverageRaster;

verus! {

/// Metric subunits per pixel: advance widths, kerning and vertical metrics
/// are fixed-point values in 1/64 pixel.
pub const SUBPIXELS: i64 = 64;

/// Largest magnitude, in subunits, that any single metric of a well-formed
/// font may have.
pub const MAX_METRIC: i64 = 0x10_0000;

/// One coverage sample of a rendered glyph: local pixel offsets from the
/// glyph's draw origin and a coverage fraction, `coverage / 65535` of full
/// ink.
#[derive(Clone, Copy)]
pub struct GlyphSample {
    pub dx: u32,
    pub dy: u32,
    pub coverage: u16,
}

/// A glyph of the font at the chosen point size: the character it renders,
/// its advance width in subunits, the top offset of its bounding box in
/// pixels, and its coverage samples.
pub struct GlyphDef {
    pub ch: char,
    pub advance: i64,
    pub top: i32,
    pub samples: Vec<GlyphSample>,
}

impl GlyphDef {
    pub open spec fn wf(self) -> bool {
        0 <= self.advance <= MAX_METRIC
    }
}

/// The kerning adjustment, in subunits, between a pair of characters.
pub struct KernPair {
    pub left: char,
    pub right: char,
    pub adjust: i64,
}

/// A font definition at a fixed point size: vertical metrics in subunits
/// (`descent` is non-positive), the glyph set and the kerning pairs.
/// Lookups take the first matching entry.
pub struct FontDef {
    pub ascent: i64,
    pub descent: i64,
    pub glyphs: Vec<GlyphDef>,
    pub kerning: Vec<KernPair>,
}

impl FontDef {
    pub open spec fn wf(self) -> bool {
        &&& 1 <= self.ascent <= MAX_METRIC
        &&& -MAX_METRIC <= self.descent <= 0
        &&& forall|i: int| 0 <= i < self.glyphs@.len() ==> (#[trigger] self.glyphs@[i]).wf()
        &&& forall|i: int|
            0 <= i < self.kerning@.len() ==> -MAX_METRIC <= (#[trigger] self.kerning@[i]).adjust
                <= MAX_METRIC
    }
}

/// Index of the first glyph that renders `c`, or -1 when the font has none.
pub open spec fn glyph_index_in(gs: Seq<GlyphDef>, c: char) -> int
    decreases gs.len(),
{
    if gs.len() == 0 {
        -1
    } else if gs[0].ch == c {
        0
    } else {
        let r = glyph_index_in(gs.drop_first(), c);
        if r < 0 {
            -1
        } else {
            r + 1
        }
    }
}

/// Whether the font has a glyph for `c`.
pub open spec fn has_glyph(font: FontDef, c: char) -> bool {
    glyph_index_in(font.glyphs@, c) >= 0
}

/// The glyph that the font uses for `c`.
pub open spec fn glyph_of(font: FontDef, c: char) -> GlyphDef {
    font.glyphs@[glyph_index_in(font.glyphs@, c)]
}

proof fn lemma_glyph_index_props(gs: Seq<GlyphDef>, c: char)
    ensures
        glyph_index_in(gs, c) == -1 ==> forall|i: int|
            0 <= i < gs.len() ==> (#[trigger] gs[i]).ch != c,
        glyph_index_in(gs, c) >= 0 ==> {
            let r = glyph_index_in(gs, c);
            0 <= r < gs.len() && gs[r].ch == c
        },
        glyph_index_in(gs, c) >= -1,
    decreases gs.len(),
{
    if gs.len() == 0 {
    } else if gs[0].ch == c {
    } else {
        lemma_glyph_index_props(gs.drop_first(), c);
        if glyph_index_in(gs, c) == -1 {
            assert forall|i: int| 0 <= i < gs.len() implies (#[trigger] gs[i]).ch != c by {
                if i > 0 {
                    assert(gs.drop_first()[i - 1] == gs[i]);
                }
            }
        }
    }
}

proof fn lemma_glyph_index_found(gs: Seq<GlyphDef>, c: char, k: int)
    requires
        0 <= k < gs.len(),
        gs[k].ch == c,
        forall|i: int| 0 <= i < k ==> (#[trigger] gs[i]).ch != c,
    ensures
        glyph_index_in(gs, c) == k,
    decreases gs.len(),
{
    if k == 0 {
    } else {
        assert(gs[0].ch != c);
        assert(gs.drop_first()[k - 1] == gs[k]);
        assert forall|i: int| 0 <= i < k - 1 implies (#[trigger] gs.drop_first()[i]).ch != c by {
            assert(gs.drop_first()[i] == gs[i + 1]);
        }
        lemma_glyph_index_found(gs.drop_first(), c, k - 1);
    }
}

proof fn lemma_glyph_index_missing(gs: Seq<GlyphDef>, c: char)
    requires
        forall|i: int| 0 <= i < gs.len() ==> (#[trigger] gs[i]).ch != c,
    ensures
        glyph_index_in(gs, c) == -1,
    decreases gs.len(),
{
    if gs.len() > 0 {
        assert forall|i: int|
            0 <= i < gs.drop_first().len() implies (#[trigger] gs.drop_first()[i]).ch != c by {
            assert(gs.drop_first()[i] == gs[i + 1]);
        }
        lemma_glyph_index_missing(gs.drop_first(), c);
    }
}

/// The kerning adjustment of the first matching pair, or 0 when the font
/// defines none for `(a, b)`.
pub open spec fn kern_in(ks: Seq<KernPair>, a: char, b: char) -> int
    decreases ks.len(),
{
    if ks.len() == 0 {
        0
    } else if ks[0].left == a && ks[0].right == b {
        ks[0].adjust as int
    } else {
        kern_in(ks.drop_first(), a, b)
    }
}

/// The kerning adjustment the font applies between characters `a` and `b`.
pub open spec fn kern_adjust(font: FontDef, a: char, b: char) -> int {
    kern_in(font.kerning@, a, b)
}

proof fn lemma_kern_in_bound(ks: Seq<KernPair>, a: char, b: char, m: int)
    requires
        m >= 0,
        forall|i: int| 0 <= i < ks.len() ==> -m <= (#[trigger] ks[i]).adjust <= m,
    ensures
        -m <= kern_in(ks, a, b) <= m,
    decreases ks.len(),
{
    if ks.len() > 0 && !(ks[0].left == a && ks[0].right == b) {
        assert forall|i: int|
            0 <= i < ks.drop_first().len() implies -m <= (#[trigger] ks.drop_first()[i]).adjust
            <= m by {
            assert(ks.drop_first()[i] == ks[i + 1]);
        }
        lemma_kern_in_bound(ks.drop_first(), a, b, m);
    }
}

proof fn lemma_kern_in_found(ks: Seq<KernPair>, a: char, b: char, k: int)
    requires
        0 <= k < ks.len(),
        ks[k].left == a && ks[k].right == b,
        forall|i: int| 0 <= i < k ==> !((#[trigger] ks[i]).left == a && ks[i].right == b),
    ensures
        kern_in(ks, a, b) == ks[k].adjust,
    decreases ks.len(),
{
    if k == 0 {
    } else {
        assert(!(ks[0].left == a && ks[0].right == b));
        assert(ks.drop_first()[k - 1] == ks[k]);
        assert forall|i: int|
            0 <= i < k - 1 implies !((#[trigger] ks.drop_first()[i]).left == a
            && ks.drop_first()[i].right == b) by {
            assert(ks.drop_first()[i] == ks[i + 1]);
        }
        lemma_kern_in_found(ks.drop_first(), a, b, k - 1);
    }
}

proof fn lemma_kern_in_missing(ks: Seq<KernPair>, a: char, b: char)
    requires
        forall|i: int| 0 <= i < ks.len() ==> !((#[trigger] ks[i]).left == a && ks[i].right == b),
    ensures
        kern_in(ks, a, b) == 0,
    decreases ks.len(),
{
    if ks.len() > 0 {
        assert forall|i: int|
            0 <= i < ks.drop_first().len() implies !((#[trigger] ks.drop_first()[i]).left == a
            && ks.drop_first()[i].right == b) by {
            assert(ks.drop_first()[i] == ks[i + 1]);
        }
        lemma_kern_in_missing(ks.drop_first(), a, b);
    }
}

impl FontDef {
    /// Index of the first glyph for `c`, if the font supports it.
    pub fn find_glyph(&self, c: char) -> (r: Option<usize>)
        ensures
            match r {
                Some(k) => k as int == glyph_index_in(self.glyphs@, c) && k < self.glyphs@.len()
                    && self.glyphs@[k as int].ch == c,
                None => glyph_index_in(self.glyphs@, c) == -1,
            },
            has_glyph(*self, c) <==> r is Some,
    {
        let mut k: usize = 0;
        while k < self.glyphs.len()
            invariant
                k <= self.glyphs@.len(),
                forall|i: int| 0 <= i < k ==> (#[trigger] self.glyphs@[i]).ch != c,
            decreases self.glyphs@.len() - k,
        {
            if self.glyphs[k].ch == c {
                proof {
                    lemma_glyph_index_found(self.glyphs@, c, k as int);
                }
                return Some(k);
            }
            k = k + 1;
        }
        proof {
            lemma_glyph_index_missing(self.glyphs@, c);
        }
        None
    }

    /// The kerning adjustment between `a` and `b`: the first matching pair's
    /// value, or 0 when none is defined.
    pub fn kern(&self, a: char, b: char) -> (v: i64)
        ensures
            v as int == kern_adjust(*self, a, b),
    {
        let mut k: usize = 0;
        while k < self.kerning.len()
            invariant
                k <= self.kerning@.len(),
                forall|i: int|
                    0 <= i < k ==> !((#[trigger] self.kerning@[i]).left == a
                        && self.kerning@[i].right == b),
            decreases self.kerning@.len() - k,
        {
            if self.kerning[k].left == a && self.kerning[k].right == b {
                proof {
                    lemma_kern_in_found(self.kerning@, a, b, k as int);
                }
                return self.kerning[k].adjust;
            }
            k = k + 1;
        }
        proof {
            lemma_kern_in_missing(self.kerning@, a, b);
        }
        0
    }
}

/// The characters of `text` that the font supports, in order: the positioned
/// glyph sequence of the layout.
pub open spec fn supported(font: FontDef, text: Seq<char>) -> Seq<char>
    decreases text.len(),
{
    if text.len() == 0 {
        Seq::empty()
    } else {
        let rest = supported(font, text.drop_last());
        if has_glyph(font, text.last()) {
            rest.push(text.last())
        } else {
            rest
        }
    }
}

/// Every character of the supported sequence has a glyph.
pub proof fn lemma_supported_has_glyph(font: FontDef, text: Seq<char>)
    ensures
        forall|i: int|
            0 <= i < supported(font, text).len() ==> has_glyph(font, #[trigger] supported(
                font,
                text,
            )[i]),
        supported(font, text).len() <= text.len(),
    decreases text.len(),
{
    if text.len() > 0 {
        lemma_supported_has_glyph(font, text.drop_last());
    }
}

/// The pen position, in subunits, at which glyph `k` of the supported
/// sequence is drawn: every glyph after the first accumulates the previous
/// glyph's advance width plus the kerning adjustment between the previous and
/// the current character — every consecutive pair, not a subset of pairs.
pub open spec fn xpos(font: FontDef, cs: Seq<char>, k: int) -> int
    decreases k,
{
    if k <= 0 {
        0
    } else {
        xpos(font, cs, k - 1) + glyph_of(font, cs[k - 1]).advance + kern_adjust(
            font,
            cs[k - 1],
            cs[k],
        )
    }
}

/// The total accumulated advance of the layout, in subunits: the last
/// glyph's position plus its advance width. For a glyph sequence
/// `g0 .. g(n-1)` this is `advance(g0) + kern(g0,g1) + advance(g1) + ...
/// + kern(g(n-2),g(n-1)) + advance(g(n-1))`.
pub open spec fn total_advance(font: FontDef, cs: Seq<char>) -> int {
    if cs.len() == 0 {
        0
    } else {
        xpos(font, cs, cs.len() - 1) + glyph_of(font, cs.last()).advance
    }
}

/// The pen position after glyph `k` has been laid out: the next glyph's
/// position, or the total advance once every glyph is placed.
pub open spec fn cursor(font: FontDef, cs: Seq<char>, k: int) -> int {
    if k < cs.len() {
        xpos(font, cs, k)
    } else {
        total_advance(font, cs)
    }
}

/// Pen positions stay within `k` times the largest single step.
pub proof fn lemma_xpos_bound(font: FontDef, cs: Seq<char>, k: int)
    requires
        font.wf(),
        forall|i: int| 0 <= i < cs.len() ==> has_glyph(font, #[trigger] cs[i]),
        0 <= k < cs.len(),
    ensures
        -(k * (2 * MAX_METRIC)) <= xpos(font, cs, k) <= k * (2 * MAX_METRIC),
    decreases k,
{
    if k == 0 {
        assert(0 * (2 * MAX_METRIC) == 0) by (nonlinear_arith);
    } else {
        lemma_xpos_bound(font, cs, k - 1);
        lemma_glyph_index_props(font.glyphs@, cs[k - 1]);
        lemma_kern_in_bound(font.kerning@, cs[k - 1], cs[k], MAX_METRIC as int);
        assert((k - 1) * (2 * MAX_METRIC) + (2 * MAX_METRIC) == k * (2 * MAX_METRIC))
            by (nonlinear_arith);
    }
}

/// The raster width in pixels: the total advance rounded up to the next
/// whole pixel, and at least one.
pub open spec fn raster_width(font: FontDef, cs: Seq<char>) -> int {
    let t = total_advance(font, cs);
    if t < 1 {
        1
    } else {
        ceil_div(t, SUBPIXELS as int)
    }
}

/// The raster height in pixels: `ceil(ascent - descent)`; `descent` is
/// non-positive, so this is `ascent + |descent|` rounded up.
pub open spec fn raster_height(font: FontDef) -> int {
    ceil_div(font.ascent - font.descent, SUBPIXELS as int)
}

/// The machine limits a layout must meet before it can be materialized: the
/// raster's width fits a `u32` and its cell count fits a `usize`.
pub open spec fn dims_fit(font: FontDef, text: Seq<char>) -> bool {
    let w = raster_width(font, supported(font, text));
    let h = raster_height(font);
    w <= u32::MAX && w * h <= usize::MAX
}

/// The coverage byte of a sample: the coverage fraction `c / 65535` scaled to
/// the 8-bit range and rounded up.
pub open spec fn cov_byte(c: u16) -> u8 {
    ((c * 255 + 65534) / 65535) as u8
}

fn cov_byte_exec(c: u16) -> (v: u8)
    ensures
        v == cov_byte(c),
{
    let w: u32 = (c as u32 * 255 + 65534) / 65535;
    proof {
        assert(c as int * 255 + 65534 <= 16776959);
        assert((c as int * 255 + 65534) / 65535 <= 255) by (nonlinear_arith)
            requires
                c as int * 255 + 65534 <= 16776959,
        ;
    }
    w as u8
}

/// One sample written into the flat grid, clipped silently when it falls
/// outside the raster.
pub open spec fn write_px(g: Seq<u8>, w: int, h: int, x: int, y: int, v: u8) -> Seq<u8> {
    if 0 <= x < w && 0 <= y < h {
        g.update(y * w + x, v)
    } else {
        g
    }
}

/// The first `n` samples of a glyph painted at origin `(x0, y0)`, in order;
/// a later sample overwrites an earlier one on the same cell.
pub open spec fn paint_samples(
    g: Seq<u8>,
    w: int,
    h: int,
    ss: Seq<GlyphSample>,
    x0: int,
    y0: int,
    n: int,
) -> Seq<u8>
    decreases n,
{
    if n <= 0 {
        g
    } else {
        let prev = paint_samples(g, w, h, ss, x0, y0, n - 1);
        let s = ss[n - 1];
        write_px(prev, w, h, x0 + s.dx, y0 + s.dy, cov_byte(s.coverage))
    }
}

/// The first `k` glyphs of the supported sequence painted onto the grid:
/// glyph `k` draws at pixel `(xpos(k) / SUBPIXELS, ascent / SUBPIXELS + top)`.
pub open spec fn paint_glyphs(
    g: Seq<u8>,
    w: int,
    h: int,
    font: FontDef,
    cs: Seq<char>,
    k: int,
) -> Seq<u8>
    decreases k,
{
    if k <= 0 {
        g
    } else {
        let prev = paint_glyphs(g, w, h, font, cs, k - 1);
        let gd = glyph_of(font, cs[k - 1]);
        paint_samples(
            prev,
            w,
            h,
            gd.samples@,
            xpos(font, cs, k - 1) / (SUBPIXELS as int),
            font.ascent as int / (SUBPIXELS as int) + gd.top,
            gd.samples@.len() as int,
        )
    }
}

/// The rendered raster contents: every supported glyph painted, in order,
/// over a zero (background) grid.
pub open spec fn rendered(font: FontDef, cs: Seq<char>, w: int, h: int) -> Seq<u8> {
    paint_glyphs(Seq::new((w * h) as nat, |i: int| 0u8), w, h, font, cs, cs.len() as int)
}

/// Painting never changes the grid's length.
proof fn lemma_paint_samples_len(
    g: Seq<u8>,
    w: int,
    h: int,
    ss: Seq<GlyphSample>,
    x0: int,
    y0: int,
    n: int,
)
    requires
        g.len() == w * h,
        w >= 0,
        h >= 0,
    ensures
        paint_samples(g, w, h, ss, x0, y0, n).len() == w * h,
    decreases n,
{
    if n > 0 {
        lemma_paint_samples_len(g, w, h, ss, x0, y0, n - 1);
        let s = ss[n - 1];
        let x = x0 + s.dx;
        let y = y0 + s.dy;
        if 0 <= x < w && 0 <= y < h {
            crate::raster::lemma_row_major_in_range(w, h, x, y);
        }
    }
}

proof fn lemma_paint_glyphs_len(g: Seq<u8>, w: int, h: int, font: FontDef, cs: Seq<char>, k: int)
    requires
        g.len() == w * h,
        w >= 0,
        h >= 0,
    ensures
        paint_glyphs(g, w, h, font, cs, k).len() == w * h,
    decreases k,
{
    if k > 0 {
        lemma_paint_glyphs_len(g, w, h, font, cs, k - 1);
        let prev = paint_glyphs(g, w, h, font, cs, k - 1);
        let gd = glyph_of(font, cs[k - 1]);
        lemma_paint_samples_len(
            prev,
            w,
            h,
            gd.samples@,
            xpos(font, cs, k - 1) / (SUBPIXELS as int),
            font.ascent as int / (SUBPIXELS as int) + gd.top,
            gd.samples@.len() as int,
        );
    }
}

/// Floor division of a subunit position by `SUBPIXELS`.
fn floor_div_sub(a: i64) -> (q: i64)
    requires
        -0x40_0000_0000_0000 <= a <= 0x40_0000_0000_0000,
    ensures
        q as int == a as int / (SUBPIXELS as int),
        -0x40_0000_0000_0000 <= q <= 0x40_0000_0000_0000,
{
    if a >= 0 {
        let d: u64 = (a as u64) / 64;
        proof {
            crate::quantize::lemma_div_le((a as u64) as int, 64);
            assert(a as int / 64 == (a as u64) as int / 64);
        }
        d as i64
    } else {
        let m: u64 = (-a) as u64;
        let q: u64 = (m + 63) / 64;
        proof {
            crate::quantize::lemma_div_le(m as int + 63, 64);
            assert(a as int / 64 == -(((m as int) + 63) / 64)) by (nonlinear_arith)
                requires
                    m == -(a as int),
                    m >= 1,
            ;
        }
        -(q as i64)
    }
}

/// Rasterize `text` through `font`: lay the supported glyphs out
/// left-to-right with every consecutive pair kerned, and paint their coverage
/// samples into a raster sized to the rendered bounding box. Text that yields
/// no positioned glyph — empty, or every character unsupported — is a hard
/// failure, never a degenerate raster.
pub fn rasterize(text: &str, font: &FontDef) -> (res: Result<CoverageRaster, ArtError>)
    requires
        font.wf(),
        text@.len() <= 0x1_0000_0000,
        dims_fit(*font, text@),
    ensures
        match res {
            Ok(r) => {
                &&& supported(*font, text@).len() > 0
                &&& r.wf()
                &&& r.width >= 1
                &&& r.height >= 1
                &&& r.width as int == raster_width(*font, supported(*font, text@))
                &&& r.height as int == raster_height(*font)
                &&& r.data@ == rendered(
                    *font,
                    supported(*font, text@),
                    r.width as int,
                    r.height as int,
                )
            },
            Err(e) => e == ArtError::NoGlyphs && supported(*font, text@).len() == 0,
        },
{
    let n: usize = text.unicode_len();
    let mut cs: Vec<char> = Vec::new();
    let mut gidx: Vec<usize> = Vec::new();
    let mut i: usize = 0;
    while i < n
        invariant
            n == text@.len(),
            i <= n,
            cs@ == supported(*font, text@.take(i as int)),
            gidx@.len() == cs@.len(),
            forall|t: int|
                0 <= t < cs@.len() ==> (#[trigger] gidx@[t]) as int == glyph_index_in(
                    font.glyphs@,
                    cs@[t],
                ) && gidx@[t] < font.glyphs@.len(),
        decreases n - i,
    {
        let c: char = text.get_char(i);
        proof {
            assert(text@.take(i as int + 1).drop_last() =~= text@.take(i as int));
            assert(text@.take(i as int + 1).last() == text@[i as int]);
        }
        match font.find_glyph(c) {
            Some(k) => {
                cs.push(c);
                gidx.push(k);
            },
            None => {},
        }
        i = i + 1;
    }
    proof {
        assert(text@.take(n as int) =~= text@);
    }
    let m: usize = cs.len();
    if m == 0 {
        return Err(ArtError::NoGlyphs);
    }
    let ghost gcs: Seq<char> = supported(*font, text@);
    proof {
        lemma_supported_has_glyph(*font, text@);
    }
    // First pass: pen positions of every glyph, in subunits.
    let mut xs: Vec<i64> = Vec::new();
    let mut x_q: i64 = 0;
    let mut k: usize = 0;
    while k < m
        invariant
            font.wf(),
            cs@ == gcs,
            gcs == supported(*font, text@),
            m == gcs.len(),
            1 <= m <= 0x1_0000_0000,
            gidx@.len() == m,
            forall|t: int|
                0 <= t < m ==> (#[trigger] gidx@[t]) as int == glyph_index_in(
                    font.glyphs@,
                    gcs[t],
                ) && gidx@[t] < font.glyphs@.len(),
            forall|t: int| 0 <= t < gcs.len() ==> has_glyph(*font, #[trigger] gcs[t]),
            k <= m,
            xs@.len() == k,
            forall|t: int| 0 <= t < k ==> (#[trigger] xs@[t]) as int == xpos(*font, gcs, t),
            x_q as int == cursor(*font, gcs, k as int),
            -((k as int) * (2 * MAX_METRIC)) <= x_q as int <= (k as int) * (2 * MAX_METRIC),
        decreases m - k,
    {
        xs.push(x_q);
        let gi: usize = gidx[k];
        let adv: i64 = font.glyphs[gi].advance;
        proof {
            assert(font.glyphs@[gi as int].wf());
            assert(font.glyphs@[gi as int] == glyph_of(*font, gcs[k as int]));
        }
        let kern: i64 = if k + 1 < m {
            font.kern(cs[k], cs[k + 1])
        } else {
            0
        };
        proof {
            lemma_kern_in_bound(font.kerning@, gcs[k as int], gcs[k as int + 1], MAX_METRIC as int);
            assert((k as int) * (2 * MAX_METRIC) + (2 * MAX_METRIC) == (k as int + 1) * (2
                * MAX_METRIC)) by (nonlinear_arith);
            assert((k as int + 1) * (2 * MAX_METRIC) <= 0x1_0000_0001 * (2 * MAX_METRIC))
                by (nonlinear_arith)
                requires
                    k as int + 1 <= 0x1_0000_0001,
            ;
        }
        x_q = x_q + adv + kern;
        k = k + 1;
    }
    let total: i64 = x_q;
    let wpx: u32;
    if total < 1 {
        wpx = 1;
    } else {
        let t: u64 = total as u64;
        wpx = ((t + 63) / 64) as u32;
        proof {
            assert(ceil_div(total as int, 64) == ((t as int) + 63) / 64) by (nonlinear_arith)
                requires
                    t == total as int,
                    t >= 1,
            ;
        }
    }
    let hgt: u64 = (font.ascent - font.descent) as u64;
    let hpx: u32 = ((hgt + 63) / 64) as u32;
    proof {
        assert(ceil_div(hgt as int, 64) == ((hgt as int) + 63) / 64) by (nonlinear_arith)
            requires
                hgt >= 1,
        ;
        assert(wpx as int == raster_width(*font, gcs));
        assert(hpx as int == raster_height(*font));
    }
    let mut raster = CoverageRaster::new(wpx, hpx);
    let ascent_px: i64 = ((font.ascent as u64) / 64) as i64;
    proof {
        assert(ascent_px as int == font.ascent as int / (SUBPIXELS as int));
    }
    // Second pass: paint every glyph's samples at its pen position.
    let ghost zero_grid: Seq<u8> = Seq::new((wpx as int * hpx as int) as nat, |t: int| 0u8);
    proof {
        assert(raster.data@ =~= zero_grid);
    }
    let mut k2: usize = 0;
    while k2 < m
        invariant
            font.wf(),
            cs@ == gcs,
            gcs == supported(*font, text@),
            m == gcs.len(),
            1 <= m <= 0x1_0000_0000,
            gidx@.len() == m,
            xs@.len() == m,
            forall|t: int|
                0 <= t < m ==> (#[trigger] gidx@[t]) as int == glyph_index_in(
                    font.glyphs@,
                    gcs[t],
                ) && gidx@[t] < font.glyphs@.len(),
            forall|t: int| 0 <= t < gcs.len() ==> has_glyph(*font, #[trigger] gcs[t]),
            forall|t: int| 0 <= t < m ==> (#[trigger] xs@[t]) as int == xpos(*font, gcs, t),
            k2 <= m,
            raster.wf(),
            raster.width == wpx,
            raster.height == hpx,
            wpx >= 1,
            hpx >= 1,
            zero_grid == Seq::new((wpx as int * hpx as int) as nat, |t: int| 0u8),
            raster.data@ == paint_glyphs(zero_grid, wpx as int, hpx as int, *font, gcs, k2 as int),
            ascent_px as int == font.ascent as int / (SUBPIXELS as int),
            0 <= ascent_px <= MAX_METRIC,
        decreases m - k2,
    {
        let gi: usize = gidx[k2];
        proof {
            lemma_xpos_bound(*font, gcs, k2 as int);
            assert((k2 as int) * (2 * MAX_METRIC) <= 0x1_0000_0000 * (2 * MAX_METRIC))
                by (nonlinear_arith)
                requires
                    0 <= k2 as int <= 0x1_0000_0000,
            ;
            assert(font.glyphs@[gi as int] == glyph_of(*font, gcs[k2 as int]));
        }
        let x0: i64 = floor_div_sub(xs[k2]);
        let y0: i64 = ascent_px + (font.glyphs[gi].top as i64);
        let ghost base: Seq<u8> = raster.data@;
        let sn: usize = font.glyphs[gi].samples.len();
        let mut s: usize = 0;
        while s < sn
            invariant
                font.wf(),
                raster.wf(),
                raster.width == wpx,
                raster.height == hpx,
                wpx >= 1,
                hpx >= 1,
                gi < font.glyphs@.len(),
                sn == font.glyphs@[gi as int].samples@.len(),
                s <= sn,
                -0x40_0000_0000_0000 <= x0 <= 0x40_0000_0000_0000,
                -0x1_0000_0000 <= y0 <= 0x1_0000_0000,
                raster.data@ == paint_samples(
                    base,
                    wpx as int,
                    hpx as int,
                    font.glyphs@[gi as int].samples@,
                    x0 as int,
                    y0 as int,
                    s as int,
                ),
            decreases sn - s,
        {
            let smp: GlyphSample = font.glyphs[gi].samples[s];
            let gx: i64 = x0 + (smp.dx as i64);
            let gy: i64 = y0 + (smp.dy as i64);
            if gx >= 0 && gy >= 0 && gx < wpx as i64 && gy < hpx as i64 {
                let v: u8 = cov_byte_exec(smp.coverage);
                raster.set(gx as u32, gy as u32, v);
            }
            s = s + 1;
        }
        proof {
            assert(raster.data@ == paint_glyphs(
                zero_grid,
                wpx as int,
                hpx as int,
                *font,
                gcs,
                k2 as int + 1,
            ));
        }
        k2 = k2 + 1;
    }
    Ok(raster)
}

/// Kerning enters the total advance at every consecutive glyph pair: a
/// three-glyph layout accumulates `advance(g0) + kern(g0,g1) + advance(g1)
/// + kern(g1,g2) + advance(g2)` — both pairs, not a subset of them.
pub proof fn lemma_total_advance_three(font: FontDef, c0: char, c1: char, c2: char)
    ensures
        total_advance(font, seq![c0, c1, c2]) == glyph_of(font, c0).advance + kern_adjust(
            font,
            c0,
            c1,
        ) + glyph_of(font, c1).advance + kern_adjust(font, c1, c2) + glyph_of(font, c2).advance,
{
    let cs = seq![c0, c1, c2];
    assert(xpos(font, cs, 0) == 0);
    assert(xpos(font, cs, 1) == glyph_of(font, c0).advance + kern_adjust(font, c0, c1));
    assert(xpos(font, cs, 2) == xpos(font, cs, 1) + glyph_of(font, c1).advance + kern_adjust(
        font,
        c1,
        c2,
    ));
    assert(cs.last() == c2);
}

} // verus!
