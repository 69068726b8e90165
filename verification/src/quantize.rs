use vstd::prelude::*;

use crate::raster::CoverageRaster;
use crate::tables::{block_char, block_char_spec, braille_char, braille_char_spec};

verus! {

/// Ceiling division for non-negative dividends and positive divisors.
pub open spec fn ceil_div(a: int, b: int) -> int
    recommends
        a >= 0,
        b >= 1,
{
    if a % b == 0 {
        a / b
    } else {
        a / b + 1
    }
}

/// `ceil_div` stays between 0 and the dividend and is positive exactly when
/// the dividend is.
pub proof fn lemma_ceil_div_bounds(a: int, b: int)
    by (nonlinear_arith)
    requires
        a >= 0,
        b >= 1,
    ensures
        0 <= ceil_div(a, b) <= a,
        a >= 1 ==> ceil_div(a, b) >= 1,
        b * ceil_div(a, b) >= a,
{
}

/// Multiplication of non-negative values is monotone in both arguments.
pub proof fn lemma_mul_le(a: int, b: int, am: int, bm: int)
    by (nonlinear_arith)
    requires
        0 <= a <= am,
        0 <= b <= bm,
    ensures
        a * b <= am * bm,
{
}

/// A product of positive factors is positive.
proof fn lemma_mul_ge_one(a: int, b: int)
    by (nonlinear_arith)
    requires
        a >= 1,
        b >= 1,
    ensures
        a * b >= 1,
{
}

/// Unsigned division never grows its dividend.
pub proof fn lemma_div_le(a: int, b: int)
    by (nonlinear_arith)
    requires
        a >= 0,
        b >= 1,
    ensures
        0 <= a / b <= a,
{
}

/// A quantization profile fixes the sub-cell sampling shape, the binarization
/// threshold and the lookup table. The block profile samples 2×2 sub-cells per
/// output cell against the 16-entry block table; the braille profile samples
/// 4×2 sub-cells against the 256-entry braille table, with a lower threshold
/// because each braille cell stands for less physical area.
#[derive(Clone, Copy, Debug)]
pub enum Profile {
    Block,
    Braille,
}

impl Profile {
    /// Sub-cell rows per output cell (every profile has 2 sub-cell columns).
    pub open spec fn cell_rows_spec(self) -> int {
        match self {
            Profile::Block => 2,
            Profile::Braille => 4,
        }
    }

    pub fn cell_rows(self) -> (f: u64)
        ensures
            f as int == self.cell_rows_spec(),
    {
        match self {
            Profile::Block => 2,
            Profile::Braille => 4,
        }
    }

    /// Binarization threshold: a sub-cell is "on" when its sampled intensity
    /// strictly exceeds this.
    pub open spec fn threshold_spec(self) -> u8 {
        match self {
            Profile::Block => 200,
            Profile::Braille => 170,
        }
    }

    pub fn threshold(self) -> (t: u8)
        ensures
            t == self.threshold_spec(),
    {
        match self {
            Profile::Block => 200,
            Profile::Braille => 170,
        }
    }

    /// The profile's lookup table as a total function of the bitmask.
    pub open spec fn table_spec(self, mask: u8) -> char {
        match self {
            Profile::Block => block_char_spec(mask),
            Profile::Braille => braille_char_spec(mask),
        }
    }

    pub fn table(self, mask: u8) -> (c: char)
        requires
            self is Block ==> mask < 16,
        ensures
            c == self.table_spec(mask),
    {
        match self {
            Profile::Block => block_char(mask),
            Profile::Braille => braille_char(mask),
        }
    }
}

/// How the output grid size is derived from the raster size. Both calling
/// conventions keep the raster's aspect ratio.
#[derive(Clone, Copy, Debug)]
pub enum SizeSpec {
    /// The column count is given; the row count is derived from the aspect
    /// ratio, optionally clamped, in which case the column count is recomputed
    /// from the clamped row count.
    WidthDriven { target_cols: u32, max_rows: Option<u32> },
    /// A minimum row count and a column cap are given; the column count is
    /// derived from the aspect ratio and the row count follows from it.
    HeightDriven { max_cols: u32, min_rows: u32 },
}

impl SizeSpec {
    pub open spec fn wf(self) -> bool {
        match self {
            SizeSpec::WidthDriven { target_cols, max_rows } => {
                &&& target_cols >= 1
                &&& match max_rows {
                    Some(mr) => mr >= 1,
                    None => true,
                }
            },
            SizeSpec::HeightDriven { max_cols, min_rows } => max_cols >= 1 && min_rows >= 1,
        }
    }
}

/// The derived output column count, for a `w × h` raster and sub-cell row
/// factor `f`.
pub open spec fn derived_cols(w: int, h: int, size: SizeSpec, f: int) -> int
    recommends
        w >= 1,
        h >= 1,
        f >= 1,
{
    match size {
        SizeSpec::WidthDriven { target_cols, max_rows } => {
            let rows0 = ceil_div(target_cols * h, w * f);
            match max_rows {
                Some(mr) => if rows0 > mr {
                    let c = ceil_div(mr * f * w, h);
                    if c < target_cols {
                        c
                    } else {
                        target_cols as int
                    }
                } else {
                    target_cols as int
                },
                None => target_cols as int,
            }
        },
        SizeSpec::HeightDriven { max_cols, min_rows } => {
            let c = ceil_div(w * min_rows, h);
            if c < max_cols {
                c
            } else {
                max_cols as int
            }
        },
    }
}

/// The derived output row count.
pub open spec fn derived_rows(w: int, h: int, size: SizeSpec, f: int) -> int
    recommends
        w >= 1,
        h >= 1,
        f >= 1,
{
    match size {
        SizeSpec::WidthDriven { target_cols, max_rows } => {
            let rows0 = ceil_div(target_cols * h, w * f);
            match max_rows {
                Some(mr) => if rows0 > mr {
                    mr as int
                } else {
                    rows0
                },
                None => rows0,
            }
        },
        SizeSpec::HeightDriven { .. } => derived_sample_h(w, h, size, f) / f,
    }
}

/// The vertical sampling span: the total count of sub-cell rows that the
/// scale factor maps onto the raster height.
pub open spec fn derived_sample_h(w: int, h: int, size: SizeSpec, f: int) -> int
    recommends
        w >= 1,
        h >= 1,
        f >= 1,
{
    ceil_div(derived_cols(w, h, size, f) * h, w)
}

/// Ceiling division on machine words.
fn ceil_div_u128(a: u128, b: u128) -> (q: u128)
    requires
        b >= 1,
        a < u128::MAX,
    ensures
        q as int == ceil_div(a as int, b as int),
{
    proof {
        lemma_div_le(a as int, b as int);
    }
    let d: u128 = a / b;
    if a % b == 0 {
        d
    } else {
        d + 1
    }
}

/// Derive (columns, rows, vertical sampling span) for a `w × h` raster.
pub fn derive_dims(w: u32, h: u32, size: SizeSpec, f: u64) -> (d: (u32, u64, u64))
    requires
        w >= 1,
        h >= 1,
        f == 2 || f == 4,
        size.wf(),
    ensures
        d.0 as int == derived_cols(w as int, h as int, size, f as int),
        d.1 as int == derived_rows(w as int, h as int, size, f as int),
        d.2 as int == derived_sample_h(w as int, h as int, size, f as int),
        d.0 >= 1,
        d.2 >= 1,
{
    let cols: u32;
    let rows: u64;
    match size {
        SizeSpec::WidthDriven { target_cols, max_rows } => {
            proof {
                lemma_mul_le(target_cols as int, h as int, 0xffff_ffff, 0xffff_ffff);
                lemma_mul_le(w as int, f as int, 0xffff_ffff, 4);
                lemma_mul_ge_one(target_cols as int, h as int);
                lemma_mul_ge_one(w as int, f as int);
                lemma_ceil_div_bounds(target_cols as int * h as int, w as int * f as int);
            }
            let rows0: u128 = ceil_div_u128(
                target_cols as u128 * h as u128,
                w as u128 * f as u128,
            );
            match max_rows {
                Some(mr) => {
                    if rows0 > mr as u128 {
                        proof {
                            lemma_mul_le(mr as int, f as int, 0xffff_ffff, 4);
                            lemma_mul_le(mr as int * f as int, w as int, 0x4_0000_0000, 0xffff_ffff);
                            lemma_mul_ge_one(mr as int, f as int);
                            lemma_mul_ge_one(mr as int * f as int, w as int);
                            lemma_ceil_div_bounds(mr as int * f as int * w as int, h as int);
                        }
                        let c: u128 = ceil_div_u128(
                            mr as u128 * f as u128 * w as u128,
                            h as u128,
                        );
                        cols = if c < target_cols as u128 {
                            c as u32
                        } else {
                            target_cols
                        };
                        rows = mr as u64;
                    } else {
                        cols = target_cols;
                        rows = rows0 as u64;
                    }
                },
                None => {
                    cols = target_cols;
                    rows = rows0 as u64;
                },
            }
        },
        SizeSpec::HeightDriven { max_cols, min_rows } => {
            proof {
                lemma_mul_le(w as int, min_rows as int, 0xffff_ffff, 0xffff_ffff);
                lemma_mul_ge_one(w as int, min_rows as int);
                lemma_ceil_div_bounds(w as int * min_rows as int, h as int);
            }
            let c: u128 = ceil_div_u128(w as u128 * min_rows as u128, h as u128);
            cols = if c < max_cols as u128 {
                c as u32
            } else {
                max_cols
            };
            proof {
                lemma_mul_le(cols as int, h as int, 0xffff_ffff, 0xffff_ffff);
                lemma_mul_ge_one(cols as int, h as int);
                lemma_ceil_div_bounds(cols as int * h as int, w as int);
            }
            let span: u128 = ceil_div_u128(cols as u128 * h as u128, w as u128);
            proof {
                lemma_div_le(span as int, f as int);
            }
            rows = (span / f as u128) as u64;
        },
    }
    proof {
        lemma_mul_le(cols as int, h as int, 0xffff_ffff, 0xffff_ffff);
        lemma_mul_ge_one(cols as int, h as int);
        lemma_ceil_div_bounds(cols as int * h as int, w as int);
    }
    let sample_h: u64 = ceil_div_u128(cols as u128 * h as u128, w as u128) as u64;
    (cols, rows, sample_h)
}

/// Whether the sub-cell at row `i`, column `j` of output cell `(x, y)` samples
/// an "on" raster cell: the source coordinate is the sub-cell coordinate
/// scaled by raster-size over output-size and floored; a coordinate outside
/// the raster contributes "off", never an error.
pub open spec fn subcell_on(
    rast: Seq<Seq<u8>>,
    w: int,
    h: int,
    cols: int,
    sample_h: int,
    f: int,
    x: int,
    y: int,
    i: int,
    j: int,
    thr: u8,
) -> bool
    recommends
        cols >= 1,
        sample_h >= 1,
{
    let px = (x + j) * w / cols;
    let py = (y * f + i) * h / sample_h;
    0 <= py < h && 0 <= px < w && py < rast.len() && px < rast[py].len() && rast[py][px] > thr
}

/// The cell bitmask restricted to the first `t` sub-cells in row-major order:
/// sub-cell row `i`, column `j` sets bit `i*2 + j`.
pub open spec fn cell_mask_upto(
    rast: Seq<Seq<u8>>,
    w: int,
    h: int,
    cols: int,
    sample_h: int,
    f: int,
    x: int,
    y: int,
    thr: u8,
    t: nat,
) -> u8
    decreases t,
{
    if t == 0 {
        0u8
    } else {
        let t1 = (t - 1) as nat;
        let prev = cell_mask_upto(rast, w, h, cols, sample_h, f, x, y, thr, t1);
        if subcell_on(rast, w, h, cols, sample_h, f, x, y, t1 as int / 2, t1 as int % 2, thr) {
            prev | (1u8 << (t1 as u8))
        } else {
            prev
        }
    }
}

/// The full bitmask of output cell `(x, y)`: one bit per sub-cell of the
/// `f × 2` sampling shape.
pub open spec fn cell_mask(
    rast: Seq<Seq<u8>>,
    w: int,
    h: int,
    cols: int,
    sample_h: int,
    f: int,
    x: int,
    y: int,
    thr: u8,
) -> u8 {
    cell_mask_upto(rast, w, h, cols, sample_h, f, x, y, thr, (2 * f) as nat)
}

/// Bits at positions `t` and above are clear in a mask built from the first
/// `t` sub-cells.
pub proof fn lemma_cell_mask_upto_bound(
    rast: Seq<Seq<u8>>,
    w: int,
    h: int,
    cols: int,
    sample_h: int,
    f: int,
    x: int,
    y: int,
    thr: u8,
    t: nat,
)
    requires
        t <= 7,
    ensures
        cell_mask_upto(rast, w, h, cols, sample_h, f, x, y, thr, t) < (1u8 << (t as u8)),
    decreases t,
{
    if t == 0 {
        assert(0u8 < (1u8 << 0u8)) by (bit_vector);
    } else {
        let t1 = (t - 1) as nat;
        lemma_cell_mask_upto_bound(rast, w, h, cols, sample_h, f, x, y, thr, t1);
        let prev = cell_mask_upto(rast, w, h, cols, sample_h, f, x, y, thr, t1);
        let tb = t as u8;
        let t1b = t1 as u8;
        assert(prev < (1u8 << t1b) && t1b <= 6 && tb == t1b + 1 ==> (prev | (1u8 << t1b)) < (1u8
            << tb) && prev < (1u8 << tb)) by (bit_vector);
    }
}

/// Compute the bitmask of output cell `(x, y)`.
pub fn cell_mask_exec(
    r: &CoverageRaster,
    cols: u64,
    sample_h: u64,
    f: u64,
    x: u64,
    y: u64,
    thr: u8,
) -> (m: u8)
    requires
        r.wf(),
        cols >= 1,
        sample_h >= 1,
        f == 2 || f == 4,
    ensures
        m == cell_mask(
            r@,
            r.width as int,
            r.height as int,
            cols as int,
            sample_h as int,
            f as int,
            x as int,
            y as int,
            thr,
        ),
{
    let sub_count: u64 = 2 * f;
    let mut mask: u8 = 0;
    let mut t: u64 = 0;
    while t < sub_count
        invariant
            r.wf(),
            cols >= 1,
            sample_h >= 1,
            f == 2 || f == 4,
            sub_count == 2 * f,
            t <= sub_count,
            mask == cell_mask_upto(
                r@,
                r.width as int,
                r.height as int,
                cols as int,
                sample_h as int,
                f as int,
                x as int,
                y as int,
                thr,
                t as nat,
            ),
        decreases sub_count - t,
    {
        let i: u64 = t / 2;
        let j: u64 = t % 2;
        proof {
            lemma_mul_le(
                x as int + j as int,
                r.width as int,
                0x1_0000_0000_0000_0000,
                0xffff_ffff,
            );
            lemma_mul_le(y as int, f as int, 0xffff_ffff_ffff_ffff, 4);
            lemma_mul_le(
                y as int * f as int + i as int,
                r.height as int,
                0x4_0000_0000_0000_0000,
                0xffff_ffff,
            );
        }
        let px: u128 = (x as u128 + j as u128) * (r.width as u128) / (cols as u128);
        let py: u128 = ((y as u128) * (f as u128) + (i as u128)) * (r.height as u128) / (
        sample_h as u128);
        if py < r.height as u128 && px < r.width as u128 {
            let v: u8 = r.get(px as u32, py as u32);
            if v > thr {
                mask = mask | (1u8 << (t as u8));
            }
        }
        t = t + 1;
    }
    mask
}

/// A rectangular grid of display characters: `rows × cols`, one visible glyph
/// per cell, `' '` meaning empty.
pub struct CharGrid {
    pub cells: Vec<Vec<char>>,
    pub cols: u32,
}

impl View for CharGrid {
    type V = Seq<Seq<char>>;

    open spec fn view(&self) -> Seq<Seq<char>> {
        Seq::new(self.cells@.len(), |i: int| self.cells@[i]@)
    }
}

impl CharGrid {
    /// Every row has exactly `cols` characters.
    pub open spec fn wf(self) -> bool {
        forall|i: int| 0 <= i < self@.len() ==> (#[trigger] self@[i]).len() == self.cols
    }
}

/// The quantized grid as a function of the raster: cell `(x, y)` holds the
/// table character of its sampled bitmask.
pub open spec fn grid_spec(
    rast: Seq<Seq<u8>>,
    w: int,
    h: int,
    cols: int,
    sample_h: int,
    rows: int,
    p: Profile,
) -> Seq<Seq<char>>
    recommends
        cols >= 1,
        sample_h >= 1,
        rows >= 0,
{
    Seq::new(
        rows as nat,
        |y: int|
            Seq::new(
                cols as nat,
                |x: int|
                    p.table_spec(
                        cell_mask(
                            rast,
                            w,
                            h,
                            cols,
                            sample_h,
                            p.cell_rows_spec(),
                            x,
                            y,
                            p.threshold_spec(),
                        ),
                    ),
            ),
    )
}

/// Quantize a coverage raster into a character grid under the given size
/// convention and profile.
pub fn quantize(r: &CoverageRaster, size: SizeSpec, p: Profile) -> (g: CharGrid)
    requires
        r.wf(),
        size.wf(),
    ensures
        g.wf(),
        g.cols >= 1,
        g.cols as int == derived_cols(r.width as int, r.height as int, size, p.cell_rows_spec()),
        g@.len() == derived_rows(r.width as int, r.height as int, size, p.cell_rows_spec()),
        g@ == grid_spec(
            r@,
            r.width as int,
            r.height as int,
            derived_cols(r.width as int, r.height as int, size, p.cell_rows_spec()),
            derived_sample_h(r.width as int, r.height as int, size, p.cell_rows_spec()),
            derived_rows(r.width as int, r.height as int, size, p.cell_rows_spec()),
            p,
        ),
{
    let f: u64 = p.cell_rows();
    let (cols, rows, sample_h) = derive_dims(r.width, r.height, size, f);
    let ghost spec_cols = cols as int;
    let ghost spec_sample_h = sample_h as int;
    let mut cells: Vec<Vec<char>> = Vec::new();
    let mut y: u64 = 0;
    while y < rows
        invariant
            r.wf(),
            f == p.cell_rows_spec(),
            cols >= 1,
            sample_h >= 1,
            spec_cols == cols as int,
            spec_sample_h == sample_h as int,
            y <= rows,
            cells@.len() == y,
            forall|yy: int|
                0 <= yy < y ==> (#[trigger] cells@[yy])@.len() == cols,
            forall|yy: int, xx: int|
                0 <= yy < y && 0 <= xx < cols ==> (#[trigger] cells@[yy]@[xx]) == p.table_spec(
                    cell_mask(
                        r@,
                        r.width as int,
                        r.height as int,
                        spec_cols,
                        spec_sample_h,
                        p.cell_rows_spec(),
                        xx,
                        yy,
                        p.threshold_spec(),
                    ),
                ),
        decreases rows - y,
    {
        let mut row: Vec<char> = Vec::new();
        let mut x: u64 = 0;
        while x < cols as u64
            invariant
                r.wf(),
                f == p.cell_rows_spec(),
                cols >= 1,
                sample_h >= 1,
                spec_cols == cols as int,
                spec_sample_h == sample_h as int,
                x <= cols as u64,
                row@.len() == x,
                forall|xx: int|
                    0 <= xx < x ==> (#[trigger] row@[xx]) == p.table_spec(
                        cell_mask(
                            r@,
                            r.width as int,
                            r.height as int,
                            spec_cols,
                            spec_sample_h,
                            p.cell_rows_spec(),
                            xx,
                            y as int,
                            p.threshold_spec(),
                        ),
                    ),
            decreases cols as u64 - x,
        {
            let m: u8 = cell_mask_exec(r, cols as u64, sample_h, f, x, y, p.threshold());
            proof {
                if p is Block {
                    lemma_cell_mask_upto_bound(
                        r@,
                        r.width as int,
                        r.height as int,
                        spec_cols,
                        spec_sample_h,
                        p.cell_rows_spec(),
                        x as int,
                        y as int,
                        p.threshold_spec(),
                        4,
                    );
                    assert((1u8 << 4u8) == 16) by (bit_vector);
                }
            }
            let c: char = p.table(m);
            row.push(c);
            x = x + 1;
        }
        cells.push(row);
        y = y + 1;
    }
    let g = CharGrid { cells, cols };
    proof {
        assert(g@ =~~= grid_spec(
            r@,
            r.width as int,
            r.height as int,
            derived_cols(r.width as int, r.height as int, size, p.cell_rows_spec()),
            derived_sample_h(r.width as int, r.height as int, size, p.cell_rows_spec()),
            derived_rows(r.width as int, r.height as int, size, p.cell_rows_spec()),
            p,
        ));
    }
    g
}

/// The count of set bits among the low `k` bits of a mask.
pub open spec fn popcount_upto(m: u8, k: nat) -> int
    decreases k,
{
    if k == 0 {
        0
    } else {
        (if m & 1 == 1 {
            1int
        } else {
            0int
        }) + popcount_upto(m >> 1, (k - 1) as nat)
    }
}

/// The count of set bits of a mask.
pub open spec fn popcount(m: u8) -> int {
    popcount_upto(m, 8)
}

proof fn lemma_popcount_upto_subset(m1: u8, m2: u8, k: nat)
    requires
        m2 & m1 == m2,
    ensures
        popcount_upto(m2, k) <= popcount_upto(m1, k),
    decreases k,
{
    if k > 0 {
        assert((m2 & m1 == m2) ==> ((m2 >> 1) & (m1 >> 1) == (m2 >> 1))) by (bit_vector);
        assert((m2 & m1 == m2 && m2 & 1 == 1) ==> m1 & 1 == 1) by (bit_vector);
        lemma_popcount_upto_subset(m1 >> 1, m2 >> 1, (k - 1) as nat);
    }
}

/// A bitwise subset has at most as many set bits.
pub proof fn lemma_popcount_subset(m1: u8, m2: u8)
    requires
        m2 & m1 == m2,
    ensures
        popcount(m2) <= popcount(m1),
{
    lemma_popcount_upto_subset(m1, m2, 8);
}

proof fn lemma_cell_mask_upto_threshold_monotone(
    rast: Seq<Seq<u8>>,
    w: int,
    h: int,
    cols: int,
    sample_h: int,
    f: int,
    x: int,
    y: int,
    t1: u8,
    t2: u8,
    t: nat,
)
    requires
        t1 <= t2,
        t <= 8,
    ensures
        cell_mask_upto(rast, w, h, cols, sample_h, f, x, y, t2, t) & cell_mask_upto(
            rast,
            w,
            h,
            cols,
            sample_h,
            f,
            x,
            y,
            t1,
            t,
        ) == cell_mask_upto(rast, w, h, cols, sample_h, f, x, y, t2, t),
    decreases t,
{
    if t == 0 {
        assert(0u8 & 0u8 == 0u8) by (bit_vector);
    } else {
        let tp = (t - 1) as nat;
        lemma_cell_mask_upto_threshold_monotone(rast, w, h, cols, sample_h, f, x, y, t1, t2, tp);
        let lo = cell_mask_upto(rast, w, h, cols, sample_h, f, x, y, t1, tp);
        let hi = cell_mask_upto(rast, w, h, cols, sample_h, f, x, y, t2, tp);
        let b = tp as u8;
        // a sub-cell on at the higher threshold is on at the lower one
        if subcell_on(rast, w, h, cols, sample_h, f, x, y, tp as int / 2, tp as int % 2, t2) {
            assert(subcell_on(rast, w, h, cols, sample_h, f, x, y, tp as int / 2, tp as int % 2, t1));
            assert((hi & lo == hi) ==> ((hi | (1u8 << b)) & (lo | (1u8 << b)) == (hi | (1u8
                << b)))) by (bit_vector);
        } else {
            assert((hi & lo == hi) ==> (hi & (lo | (1u8 << b)) == hi)) by (bit_vector);
        }
    }
}

/// Quantization is monotonic in the threshold: for a fixed raster and cell,
/// raising the threshold never turns a sub-cell bit on, so the mask at the
/// higher threshold is a bitwise subset of the mask at the lower one and never
/// has more set bits.
pub proof fn lemma_mask_threshold_monotone(
    rast: Seq<Seq<u8>>,
    w: int,
    h: int,
    cols: int,
    sample_h: int,
    f: int,
    x: int,
    y: int,
    t1: u8,
    t2: u8,
)
    requires
        t1 <= t2,
        f == 2 || f == 4,
    ensures
        cell_mask(rast, w, h, cols, sample_h, f, x, y, t2) & cell_mask(
            rast,
            w,
            h,
            cols,
            sample_h,
            f,
            x,
            y,
            t1,
        ) == cell_mask(rast, w, h, cols, sample_h, f, x, y, t2),
        popcount(cell_mask(rast, w, h, cols, sample_h, f, x, y, t2)) <= popcount(
            cell_mask(rast, w, h, cols, sample_h, f, x, y, t1),
        ),
{
    lemma_cell_mask_upto_threshold_monotone(
        rast,
        w,
        h,
        cols,
        sample_h,
        f,
        x,
        y,
        t1,
        t2,
        (2 * f) as nat,
    );
    lemma_popcount_subset(
        cell_mask(rast, w, h, cols, sample_h, f, x, y, t1),
        cell_mask(rast, w, h, cols, sample_h, f, x, y, t2),
    );
}

proof fn lemma_cell_mask_upto_zero(
    rast: Seq<Seq<u8>>,
    w: int,
    h: int,
    cols: int,
    sample_h: int,
    f: int,
    x: int,
    y: int,
    thr: u8,
    t: nat,
)
    requires
        forall|py: int, px: int|
            0 <= py < rast.len() && 0 <= px < rast[py].len() ==> #[trigger] rast[py][px] == 0,
    ensures
        cell_mask_upto(rast, w, h, cols, sample_h, f, x, y, thr, t) == 0,
    decreases t,
{
    if t > 0 {
        let tp = (t - 1) as nat;
        lemma_cell_mask_upto_zero(rast, w, h, cols, sample_h, f, x, y, thr, tp);
    }
}

/// Quantizing a pure-background raster yields a grid of spaces, for either
/// profile and at any resolution: every sub-cell samples intensity zero, so
/// every mask is zero and every table maps mask zero to a space.
pub proof fn lemma_zero_raster_blank(
    rast: Seq<Seq<u8>>,
    w: int,
    h: int,
    cols: int,
    sample_h: int,
    rows: int,
    p: Profile,
)
    requires
        forall|py: int, px: int|
            0 <= py < rast.len() && 0 <= px < rast[py].len() ==> #[trigger] rast[py][px] == 0,
        rows >= 0,
        cols >= 0,
    ensures
        forall|y: int, x: int|
            0 <= y < rows && 0 <= x < cols ==> grid_spec(rast, w, h, cols, sample_h, rows, p)[y][x]
                == ' ',
{
    assert forall|y: int, x: int|
        0 <= y < rows && 0 <= x < cols implies grid_spec(rast, w, h, cols, sample_h, rows, p)[y][x]
        == ' ' by {
        lemma_cell_mask_upto_zero(
            rast,
            w,
            h,
            cols,
            sample_h,
            p.cell_rows_spec(),
            x,
            y,
            p.threshold_spec(),
            (2 * p.cell_rows_spec()) as nat,
        );
    }
}

} // verus!
