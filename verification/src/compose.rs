use vstd::prelude::*;

use crate::quantize::{
    derived_cols, derived_rows, derived_sample_h, grid_spec, quantize, CharGrid, Profile, SizeSpec,
};
use crate::raster::CoverageRaster;

verus! {

/// The merged character at output position `(i, j)`: the block layer's cell
/// if it is in bounds and not a space; otherwise the braille layer's cell
/// shifted down and right by the shadow offset, if that is in bounds;
/// otherwise a space. Block glyphs always take visual precedence.
pub open spec fn merged_cell(
    block: Seq<Seq<char>>,
    braille: Seq<Seq<char>>,
    off: int,
    i: int,
    j: int,
) -> char {
    let bc = if 0 <= i < block.len() && 0 <= j < block[i].len() {
        block[i][j]
    } else {
        ' '
    };
    let sc = if off <= i && off <= j && i - off < braille.len() && j - off < braille[i - off].len() {
        braille[i - off][j - off]
    } else {
        ' '
    };
    if bc == ' ' {
        sc
    } else {
        bc
    }
}

/// One output line: `cols` merged cells followed by a newline.
pub open spec fn merged_line(
    block: Seq<Seq<char>>,
    braille: Seq<Seq<char>>,
    off: int,
    cols: int,
    i: int,
) -> Seq<char> {
    Seq::new(cols as nat, |j: int| merged_cell(block, braille, off, i, j)).push('\n')
}

/// The first `k` output lines, concatenated.
pub open spec fn merged_text(
    block: Seq<Seq<char>>,
    braille: Seq<Seq<char>>,
    off: int,
    cols: int,
    k: nat,
) -> Seq<char>
    decreases k,
{
    if k == 0 {
        Seq::empty()
    } else {
        merged_text(block, braille, off, cols, (k - 1) as nat) + merged_line(
            block,
            braille,
            off,
            cols,
            k as int - 1,
        )
    }
}

/// Every output line adds `cols + 1` characters: the merged text over `k`
/// lines is `k * (cols + 1)` characters long, and within line `i` the
/// character at offset `t` is the merged cell, the last one the newline.
pub proof fn lemma_merged_text_shape(
    block: Seq<Seq<char>>,
    braille: Seq<Seq<char>>,
    off: int,
    cols: int,
    k: nat,
)
    requires
        cols >= 0,
    ensures
        merged_text(block, braille, off, cols, k).len() == k * (cols + 1),
        forall|i: int, t: int|
            0 <= i < k && 0 <= t < cols ==> merged_text(block, braille, off, cols, k)[i * (cols + 1)
                + t] == merged_cell(block, braille, off, i, t),
        forall|i: int|
            0 <= i < k ==> #[trigger] merged_text(block, braille, off, cols, k)[i * (cols + 1)
                + cols] == '\n',
    decreases k,
{
    if k == 0 {
        assert(k * (cols + 1) == 0) by (nonlinear_arith)
            requires
                k == 0nat,
        ;
    } else {
        let kp = (k - 1) as nat;
        lemma_merged_text_shape(block, braille, off, cols, kp);
        let prefix = merged_text(block, braille, off, cols, kp);
        let whole = merged_text(block, braille, off, cols, k);
        assert(whole.len() == kp * (cols + 1) + (cols + 1));
        assert(k * (cols + 1) == kp * (cols + 1) + (cols + 1)) by (nonlinear_arith)
            requires
                k == kp + 1,
        ;
        assert forall|i: int, t: int|
            0 <= i < k && 0 <= t < cols implies whole[i * (cols + 1) + t] == merged_cell(
            block,
            braille,
            off,
            i,
            t,
        ) by {
            lemma_row_index_bounds(cols + 1, i, t, k as int);
            if i < kp {
                assert(whole[i * (cols + 1) + t] == prefix[i * (cols + 1) + t]);
            } else {
                assert(i == kp);
                assert(whole[i * (cols + 1) + t] == merged_line(block, braille, off, cols, i)[t]);
            }
        }
        assert forall|i: int| #![trigger whole[i * (cols + 1) + cols]] 0 <= i < k implies whole[i
            * (cols + 1) + cols] == '\n' by {
            lemma_row_index_bounds(cols + 1, i, cols, k as int);
            if i < kp {
                assert(whole[i * (cols + 1) + cols] == prefix[i * (cols + 1) + cols]);
            } else {
                assert(i == kp);
                assert(whole[i * (cols + 1) + cols] == merged_line(
                    block,
                    braille,
                    off,
                    cols,
                    i,
                )[cols]);
            }
        }
    }
}

/// Positions within row `i` of a table with `stride` columns lie between
/// `i * stride` and `(i + 1) * stride`, within the whole table.
proof fn lemma_row_index_bounds(stride: int, i: int, t: int, k: int)
    by (nonlinear_arith)
    requires
        stride >= 1,
        0 <= t < stride,
        0 <= i < k,
    ensures
        0 <= i * stride + t < k * stride,
        i * stride + t < (i + 1) * stride,
        (i + 1) * stride <= k * stride,
        i < k - 1 ==> i * stride + t < (k - 1) * stride,
{
}

/// Relies on `String::push`: it appends exactly the one character to the end
/// of the string.
#[verifier::external_body]
fn push_char(s: &mut String, c: char)
    ensures
        final(s)@ == old(s)@.push(c),
{
    s.push(c);
}

/// Merge a block grid and a braille grid into one newline-terminated text
/// block of `(block rows + offset)` lines, each `(block cols + offset)`
/// characters wide plus the newline.
pub fn merge(block: &CharGrid, braille: &CharGrid, off: u32) -> (s: String)
    requires
        block.wf(),
        braille.wf(),
        block@.len() + off <= u64::MAX,
    ensures
        s@ == merged_text(
            block@,
            braille@,
            off as int,
            block.cols as int + off as int,
            (block@.len() + off) as nat,
        ),
{
    let rows_total: u64 = block.cells.len() as u64 + off as u64;
    let cols_total: u64 = block.cols as u64 + off as u64;
    let ghost gcols: int = block.cols as int + off as int;
    let mut s: String = String::new();
    let mut i: u64 = 0;
    while i < rows_total
        invariant
            block.wf(),
            braille.wf(),
            rows_total == block.cells.len() + off,
            cols_total == block.cols + off,
            gcols == cols_total as int,
            i <= rows_total,
            s@ == merged_text(block@, braille@, off as int, gcols, i as nat),
        decreases rows_total - i,
    {
        let mut j: u64 = 0;
        while j < cols_total
            invariant
                block.wf(),
                braille.wf(),
                rows_total == block.cells.len() + off,
                cols_total == block.cols + off,
                gcols == cols_total as int,
                i < rows_total,
                j <= cols_total,
                s@ == merged_text(block@, braille@, off as int, gcols, i as nat) + Seq::new(
                    j as nat,
                    |jj: int| merged_cell(block@, braille@, off as int, i as int, jj),
                ),
            decreases cols_total - j,
        {
            let bc: char = if i < block.cells.len() as u64 && j < block.cells[i as usize].len()
                as u64 {
                block.cells[i as usize][j as usize]
            } else {
                ' '
            };
            let c: char = if bc == ' ' {
                if i >= off as u64 && j >= off as u64 {
                    let ii: u64 = i - off as u64;
                    let jj: u64 = j - off as u64;
                    if ii < braille.cells.len() as u64 && jj < braille.cells[ii as usize].len()
                        as u64 {
                        braille.cells[ii as usize][jj as usize]
                    } else {
                        ' '
                    }
                } else {
                    ' '
                }
            } else {
                bc
            };
            proof {
                assert(c == merged_cell(block@, braille@, off as int, i as int, j as int));
            }
            push_char(&mut s, c);
            proof {
                assert(s@ =~= merged_text(block@, braille@, off as int, gcols, i as nat)
                    + Seq::new(
                    (j + 1) as nat,
                    |jj: int| merged_cell(block@, braille@, off as int, i as int, jj),
                ));
            }
            j = j + 1;
        }
        push_char(&mut s, '\n');
        proof {
            assert(s@ =~= merged_text(block@, braille@, off as int, gcols, (i + 1) as nat));
        }
        i = i + 1;
    }
    s
}

/// Merge idempotence: when the braille layer is all spaces, the merged cell
/// at every position is exactly the block grid's cell where one exists, and a
/// padding space everywhere else — no character appears outside the block
/// layer's own coordinates.
pub proof fn lemma_merge_blank_braille(
    block: Seq<Seq<char>>,
    braille: Seq<Seq<char>>,
    off: int,
    i: int,
    j: int,
)
    requires
        forall|a: int, b: int|
            0 <= a < braille.len() && 0 <= b < braille[a].len() ==> braille[a][b] == ' ',
    ensures
        merged_cell(block, braille, off, i, j) == if 0 <= i < block.len() && 0 <= j
            < block[i].len() {
            block[i][j]
        } else {
            ' '
        },
{
}

/// The size convention that `composite` uses for both layers: the effective
/// column cap leaves room for the shadow offset and the extra margin.
pub open spec fn composite_size(max_width: int, min_height: int, off: int, margin: int) -> SizeSpec {
    SizeSpec::HeightDriven {
        max_cols: (max_width - off - margin) as u32,
        min_rows: min_height as u32,
    }
}

/// The merged output's column count: the block layer's columns plus the
/// shadow padding.
pub open spec fn composite_cols(
    w: int,
    h: int,
    max_width: int,
    min_height: int,
    off: int,
    margin: int,
) -> int {
    derived_cols(w, h, composite_size(max_width, min_height, off, margin), 2) + off
}

/// The merged output's line count: the block layer's rows plus the shadow
/// padding.
pub open spec fn composite_lines(
    w: int,
    h: int,
    max_width: int,
    min_height: int,
    off: int,
    margin: int,
) -> int {
    derived_rows(w, h, composite_size(max_width, min_height, off, margin), 2) + off
}

/// The full composited text block for a raster: both layers quantized under
/// the same effective size, then shadow-merged.
pub open spec fn composite_text(
    rast: Seq<Seq<u8>>,
    w: int,
    h: int,
    max_width: int,
    min_height: int,
    off: int,
    margin: int,
) -> Seq<char> {
    let size = composite_size(max_width, min_height, off, margin);
    let bgrid = grid_spec(
        rast,
        w,
        h,
        derived_cols(w, h, size, 2),
        derived_sample_h(w, h, size, 2),
        derived_rows(w, h, size, 2),
        Profile::Block,
    );
    let rgrid = grid_spec(
        rast,
        w,
        h,
        derived_cols(w, h, size, 4),
        derived_sample_h(w, h, size, 4),
        derived_rows(w, h, size, 4),
        Profile::Braille,
    );
    merged_text(
        bgrid,
        rgrid,
        off,
        derived_cols(w, h, size, 2) + off,
        (derived_rows(w, h, size, 2) + off) as nat,
    )
}

/// Quantize a raster into a block layer and a braille layer over an effective
/// width reduced by the shadow offset and the extra margin, then merge them
/// with the braille layer displaced by the shadow offset. The output is one
/// text block: `(block rows + offset)` lines, each `(block cols + offset)`
/// characters wide and terminated by a newline.
pub fn composite(
    raster: &CoverageRaster,
    max_width: u32,
    min_height: u32,
    shadow_offset: u32,
    extra_margin: u32,
) -> (s: String)
    requires
        raster.wf(),
        max_width >= shadow_offset + extra_margin + 1,
        min_height >= 1,
    ensures
        s@ == composite_text(
            raster@,
            raster.width as int,
            raster.height as int,
            max_width as int,
            min_height as int,
            shadow_offset as int,
            extra_margin as int,
        ),
        s@.len() == composite_lines(
            raster.width as int,
            raster.height as int,
            max_width as int,
            min_height as int,
            shadow_offset as int,
            extra_margin as int,
        ) * (composite_cols(
            raster.width as int,
            raster.height as int,
            max_width as int,
            min_height as int,
            shadow_offset as int,
            extra_margin as int,
        ) + 1),
        forall|i: int|
            0 <= i < composite_lines(
                raster.width as int,
                raster.height as int,
                max_width as int,
                min_height as int,
                shadow_offset as int,
                extra_margin as int,
            ) ==> #[trigger] s@[i * (composite_cols(
                raster.width as int,
                raster.height as int,
                max_width as int,
                min_height as int,
                shadow_offset as int,
                extra_margin as int,
            ) + 1) + composite_cols(
                raster.width as int,
                raster.height as int,
                max_width as int,
                min_height as int,
                shadow_offset as int,
                extra_margin as int,
            )] == '\n',
{
    let eff: u32 = max_width - shadow_offset - extra_margin;
    let size = SizeSpec::HeightDriven { max_cols: eff, min_rows: min_height };
    let block = quantize(raster, size, Profile::Block);
    let braille = quantize(raster, size, Profile::Braille);
    proof {
        let w = raster.width as int;
        let h = raster.height as int;
        crate::quantize::lemma_mul_le(derived_cols(w, h, size, 2), h, 0xffff_ffff, 0xffff_ffff);
        crate::quantize::lemma_ceil_div_bounds(derived_cols(w, h, size, 2) * h, w);
        crate::quantize::lemma_div_le(derived_sample_h(w, h, size, 2), 2);
    }
    let s = merge(&block, &braille, shadow_offset);
    proof {
        lemma_merged_text_shape(
            block@,
            braille@,
            shadow_offset as int,
            block.cols as int + shadow_offset as int,
            (block@.len() + shadow_offset) as nat,
        );
    }
    s
}

} // verus!
