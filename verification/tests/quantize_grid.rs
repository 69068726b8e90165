use okanimoji::quantize::{cell_mask_exec, derive_dims, quantize, Profile, SizeSpec};
use okanimoji::raster::CoverageRaster;

fn raster_from(width: u32, height: u32, values: &[u8]) -> CoverageRaster {
    assert_eq!(values.len() as u64, width as u64 * height as u64);
    let mut r = CoverageRaster::new(width, height);
    for y in 0..height {
        for x in 0..width {
            r.set(x, y, values[(y * width + x) as usize]);
        }
    }
    r
}

#[test]
fn width_driven_dims_aspect_two_to_one() {
    // aspect ratio 2:1, targetCols 80, block height factor 2:
    // rows = ceil(80 / 2 / 2) = 20, and without a row clamp the column
    // count stays 80
    let size = SizeSpec::WidthDriven { target_cols: 80, max_rows: None };
    let (cols, rows, sample_h) = derive_dims(100, 50, size, 2);
    assert_eq!(cols, 80);
    assert_eq!(rows, 20);
    assert_eq!(sample_h, 40);
}

#[test]
fn width_driven_dims_clamped_recomputes_cols() {
    let size = SizeSpec::WidthDriven { target_cols: 80, max_rows: Some(10) };
    let (cols, rows, _) = derive_dims(100, 50, size, 2);
    assert_eq!(rows, 10);
    // cols recomputed from the clamped row count: min(80, ceil(10*2*100/50))
    assert_eq!(cols, 40);
}

#[test]
fn height_driven_dims() {
    let size = SizeSpec::HeightDriven { max_cols: 33, min_rows: 10 };
    let (cols, rows, sample_h) = derive_dims(100, 50, size, 2);
    // cols = min(33, ceil(100*10/50)) = 20; sample_h = ceil(20*50/100) = 10
    assert_eq!(cols, 20);
    assert_eq!(sample_h, 10);
    assert_eq!(rows, 5);
}

#[test]
fn height_driven_dims_capped_by_max_cols() {
    let size = SizeSpec::HeightDriven { max_cols: 8, min_rows: 10 };
    let (cols, rows, sample_h) = derive_dims(100, 50, size, 2);
    assert_eq!(cols, 8);
    // sample_h = ceil(8*50/100) = 4, rows = 2
    assert_eq!(sample_h, 4);
    assert_eq!(rows, 2);
}

#[test]
fn zero_raster_quantizes_to_all_spaces() {
    // a pure-background raster yields a grid of spaces at any resolution,
    // for both profiles
    for (w, h) in [(1u32, 1u32), (10, 10), (100, 50), (7, 13)] {
        let r = CoverageRaster::new(w, h);
        for p in [Profile::Block, Profile::Braille] {
            for size in [
                SizeSpec::HeightDriven { max_cols: 40, min_rows: 10 },
                SizeSpec::WidthDriven { target_cols: 12, max_rows: None },
                SizeSpec::HeightDriven { max_cols: 3, min_rows: 2 },
            ] {
                let g = quantize(&r, size, p);
                for row in &g.cells {
                    for c in row {
                        assert_eq!(*c, ' ');
                    }
                }
            }
        }
    }
}

#[test]
fn block_quantize_exact_content() {
    // left column fully inked: sub-cells (0,0) and (1,0) are on, bits 0 and
    // 2, mask 5, the left-half block
    let r = raster_from(2, 2, &[255, 0, 255, 0]);
    let g = quantize(&r, SizeSpec::HeightDriven { max_cols: 2, min_rows: 2 }, Profile::Block);
    assert_eq!(g.cols, 2);
    assert_eq!(g.cells.len(), 1);
    assert_eq!(g.cells[0], vec!['▌', ' ']);
}

#[test]
fn braille_quantize_exact_content() {
    // 4x4 raster fully inked: every braille sub-cell is on for the first
    // three columns; the last column only has its left sub-cells in range
    let r = raster_from(4, 4, &[255; 16]);
    let g = quantize(&r, SizeSpec::HeightDriven { max_cols: 4, min_rows: 4 }, Profile::Braille);
    assert_eq!(g.cols, 4);
    assert_eq!(g.cells.len(), 1);
    assert_eq!(g.cells[0], vec!['⣿', '⣿', '⣿', braille_of(85)]);
}

fn braille_of(mask: u8) -> char {
    okanimoji::tables::braille_char(mask)
}

#[test]
fn threshold_monotonic_on_masks() {
    // intensities between the braille and block thresholds: raising the
    // threshold never increases the count of on bits in a cell's mask
    let r = raster_from(2, 2, &[180, 180, 180, 180]);
    let lo = cell_mask_exec(&r, 2, 2, 2, 0, 0, 170);
    let hi = cell_mask_exec(&r, 2, 2, 2, 0, 0, 200);
    assert_eq!(lo, 0b1111);
    assert_eq!(hi, 0);
    assert!(hi.count_ones() <= lo.count_ones());
    // and at equal thresholds the masks agree
    let same = cell_mask_exec(&r, 2, 2, 2, 0, 0, 170);
    assert_eq!(same, lo);
}

#[test]
fn mask_bit_layout_is_row_major() {
    // pixel (1,0) inked: in cell 0 it is sub-cell (0,1), bit i*2+j = 1,
    // mask 2; cell 1 samples it again at its own sub-cell (0,0), mask 1
    let r = raster_from(2, 2, &[0, 255, 0, 0]);
    let m = cell_mask_exec(&r, 2, 2, 2, 0, 0, 200);
    assert_eq!(m, 2);
    let m1 = cell_mask_exec(&r, 2, 2, 2, 1, 0, 200);
    assert_eq!(m1, 1);
    let g = quantize(&r, SizeSpec::HeightDriven { max_cols: 2, min_rows: 2 }, Profile::Block);
    assert_eq!(g.cells[0], vec!['▝', '▘']);
}

#[test]
fn out_of_range_samples_are_background() {
    // a raster narrower than the derived grid: the sub-cells that fall past
    // the right edge contribute "off", never an error
    let r = raster_from(1, 2, &[255, 255]);
    let g = quantize(&r, SizeSpec::HeightDriven { max_cols: 1, min_rows: 2 }, Profile::Block);
    assert_eq!(g.cols, 1);
    assert_eq!(g.cells.len(), 1);
    // sub-cell column j=1 samples pixel x=1, outside the raster: only bits
    // 0 and 2 are on
    assert_eq!(g.cells[0], vec!['▌']);
}
