use okanimoji::art::generate_ascii_image;
use okanimoji::compose::{composite, merge};
use okanimoji::error::ArtError;
use okanimoji::layout::{rasterize, FontDef, GlyphDef, GlyphSample, KernPair};
use okanimoji::quantize::CharGrid;
use okanimoji::raster::CoverageRaster;

fn test_font() -> FontDef {
    FontDef {
        // ascent 10 px, descent -2 px, in 1/64 px subunits
        ascent: 640,
        descent: -128,
        glyphs: vec![
            GlyphDef {
                ch: 'a',
                advance: 320,
                top: 0,
                samples: vec![GlyphSample { dx: 0, dy: 0, coverage: 65535 }],
            },
            GlyphDef {
                ch: 'b',
                advance: 640,
                top: -3,
                samples: vec![GlyphSample { dx: 1, dy: 2, coverage: 32768 }],
            },
        ],
        kerning: vec![KernPair { left: 'a', right: 'b', adjust: -64 }],
    }
}

#[test]
fn rasterize_empty_text_is_no_glyphs() {
    let font = test_font();
    assert!(matches!(rasterize("", &font), Err(ArtError::NoGlyphs)));
}

#[test]
fn rasterize_unsupported_text_is_no_glyphs() {
    let font = test_font();
    assert!(matches!(rasterize("zz", &font), Err(ArtError::NoGlyphs)));
}

#[test]
fn rasterize_dimensions_and_pixels() {
    let font = test_font();
    let r = rasterize("ab", &font).unwrap();
    // total advance: 320 + kern(a,b) + 640 = 896 subunits -> 14 px
    assert_eq!(r.width, 14);
    // ceil((640 - (-128)) / 64) = 12 px
    assert_eq!(r.height, 12);
    // 'a' draws at pen 0: origin (0, ascent_px + top) = (0, 10);
    // full coverage maps to 255
    assert_eq!(r.get(0, 10), 255);
    // 'b' draws at pen 256 subunits -> x 4, origin y 10 - 3 = 7; its sample
    // lands at (5, 9) with coverage 32768/65535 -> byte 128 (rounded up)
    assert_eq!(r.get(5, 9), 128);
    // everything else stays background
    let mut inked: u32 = 0;
    for y in 0..r.height {
        for x in 0..r.width {
            if r.get(x, y) != 0 {
                inked += 1;
            }
        }
    }
    assert_eq!(inked, 2);
}

#[test]
fn rasterize_single_glyph_is_at_least_one_pixel() {
    let font = test_font();
    let r = rasterize("a", &font).unwrap();
    assert!(r.width >= 1);
    assert!(r.height >= 1);
    assert_eq!(r.width, 5);
}

#[test]
fn kerning_applies_to_every_consecutive_pair() {
    let font = test_font();
    // "aba": advance(a) + kern(a,b) + advance(b) + kern(b,a) + advance(a)
    //      = 320 - 64 + 640 + 0 + 320 = 1216 subunits -> 19 px
    let r = rasterize("aba", &font).unwrap();
    assert_eq!(r.width, 19);
    // were kerning applied to only one pair the width would still be 19
    // here, so also check a string where both pairs kern: "abab"
    // = 320 - 64 + 640 + 0 + 320 - 64 + 640 = 1792 subunits -> 28 px
    let r2 = rasterize("abab", &font).unwrap();
    assert_eq!(r2.width, 28);
}

#[test]
fn cjk_text_rasterizes() {
    let font = FontDef {
        ascent: 640,
        descent: -128,
        glyphs: vec![GlyphDef {
            ch: '字',
            advance: 4096,
            top: -10,
            samples: vec![
                GlyphSample { dx: 0, dy: 0, coverage: 65535 },
                GlyphSample { dx: 63, dy: 9, coverage: 65535 },
            ],
        }],
        kerning: vec![],
    };
    let r = rasterize("字", &font).unwrap();
    assert_eq!(r.width, 64);
    assert_eq!(r.height, 12);
    assert!(r.width >= 1 && r.height >= 1);
    assert_eq!(r.get(0, 0), 255);
    assert_eq!(r.get(63, 9), 255);
}

#[test]
fn coverage_rounds_up() {
    // the faintest nonzero coverage still inks one intensity level:
    // ceil(1 * 255 / 65535) = 1
    let font = FontDef {
        ascent: 64,
        descent: 0,
        glyphs: vec![GlyphDef {
            ch: 'x',
            advance: 64,
            top: -1,
            samples: vec![GlyphSample { dx: 0, dy: 0, coverage: 1 }],
        }],
        kerning: vec![],
    };
    let r = rasterize("x", &font).unwrap();
    assert_eq!(r.width, 1);
    assert_eq!(r.height, 1);
    assert_eq!(r.get(0, 0), 1);
}

#[test]
fn merge_block_wins_over_braille() {
    let block = CharGrid { cells: vec![vec!['█', ' ']], cols: 2 };
    let braille = CharGrid { cells: vec![vec!['⠇', '⠿']], cols: 2 };
    // offset 0: same coordinate space, block wins ties
    let s = merge(&block, &braille, 0);
    assert_eq!(s, "█⠿\n");
}

#[test]
fn merge_shifts_braille_by_offset() {
    let block = CharGrid { cells: vec![vec!['█']], cols: 1 };
    let braille = CharGrid { cells: vec![vec!['⠇']], cols: 1 };
    let s = merge(&block, &braille, 1);
    // 2x2 padded output; braille shows at (1,1), shifted by the offset
    assert_eq!(s, "█ \n ⠇\n");
}

#[test]
fn merge_with_blank_braille_is_padded_block() {
    // merge idempotence: an all-space braille grid leaves exactly the block
    // grid plus padding spaces
    let block = CharGrid { cells: vec![vec!['▌', '▐'], vec![' ', '█']], cols: 2 };
    let braille = CharGrid { cells: vec![vec![' ', ' '], vec![' ', ' ']], cols: 2 };
    let s = merge(&block, &braille, 2);
    assert_eq!(s, "▌▐  \n █  \n    \n    \n");
}

#[test]
fn composite_output_shape() {
    // raster 100x50, maxWidth 40, minHeight 10, shadowOffset 2:
    // exactly blockRows+2 lines, each blockCols+2 characters plus newline
    let r = CoverageRaster::new(100, 50);
    let s = composite(&r, 40, 10, 2, 0);
    // effective cap 38; cols = min(38, ceil(100*10/50)) = 20;
    // sample span ceil(20*50/100) = 10; block rows 5
    let lines: Vec<&str> = s.split('\n').collect();
    assert_eq!(lines.len(), 5 + 2 + 1, "one trailing empty split after the last newline");
    assert_eq!(lines[lines.len() - 1], "");
    for line in &lines[..lines.len() - 1] {
        assert_eq!(line.chars().count(), 20 + 2);
    }
    assert!(s.ends_with('\n'));
}

#[test]
fn composite_content_with_shadow() {
    let mut r = CoverageRaster::new(4, 4);
    for y in 0..4 {
        for x in 0..4 {
            r.set(x, y, 255);
        }
    }
    let s = composite(&r, 10, 4, 1, 0);
    // cols = min(9, ceil(4*4/4)) = 4; sample span 4; block rows 2,
    // braille rows 1; in the last column only the left sub-cells sample
    // inside the raster, so the block layer ends in a left-half block and
    // the braille layer in the left-dot-column pattern (mask 85)
    let last_braille = okanimoji::tables::braille_char(85);
    let expected = format!("███▌ \n███▌{}\n     \n", last_braille);
    assert_eq!(s, expected);
}

#[test]
fn generate_ascii_image_from_gray_image() {
    // a 2x2 grayscale image with the left column inked: one block cell row,
    // the left-half block then a space
    let gray = image::GrayImage::from_raw(2, 2, vec![255, 0, 255, 0]).unwrap();
    let img = image::DynamicImage::ImageLuma8(gray);
    let s = generate_ascii_image(&img, 8, 2, 0);
    assert_eq!(s, "▌ \n");
}

#[test]
fn generate_ascii_image_from_rgba() {
    // the grayscale-as-RGBA export round-trips through the luma conversion
    let mut img = image::RgbaImage::new(2, 2);
    img.put_pixel(0, 0, image::Rgba([255, 255, 255, 255]));
    img.put_pixel(1, 0, image::Rgba([0, 0, 0, 255]));
    img.put_pixel(0, 1, image::Rgba([255, 255, 255, 255]));
    img.put_pixel(1, 1, image::Rgba([0, 0, 0, 255]));
    let d = image::DynamicImage::ImageRgba8(img);
    let s = generate_ascii_image(&d, 8, 2, 0);
    assert_eq!(s, "▌ \n");
}

#[test]
fn generate_ascii_image_blank_input_is_blank_art() {
    let gray = image::GrayImage::from_raw(6, 4, vec![0; 24]).unwrap();
    let img = image::DynamicImage::ImageLuma8(gray);
    let s = generate_ascii_image(&img, 20, 4, 1);
    for c in s.chars() {
        assert!(c == ' ' || c == '\n');
    }
    assert!(s.ends_with('\n'));
}
