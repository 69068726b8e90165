use vstd::prelude::*;

use crate::compose::{composite, composite_text};
use crate::raster::CoverageRaster;

verus! {

/// The extra column margin that the image entry point reserves next to the
/// shadow offset, so that the merged output stays inside the width budget.
pub const IMAGE_MARGIN: u32 = 5;

#[verifier::external_type_specification]
#[verifier::external_body]
pub struct ExDynamicImage(image::DynamicImage);

/// The image's 8-bit grayscale rendering as rows of intensity bytes, top to
/// bottom and left to right: what `DynamicImage::to_luma8` computes, a
/// function of the image alone.
pub uninterp spec fn luma_grid(img: image::DynamicImage) -> Seq<Seq<u8>>;

/// Relies on `image::DynamicImage::to_luma8`, with `ImageBuffer::dimensions`
/// and `ImageBuffer::into_raw`: the grayscale rendering has the image's
/// dimensions, one byte per pixel, and its raw buffer holds the pixels
/// row-major, starting with at least `width * height` bytes.
#[verifier::external_body]
fn luma_bytes(img: &image::DynamicImage) -> (r: (Vec<u8>, u32, u32))
    ensures
        r.2 as int == luma_grid(*img).len(),
        forall|y: int| 0 <= y < r.2 ==> (#[trigger] luma_grid(*img)[y]).len() == r.1 as int,
        r.0@.len() >= r.1 as int * r.2 as int,
        forall|y: int, x: int|
            0 <= y < r.2 && 0 <= x < r.1 ==> r.0@[y * r.1 as int + x] == (#[trigger] luma_grid(
                *img,
            )[y][x]),
{
    let g = img.to_luma8();
    let (w, h) = g.dimensions();
    (g.into_raw(), w, h)
}

/// The image's grayscale pixels as a coverage raster, or nothing when either
/// dimension is zero.
pub fn luma_raster(img: &image::DynamicImage) -> (r: Option<CoverageRaster>)
    ensures
        match r {
            Some(rr) => {
                &&& luma_grid(*img).len() >= 1
                &&& luma_grid(*img)[0].len() >= 1
                &&& rr.wf()
                &&& rr.height as int == luma_grid(*img).len()
                &&& rr.width as int == luma_grid(*img)[0].len()
                &&& rr@ == luma_grid(*img)
            },
            None => luma_grid(*img).len() == 0 || luma_grid(*img)[0].len() == 0,
        },
{
    let (mut data, w, h) = luma_bytes(img);
    if w == 0 || h == 0 {
        return None;
    }
    let len: usize = data.len();
    let n64: u64 = (w as u64) * (h as u64);
    proof {
        assert(n64 <= len);
    }
    let n: usize = n64 as usize;
    data.truncate(n);
    let rr = CoverageRaster { width: w, height: h, data };
    proof {
        assert forall|y: int| 0 <= y < luma_grid(*img).len() implies rr@[y] =~= luma_grid(*img)[y]
            by {
            assert forall|x: int| 0 <= x < w implies rr@[y][x] == luma_grid(*img)[y][x] by {
                crate::raster::lemma_row_major_in_range(w as int, h as int, x, y);
            }
        }
        assert(rr@ =~~= luma_grid(*img));
    }
    Some(rr)
}

/// Re-encode an image as shadowed terminal art: its grayscale rendering is
/// quantized into a block layer and a braille layer over a width budget
/// reduced by the shadow offset and a fixed margin, and the layers are merged
/// with the braille layer displaced by the shadow offset.
pub fn generate_ascii_image(
    image: &image::DynamicImage,
    max_width: u32,
    min_height: u32,
    shadow_offset: u32,
) -> (s: String)
    requires
        luma_grid(*image).len() >= 1,
        luma_grid(*image)[0].len() >= 1,
        max_width >= shadow_offset + IMAGE_MARGIN + 1,
        min_height >= 1,
    ensures
        s@ == composite_text(
            luma_grid(*image),
            luma_grid(*image)[0].len() as int,
            luma_grid(*image).len() as int,
            max_width as int,
            min_height as int,
            shadow_offset as int,
            IMAGE_MARGIN as int,
        ),
{
    match luma_raster(image) {
        Some(raster) => composite(&raster, max_width, min_height, shadow_offset, IMAGE_MARGIN),
        None => {
            proof {
                assert(false);
            }
            String::new()
        },
    }
}

} // verus!
