use vstd::prelude::*;

verus! {

/// A single-channel coverage raster: a grid of `width × height` cells, each
/// holding an intensity byte, stored row-major. Logically grayscale; the
/// four-channel export replicates the byte into every color channel.
pub struct CoverageRaster {
    pub width: u32,
    pub height: u32,
    pub data: Vec<u8>,
}

impl View for CoverageRaster {
    type V = Seq<Seq<u8>>;

    /// The raster as a sequence of rows, each a sequence of intensity bytes.
    open spec fn view(&self) -> Seq<Seq<u8>> {
        Seq::new(
            self.height as nat,
            |y: int| Seq::new(self.width as nat, |x: int| self.data@[y * self.width + x]),
        )
    }
}

impl CoverageRaster {
    /// A raster is well formed when it is at least one cell wide and tall and
    /// its buffer holds exactly one byte per cell.
    pub open spec fn wf(self) -> bool {
        &&& self.width >= 1
        &&& self.height >= 1
        &&& self.width * self.height <= usize::MAX
        &&& self.data@.len() == self.width * self.height
    }

    /// Intensity of the cell at column `x`, row `y` (row-major addressing).
    pub open spec fn at(self, x: int, y: int) -> u8 {
        self.data@[y * self.width + x]
    }

    /// A raster of the given dimensions with every cell at intensity zero.
    pub fn new(width: u32, height: u32) -> (r: CoverageRaster)
        requires
            width >= 1,
            height >= 1,
            width * height <= usize::MAX,
        ensures
            r.wf(),
            r.width == width,
            r.height == height,
            forall|x: int, y: int|
                0 <= x < width && 0 <= y < height ==> r.at(x, y) == 0,
            forall|i: int| 0 <= i < width * height ==> r.data@[i] == 0,
    {
        let n: usize = (width as usize) * (height as usize);
        let data: Vec<u8> = vec![0u8; n];
        let r = CoverageRaster { width, height, data };
        proof {
            assert forall|x: int, y: int|
                0 <= x < width && 0 <= y < height implies r.at(x, y) == 0 by {
                lemma_row_major_in_range(width as int, height as int, x, y);
            }
        }
        r
    }

    /// Read the cell at column `x`, row `y`.
    pub fn get(&self, x: u32, y: u32) -> (v: u8)
        requires
            self.wf(),
            x < self.width,
            y < self.height,
        ensures
            v == self.at(x as int, y as int),
    {
        proof {
            lemma_row_major_in_range(self.width as int, self.height as int, x as int, y as int);
            assert(y * self.width <= y * self.width + x);
        }
        let i: usize = (y as usize) * (self.width as usize) + (x as usize);
        self.data[i]
    }

    /// Overwrite the cell at column `x`, row `y`; every other cell keeps its
    /// intensity.
    pub fn set(&mut self, x: u32, y: u32, v: u8)
        requires
            old(self).wf(),
            x < old(self).width,
            y < old(self).height,
        ensures
            final(self).wf(),
            final(self).width == old(self).width,
            final(self).height == old(self).height,
            final(self).at(x as int, y as int) == v,
            forall|x2: int, y2: int|
                0 <= x2 < final(self).width && 0 <= y2 < final(self).height && !(x2 == x && y2
                    == y) ==> final(self).at(x2, y2) == old(self).at(x2, y2),
            final(self).data@ == old(self).data@.update(
                y as int * old(self).width as int + x as int,
                v,
            ),
    {
        proof {
            lemma_row_major_in_range(self.width as int, self.height as int, x as int, y as int);
            assert(y * self.width <= y * self.width + x);
        }
        let i: usize = (y as usize) * (self.width as usize) + (x as usize);
        self.data.set(i, v);
        proof {
            assert forall|x2: int, y2: int|
                0 <= x2 < self.width && 0 <= y2 < self.height && !(x2 == x && y2 == y)
                    implies self.at(x2, y2) == old(self).at(x2, y2) by {
                lemma_row_major_in_range(self.width as int, self.height as int, x2, y2);
                if y2 * self.width as int + x2 == y as int * self.width as int + x as int {
                    lemma_row_major_injective(self.width as int, x as int, y as int, x2, y2);
                }
            }
        }
    }
}

/// Row-major addressing stays inside the buffer: `y * w + x < w * h` whenever
/// the coordinates are in range.
pub proof fn lemma_row_major_in_range(w: int, h: int, x: int, y: int)
    by (nonlinear_arith)
    requires
        0 <= x < w,
        0 <= y < h,
    ensures
        0 <= y * w + x < w * h,
{
}

/// Row-major addressing is injective over one row width: two in-range columns
/// that share a buffer index share both coordinates.
pub proof fn lemma_row_major_injective(w: int, x1: int, y1: int, x2: int, y2: int)
    by (nonlinear_arith)
    requires
        0 <= x1 < w,
        0 <= x2 < w,
        y1 * w + x1 == y2 * w + x2,
    ensures
        x1 == x2,
        y1 == y2,
{
}

} // verus!
