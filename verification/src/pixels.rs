//! The binarized pixel grid that the grid detector scans.

use vstd::prelude::*;

verus! {

/// A grayscale pixel field in row-major order: the intensity of the pixel at
/// column `x` and row `y` is `data[y * width + x]`.
pub struct PixelGrid {
    pub width: u32,
    pub height: u32,
    pub data: Vec<u8>,
}

impl PixelGrid {
    /// The grid is well formed when the buffer holds exactly one intensity
    /// per coordinate.
    pub open spec fn wf(self) -> bool {
        self.data@.len() == self.width * self.height
    }

    pub open spec fn spec_width(self) -> u32 {
        self.width
    }

    pub open spec fn spec_height(self) -> u32 {
        self.height
    }

    /// Intensity of the pixel at `(x, y)`.
    pub open spec fn intensity(self, x: int, y: int) -> u8 {
        self.data@[y * self.width + x]
    }

    /// Wraps a row-major intensity buffer; rejects a buffer whose length does
    /// not match the claimed dimensions.
    pub fn new(width: u32, height: u32, data: Vec<u8>) -> (r: Option<PixelGrid>)
        ensures
            match r {
                Some(g) => {
                    &&& g.wf()
                    &&& g.spec_width() == width
                    &&& g.spec_height() == height
                    &&& g.data@ == data@
                },
                None => data@.len() != width * height,
            },
    {
        proof {
            assert((width as int) * (height as int) <= 0xffff_ffff * 0xffff_ffff)
                by (nonlinear_arith)
                requires
                    width <= 0xffff_ffff,
                    height <= 0xffff_ffff,
            ;
        }
        let len_needed: u64 = (width as u64) * (height as u64);
        if (data.len() as u64) == len_needed {
            Some(PixelGrid { width, height, data })
        } else {
            None
        }
    }

    pub fn width(&self) -> (r: u32)
        ensures
            r == self.spec_width(),
    {
        self.width
    }

    pub fn height(&self) -> (r: u32)
        ensures
            r == self.spec_height(),
    {
        self.height
    }

    /// Intensity at `(x, y)`.
    pub fn get(&self, x: u32, y: u32) -> (r: u8)
        requires
            self.wf(),
            x < self.spec_width(),
            y < self.spec_height(),
        ensures
            r == self.intensity(x as int, y as int),
    {
        let n: usize = self.data.len();
        proof {
            assert((y as int) * (self.width as int) + (x as int) < (self.width as int) * (self.height as int))
                by (nonlinear_arith)
                requires
                    x < self.width,
                    y < self.height,
            ;
            assert((y as int) * (self.width as int) + (x as int) < n);
        }
        let idx: usize = (y as usize) * (self.width as usize) + (x as usize);
        self.data[idx]
    }
}

} // verus!
