//! Read-only 2D grid of color/label values with bounds-checked lookup.

use vstd::prelude::*;

verus! {

/// Mathematical view of a raster: dimensions plus the row-major cell contents.
#[verifier::ext_equal]
pub struct GridView {
    pub width: int,
    pub height: int,
    pub pixels: Seq<u32>,
}

impl GridView {
    /// The dimensions are 32-bit sizes and the cell sequence covers exactly
    /// `width * height` pixels.
    pub open spec fn wf(self) -> bool {
        &&& 0 <= self.width <= u32::MAX
        &&& 0 <= self.height <= u32::MAX
        &&& self.pixels.len() == self.width * self.height
    }

    pub open spec fn in_bounds(self, x: int, y: int) -> bool {
        0 <= x < self.width && 0 <= y < self.height
    }

    /// Color stored at cell (x, y); cells are laid out row by row.
    pub open spec fn pixel(self, x: int, y: int) -> u32
        recommends
            self.wf(),
            self.in_bounds(x, y),
    {
        self.pixels[y * self.width + x]
    }
}

/// A row-major cell index stays inside a `width * height` buffer.
pub proof fn lemma_row_major_index(width: int, height: int, x: int, y: int)
    by (nonlinear_arith)
    requires
        0 <= x < width,
        0 <= y < height,
    ensures
        0 <= y * width + x < width * height,
{
}

/// The product of two `u32`-sized factors fits in a `u64`.
proof fn lemma_mul_u32_fits_u64(a: int, b: int)
    by (nonlinear_arith)
    requires
        0 <= a <= u32::MAX,
        0 <= b <= u32::MAX,
    ensures
        0 <= a * b <= u64::MAX,
{
}

/// Read-only raster of `u32` color/label values, stored row by row.
pub struct Raster {
    width: u32,
    height: u32,
    pixels: Vec<u32>,
}

impl View for Raster {
    type V = GridView;

    closed spec fn view(&self) -> GridView {
        GridView {
            width: self.width as int,
            height: self.height as int,
            pixels: self.pixels@,
        }
    }
}

impl Raster {
    #[verifier::type_invariant]
    pub(crate) open spec fn type_wf(self) -> bool {
        self@.wf()
    }

    /// Builds a raster from a row-major pixel buffer; a buffer whose length
    /// does not match `width * height` is rejected.
    pub fn from_pixels(width: u32, height: u32, pixels: Vec<u32>) -> (r: Option<Raster>)
        ensures
            match r {
                Some(img) => {
                    &&& pixels@.len() == width * height
                    &&& img@ == (GridView { width: width as int, height: height as int, pixels: pixels@ })
                },
                None => pixels@.len() != width * height,
            },
    {
        proof {
            lemma_mul_u32_fits_u64(width as int, height as int);
        }
        let expected = (width as u64) * (height as u64);
        if pixels.len() as u64 == expected {
            Some(Raster { width, height, pixels })
        } else {
            None
        }
    }

    pub fn width(&self) -> (w: u32)
        ensures
            w == self@.width,
    {
        self.width
    }

    pub fn height(&self) -> (h: u32)
        ensures
            h == self@.height,
    {
        self.height
    }

    /// Bounds-checked pixel lookup; the caller guarantees the coordinates
    /// are inside the raster.
    pub fn get_pixel(&self, x: u32, y: u32) -> (c: u32)
        requires
            self@.in_bounds(x as int, y as int),
        ensures
            c == self@.pixel(x as int, y as int),
    {
        proof {
            use_type_invariant(self);
            lemma_row_major_index(self@.width, self@.height, x as int, y as int);
        }
        let len: usize = self.pixels.len();
        assert((y as int) * (self@.width) + (x as int) < len as int);
        let idx: usize = (y as usize) * (self.width as usize) + (x as usize);
        self.pixels[idx]
    }
}

} // verus!
