//! The raster model: an immutable 2D grid of RGB pixels with row-major
//! storage, addressed by `(x, y)` with `x < width`, `y < height`.

use vstd::prelude::*;

verus! {

/// One pixel: 8-bit red, green and blue channels (no alpha).
#[derive(Clone, Copy, PartialEq, Eq, Structural, Debug)]
pub struct Rgb {
    pub r: u8,
    pub g: u8,
    pub b: u8,
}

/// A decoded image: `width * height` pixels, stored row by row.
#[derive(Debug)]
pub struct Raster {
    width: u32,
    height: u32,
    pixels: Vec<Rgb>,
}

proof fn lemma_area_fits_u64(w: u32, h: u32) by (nonlinear_arith)
    ensures
        (w as int) * (h as int) <= u64::MAX as int,
{
}

proof fn lemma_row_major_index_in_range(w: u32, h: u32, x: u32, y: u32) by (nonlinear_arith)
    requires
        x < w,
        y < h,
    ensures
        0 <= (y as int) * (w as int) + (x as int) < (w as int) * (h as int),
{
}

impl Raster {
    pub closed spec fn spec_width(&self) -> u32 {
        self.width
    }

    pub closed spec fn spec_height(&self) -> u32 {
        self.height
    }

    /// The pixels in row-major order.
    pub closed spec fn pixel_seq(&self) -> Seq<Rgb> {
        self.pixels@
    }

    /// Well-formedness: the storage holds exactly one pixel per coordinate.
    pub open spec fn wf(&self) -> bool {
        self.pixel_seq().len() == (self.spec_width() as int) * (self.spec_height() as int)
    }

    /// The pixel at `(x, y)`, row-major.
    pub open spec fn pixel(&self, x: int, y: int) -> Rgb {
        self.pixel_seq()[y * (self.spec_width() as int) + x]
    }

    /// Builds a raster from row-major pixel data; fails when the data does
    /// not hold exactly `width * height` pixels.
    pub fn new(width: u32, height: u32, pixels: Vec<Rgb>) -> (r: Option<Raster>)
        ensures
            match r {
                Some(img) => img.spec_width() == width && img.spec_height() == height
                    && img.pixel_seq() == pixels@ && img.wf(),
                None => pixels@.len() != (width as int) * (height as int),
            },
    {
        proof {
            lemma_area_fits_u64(width, height);
        }
        if pixels.len() as u64 == (width as u64) * (height as u64) {
            Some(Raster { width, height, pixels })
        } else {
            None
        }
    }

    pub fn width(&self) -> (w: u32)
        ensures
            w == self.spec_width(),
    {
        self.width
    }

    pub fn height(&self) -> (h: u32)
        ensures
            h == self.spec_height(),
    {
        self.height
    }

    pub fn get_pixel(&self, x: u32, y: u32) -> (p: Rgb)
        requires
            self.wf(),
            x < self.spec_width(),
            y < self.spec_height(),
        ensures
            p == self.pixel(x as int, y as int),
    {
        proof {
            vstd::std_specs::vec::axiom_spec_len(&self.pixels);
            lemma_row_major_index_in_range(self.width, self.height, x, y);
        }
        let idx: usize = (y as usize) * (self.width as usize) + (x as usize);
        self.pixels[idx]
    }
}

/// Which of two rasters covers fewer pixels: `0` and the first raster's
/// dimensions when its area is strictly smaller, else `1` and the second
/// raster's dimensions. A tie in area selects the second raster.
pub open spec fn spec_smallest_dimensions(img1: Raster, img2: Raster) -> (i8, u32, u32) {
    if (img1.spec_width() as int) * (img1.spec_height() as int)
        < (img2.spec_width() as int) * (img2.spec_height() as int) {
        (0i8, img1.spec_width(), img1.spec_height())
    } else {
        (1i8, img2.spec_width(), img2.spec_height())
    }
}

/// Selects the raster with the smaller pixel area, ties going to the second.
pub fn smallest_dimensions(img1: &Raster, img2: &Raster) -> (r: (i8, u32, u32))
    ensures
        r == spec_smallest_dimensions(*img1, *img2),
{
    proof {
        lemma_area_fits_u64(img1.width, img1.height);
        lemma_area_fits_u64(img2.width, img2.height);
    }
    let area1: u64 = (img1.width as u64) * (img1.height as u64);
    let area2: u64 = (img2.width as u64) * (img2.height as u64);
    if area1 < area2 {
        (0, img1.width, img1.height)
    } else {
        (1, img2.width, img2.height)
    }
}

} // verus!
