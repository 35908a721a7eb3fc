//! The block averager: partitions a raster into a grid of rectangular
//! blocks and produces the per-channel mean colour of each block.
//!
//! An extent of `total` pixels split into `segs` segments gives `segs - 1`
//! segments of the base length `total / segs`; the last segment absorbs the
//! remainder, so the segments cover the extent exactly.

use vstd::prelude::*;
use vstd::arithmetic::div_mod::lemma_fundamental_div_mod_converse;

use crate::error::CoreError;
use crate::raster::Raster;
use crate::raster::Rgb;

verus! {

/// Channel `c` of a pixel: red for 0, green for 1, blue otherwise.
pub open spec fn channel(p: Rgb, c: int) -> int {
    if c == 0 {
        p.r as int
    } else if c == 1 {
        p.g as int
    } else {
        p.b as int
    }
}

/// Sum of channel `c` over the column of `h` pixels starting at `(x, y0)`.
pub open spec fn col_sum(img: Raster, c: int, x: int, y0: int, h: int) -> int
    decreases h,
{
    if h <= 0 {
        0
    } else {
        col_sum(img, c, x, y0, h - 1) + channel(img.pixel(x, y0 + h - 1), c)
    }
}

/// Sum of channel `c` over the `w * h` rectangle with corner `(x0, y0)`.
pub open spec fn rect_sum(img: Raster, c: int, x0: int, y0: int, w: int, h: int) -> int
    decreases w,
{
    if w <= 0 {
        0
    } else {
        rect_sum(img, c, x0, y0, w - 1, h) + col_sum(img, c, x0 + w - 1, y0, h)
    }
}

/// Segment counts are valid when each is positive and no larger than the
/// extent it divides, so that every block holds at least one pixel.
pub open spec fn valid_grid(w: int, h: int, x_segments: int, y_segments: int) -> bool {
    1 <= x_segments <= w && 1 <= y_segments <= h
}

/// Where segment `k` of an extent of `total` pixels starts.
pub open spec fn seg_start(total: int, segs: int, k: int) -> int {
    k * (total / segs)
}

/// The length of segment `k`: the base length `total / segs`, except that
/// the last segment absorbs the remainder.
pub open spec fn seg_len(total: int, segs: int, k: int) -> int {
    if k == segs - 1 {
        total - (total / segs) * (segs - 1)
    } else {
        total / segs
    }
}

/// How many pixels block `(bx, by)` of the grid holds.
pub open spec fn block_pixel_count(img: Raster, xs: int, ys: int, bx: int, by: int) -> int {
    seg_len(img.spec_width() as int, xs, bx) * seg_len(img.spec_height() as int, ys, by)
}

/// Sum of channel `c` over block `(bx, by)` of the grid.
pub open spec fn block_channel_sum(img: Raster, xs: int, ys: int, bx: int, by: int, c: int) -> int {
    rect_sum(
        img,
        c,
        seg_start(img.spec_width() as int, xs, bx),
        seg_start(img.spec_height() as int, ys, by),
        seg_len(img.spec_width() as int, xs, bx),
        seg_len(img.spec_height() as int, ys, by),
    )
}

/// The mean colour of block `(bx, by)`: per-channel sum divided by the
/// block's pixel count, truncated towards zero.
pub open spec fn block_average(img: Raster, xs: int, ys: int, bx: int, by: int) -> Rgb {
    Rgb {
        r: (block_channel_sum(img, xs, ys, bx, by, 0) / block_pixel_count(
            img,
            xs,
            ys,
            bx,
            by,
        )) as u8,
        g: (block_channel_sum(img, xs, ys, bx, by, 1) / block_pixel_count(
            img,
            xs,
            ys,
            bx,
            by,
        )) as u8,
        b: (block_channel_sum(img, xs, ys, bx, by, 2) / block_pixel_count(
            img,
            xs,
            ys,
            bx,
            by,
        )) as u8,
    }
}

/// Every segment of a valid partition is non-empty and lies inside the
/// extent; the last one ends exactly at the extent.
proof fn lemma_seg_bounds(total: int, segs: int, k: int) by (nonlinear_arith)
    requires
        1 <= segs <= total,
        0 <= k < segs,
    ensures
        1 <= seg_len(total, segs, k),
        seg_len(total, segs, k) <= total,
        0 <= seg_start(total, segs, k),
        seg_start(total, segs, k) + seg_len(total, segs, k) <= total,
        k == segs - 1 ==> seg_start(total, segs, k) + seg_len(total, segs, k) == total,
{
}

proof fn lemma_mul_le(a: int, b: int, c: int, d: int) by (nonlinear_arith)
    requires
        0 <= a <= c,
        0 <= b <= d,
    ensures
        a * b <= c * d,
{
}

proof fn lemma_grid_cell_bound(i: int, j: int, w: int, h: int) by (nonlinear_arith)
    requires
        0 <= i < w,
        0 <= j < h,
    ensures
        i * h + j + 1 <= w * h,
{
}

/// Law: a partition covers the whole extent. The first `segs - 1` segments
/// have the base length `total / segs`, and together with the last segment
/// the lengths sum to exactly `total`: no pixel is left out.
pub proof fn lemma_segments_cover(total: int, segs: int) by (nonlinear_arith)
    requires
        1 <= segs <= total,
    ensures
        (segs - 1) * (total / segs) + seg_len(total, segs, segs - 1) == total,
{
}

/// Law: when the segment count divides the extent evenly, every segment has
/// the base length `total / segs`.
pub proof fn lemma_even_segments_uniform(total: int, segs: int, k: int) by (nonlinear_arith)
    requires
        1 <= segs <= total,
        total % segs == 0,
        0 <= k < segs,
    ensures
        seg_len(total, segs, k) == total / segs,
{
}

/// Law: when the grid dimensions divide the raster dimensions evenly, every
/// block holds the same number of pixels, the base block area.
pub proof fn lemma_even_grid_equal_block_areas(img: Raster, xs: int, ys: int, bx: int, by: int)
    requires
        valid_grid(img.spec_width() as int, img.spec_height() as int, xs, ys),
        (img.spec_width() as int) % xs == 0,
        (img.spec_height() as int) % ys == 0,
        0 <= bx < xs,
        0 <= by < ys,
    ensures
        block_pixel_count(img, xs, ys, bx, by) == ((img.spec_width() as int) / xs) * (
        (img.spec_height() as int) / ys),
{
    lemma_even_segments_uniform(img.spec_width() as int, xs, bx);
    lemma_even_segments_uniform(img.spec_height() as int, ys, by);
}

/// Law: every block of a valid grid holds at least one pixel, so each block
/// average is a mean over a non-empty set.
pub proof fn lemma_block_nonempty(img: Raster, xs: int, ys: int, bx: int, by: int)
    requires
        valid_grid(img.spec_width() as int, img.spec_height() as int, xs, ys),
        0 <= bx < xs,
        0 <= by < ys,
    ensures
        1 <= block_pixel_count(img, xs, ys, bx, by),
{
    lemma_seg_bounds(img.spec_width() as int, xs, bx);
    lemma_seg_bounds(img.spec_height() as int, ys, by);
    lemma_mul_le(
        1,
        1,
        seg_len(img.spec_width() as int, xs, bx),
        seg_len(img.spec_height() as int, ys, by),
    );
}

/// Partitions `img` into `x_segments * y_segments` rectangular blocks and
/// returns the mean colour of each block, row-major (outer loop over rows,
/// inner over columns). The last column and row of blocks absorb the
/// remainder when the raster dimensions do not divide evenly. A segment
/// count of zero, or one larger than the corresponding raster dimension,
/// is rejected.
///
/// Channel sums use 64-bit accumulators, so the raster may hold at most
/// `u64::MAX / 255` pixels.
#[verifier::loop_isolation(false)]
pub fn average_gb_blocks(img: &Raster, x_segments: usize, y_segments: usize) -> (r: Result<
    Vec<Rgb>,
    CoreError,
>)
    requires
        img.wf(),
        255 * ((img.spec_width() as int) * (img.spec_height() as int)) <= u64::MAX as int,
    ensures
        match r {
            Ok(g) => {
                &&& valid_grid(
                    img.spec_width() as int,
                    img.spec_height() as int,
                    x_segments as int,
                    y_segments as int,
                )
                &&& g@.len() == x_segments * y_segments
                &&& forall|i: int|
                    0 <= i < g@.len() ==> #[trigger] g@[i] == block_average(
                        *img,
                        x_segments as int,
                        y_segments as int,
                        i % (x_segments as int),
                        i / (x_segments as int),
                    )
            },
            Err(e) => {
                &&& !valid_grid(
                    img.spec_width() as int,
                    img.spec_height() as int,
                    x_segments as int,
                    y_segments as int,
                )
                &&& e == CoreError::InvalidGridDimensions
            },
        },
{
    let w: u32 = img.width();
    let h: u32 = img.height();
    if x_segments == 0 || y_segments == 0 || x_segments > w as usize || y_segments > h as usize {
        return Err(CoreError::InvalidGridDimensions);
    }
    let xs: u32 = x_segments as u32;
    let ys: u32 = y_segments as u32;
    let block_width: u32 = w / xs;
    let block_height: u32 = h / ys;
    let ghost wi: int = w as int;
    let ghost hi: int = h as int;
    let ghost xsi: int = x_segments as int;
    let ghost ysi: int = y_segments as int;
    let mut blocks: Vec<Rgb> = Vec::new();

    let mut y: u32 = 0;
    while y < ys
        invariant
            y <= ys,
            blocks@.len() == (y as int) * xsi,
            forall|i: int|
                0 <= i < blocks@.len() ==> #[trigger] blocks@[i] == block_average(
                    *img,
                    xsi,
                    ysi,
                    i % xsi,
                    i / xsi,
                ),
        decreases ys - y,
    {
        let mut x: u32 = 0;
        while x < xs
            invariant
                x <= xs,
                y < ys,
                blocks@.len() == (y as int) * xsi + (x as int),
                forall|i: int|
                    0 <= i < blocks@.len() ==> #[trigger] blocks@[i] == block_average(
                        *img,
                        xsi,
                        ysi,
                        i % xsi,
                        i / xsi,
                    ),
            decreases xs - x,
        {
            proof {
                lemma_seg_bounds(wi, xsi, x as int);
                lemma_seg_bounds(hi, ysi, y as int);
                lemma_seg_bounds(wi, xsi, xsi - 1);
                lemma_seg_bounds(hi, ysi, ysi - 1);
            }
            let current_block_width: u32 = if x == xs - 1 {
                w - block_width * (xs - 1)
            } else {
                block_width
            };
            let current_block_height: u32 = if y == ys - 1 {
                h - block_height * (ys - 1)
            } else {
                block_height
            };
            let x0: u32 = x * block_width;
            let y0: u32 = y * block_height;
            let ghost cw: int = current_block_width as int;
            let ghost ch: int = current_block_height as int;
            let ghost x0i: int = x0 as int;
            let ghost y0i: int = y0 as int;
            proof {
                assert(cw == seg_len(wi, xsi, x as int));
                assert(ch == seg_len(hi, ysi, y as int));
                assert(x0i == seg_start(wi, xsi, x as int));
                assert(y0i == seg_start(hi, ysi, y as int));
                lemma_mul_le(cw, ch, wi, hi);
            }

            let mut sum_r: u64 = 0;
            let mut sum_g: u64 = 0;
            let mut sum_b: u64 = 0;
            let mut pixel_count: u64 = 0;

            let mut i: u32 = 0;
            while i < current_block_width
                invariant
                    i <= current_block_width,
                    pixel_count == (i as int) * ch,
                    sum_r == rect_sum(*img, 0, x0i, y0i, i as int, ch),
                    sum_g == rect_sum(*img, 1, x0i, y0i, i as int, ch),
                    sum_b == rect_sum(*img, 2, x0i, y0i, i as int, ch),
                    sum_r <= 255 * pixel_count,
                    sum_g <= 255 * pixel_count,
                    sum_b <= 255 * pixel_count,
                decreases current_block_width - i,
            {
                let mut j: u32 = 0;
                while j < current_block_height
                    invariant
                        j <= current_block_height,
                        i < current_block_width,
                        pixel_count == (i as int) * ch + (j as int),
                        sum_r == rect_sum(*img, 0, x0i, y0i, i as int, ch) + col_sum(
                            *img,
                            0,
                            x0i + i,
                            y0i,
                            j as int,
                        ),
                        sum_g == rect_sum(*img, 1, x0i, y0i, i as int, ch) + col_sum(
                            *img,
                            1,
                            x0i + i,
                            y0i,
                            j as int,
                        ),
                        sum_b == rect_sum(*img, 2, x0i, y0i, i as int, ch) + col_sum(
                            *img,
                            2,
                            x0i + i,
                            y0i,
                            j as int,
                        ),
                        sum_r <= 255 * pixel_count,
                        sum_g <= 255 * pixel_count,
                        sum_b <= 255 * pixel_count,
                    decreases current_block_height - j,
                {
                    proof {
                        lemma_grid_cell_bound(i as int, j as int, cw, ch);
                    }
                    let p: Rgb = img.get_pixel(x0 + i, y0 + j);
                    sum_r = sum_r + p.r as u64;
                    sum_g = sum_g + p.g as u64;
                    sum_b = sum_b + p.b as u64;
                    pixel_count = pixel_count + 1;
                    j = j + 1;
                }
                proof {
                    assert(((i as int) + 1) * ch == (i as int) * ch + ch) by (nonlinear_arith);
                }
                i = i + 1;
            }
            proof {
                lemma_mul_le(1, 1, cw, ch);
                assert(pixel_count == block_pixel_count(*img, xsi, ysi, x as int, y as int));
                assert(sum_r == block_channel_sum(*img, xsi, ysi, x as int, y as int, 0));
                assert(sum_g == block_channel_sum(*img, xsi, ysi, x as int, y as int, 1));
                assert(sum_b == block_channel_sum(*img, xsi, ysi, x as int, y as int, 2));
            }
            let avg = Rgb {
                r: (sum_r / pixel_count) as u8,
                g: (sum_g / pixel_count) as u8,
                b: (sum_b / pixel_count) as u8,
            };
            proof {
                assert(avg == block_average(*img, xsi, ysi, x as int, y as int));
            }
            blocks.push(avg);
            proof {
                lemma_fundamental_div_mod_converse(
                    (y as int) * xsi + (x as int),
                    xsi,
                    y as int,
                    x as int,
                );
            }
            x = x + 1;
        }
        proof {
            assert(((y as int) + 1) * xsi == (y as int) * xsi + xsi) by (nonlinear_arith);
        }
        y = y + 1;
    }
    proof {
        assert(ysi * xsi == xsi * ysi) by (nonlinear_arith);
    }
    Ok(blocks)
}

} // verus!
