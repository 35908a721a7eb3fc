use blockcompare::average_gb_blocks;
use blockcompare::CoreError;
use blockcompare::Raster;
use blockcompare::Rgb;

fn gray(v: u8) -> Rgb {
    Rgb { r: v, g: v, b: v }
}

/// A raster whose pixel at `(x, y)` is built by `f(x, y)`.
fn raster_from_fn(width: u32, height: u32, f: impl Fn(u32, u32) -> Rgb) -> Raster {
    let mut pixels: Vec<Rgb> = Vec::new();
    for y in 0..height {
        for x in 0..width {
            pixels.push(f(x, y));
        }
    }
    Raster::new(width, height, pixels).unwrap()
}

#[test]
fn ten_by_ten_grid_has_hundred_entries() {
    let img = raster_from_fn(100, 100, |x, y| gray(((x + y) % 200 / 2) as u8));
    let blocks = average_gb_blocks(&img, 10, 10).unwrap();
    assert_eq!(blocks.len(), 100);
}

#[test]
fn even_grid_every_block_same_area() {
    // 8x6 raster, 4x3 grid: twelve 2x2 blocks, each averaging exactly its
    // own four pixels. Pixel values are constant per block, so each average
    // equals the block's value and every block is seen to weigh the same.
    let img = raster_from_fn(8, 6, |x, y| gray((10 * (x / 2) + 40 * (y / 2)) as u8));
    let blocks = average_gb_blocks(&img, 4, 3).unwrap();
    assert_eq!(blocks.len(), 12);
    for by in 0..3u32 {
        for bx in 0..4u32 {
            let expected = gray((10 * bx + 40 * by) as u8);
            assert_eq!(blocks[(by * 4 + bx) as usize], expected);
        }
    }
}

#[test]
fn block_averages_exact_values() {
    // 4x2 raster, 2x2 grid: each block is 2x1. Averages truncate: the
    // green channel pairs (3, 4) to 3.
    let pixels = vec![
        Rgb { r: 0, g: 3, b: 0 },
        Rgb { r: 10, g: 4, b: 1 },
        Rgb { r: 20, g: 0, b: 2 },
        Rgb { r: 30, g: 0, b: 3 },
        Rgb { r: 40, g: 7, b: 4 },
        Rgb { r: 50, g: 8, b: 5 },
        Rgb { r: 60, g: 0, b: 6 },
        Rgb { r: 70, g: 0, b: 7 },
    ];
    let img = Raster::new(4, 2, pixels).unwrap();
    let blocks = average_gb_blocks(&img, 2, 2).unwrap();
    assert_eq!(
        blocks,
        vec![
            Rgb { r: 5, g: 3, b: 0 },
            Rgb { r: 25, g: 0, b: 2 },
            Rgb { r: 45, g: 7, b: 4 },
            Rgb { r: 65, g: 0, b: 6 },
        ]
    );
}

#[test]
fn remainder_goes_to_last_column() {
    // Width 101 in 10 x-segments: nine columns of width 10 and a last
    // column of width 11, covering all 101 pixels. Pixel x holds value x,
    // so each average pins down exactly which pixels its block holds.
    let img = raster_from_fn(101, 1, |x, _| gray(x as u8));
    let blocks = average_gb_blocks(&img, 10, 1).unwrap();
    assert_eq!(blocks.len(), 10);
    for k in 0..9u32 {
        // width-10 block over values 10k .. 10k+9: mean 10k + 4 (truncated)
        assert_eq!(blocks[k as usize], gray((10 * k + 4) as u8));
    }
    // last block: values 90..=100, eleven of them, mean exactly 95
    assert_eq!(blocks[9], gray(95));
}

#[test]
fn zero_segments_rejected() {
    let img = raster_from_fn(4, 4, |_, _| gray(0));
    assert_eq!(average_gb_blocks(&img, 0, 2), Err(CoreError::InvalidGridDimensions));
    assert_eq!(average_gb_blocks(&img, 2, 0), Err(CoreError::InvalidGridDimensions));
}

#[test]
fn oversized_segments_rejected() {
    let img = raster_from_fn(4, 4, |_, _| gray(0));
    assert_eq!(average_gb_blocks(&img, 5, 2), Err(CoreError::InvalidGridDimensions));
    assert_eq!(average_gb_blocks(&img, 2, 5), Err(CoreError::InvalidGridDimensions));
}
