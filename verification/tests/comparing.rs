use blockcompare::average_gb_blocks;
use blockcompare::compare_images_chisquare;
use blockcompare::compare_images_chisquare_glam;
use blockcompare::CoreError;
use blockcompare::Raster;
use blockcompare::Rgb;
use blockcompare::Score;

fn gray(v: u8) -> Rgb {
    Rgb { r: v, g: v, b: v }
}

fn raster_from_fn(width: u32, height: u32, f: impl Fn(u32, u32) -> Rgb) -> Raster {
    let mut pixels: Vec<Rgb> = Vec::new();
    for y in 0..height {
        for x in 0..width {
            pixels.push(f(x, y));
        }
    }
    Raster::new(width, height, pixels).unwrap()
}

/// The real-valued divergence: accumulated sum over comparison count.
fn score_value(s: &Score) -> f64 {
    s.sum as f64 / s.count as f64
}

#[test]
fn self_comparison_scores_zero() {
    let img = raster_from_fn(16, 16, |x, y| Rgb {
        r: (x * 16) as u8,
        g: (y * 16) as u8,
        b: ((x + y) * 8) as u8,
    });
    let blocks = average_gb_blocks(&img, 4, 4).unwrap();
    let s = compare_images_chisquare(&blocks, &blocks);
    assert_eq!(s.sum, 0);
    assert_eq!(s.count, 48);
    assert_eq!(score_value(&s), 0.0);
}

#[test]
fn scalar_exact_value() {
    let a = vec![Rgb { r: 0, g: 0, b: 0 }];
    let b = vec![Rgb { r: 3, g: 0, b: 4 }];
    let s = compare_images_chisquare(&a, &b);
    assert_eq!(s.sum, 25);
    assert_eq!(s.count, 3);
}

#[test]
fn unnormalized_divergence_is_symmetric() {
    let img1 = raster_from_fn(12, 12, |x, y| gray((x * 5 + y * 3) as u8));
    let img2 = raster_from_fn(12, 12, |x, y| gray((x * 7 + y * 2) as u8));
    let a = average_gb_blocks(&img1, 3, 4).unwrap();
    let b = average_gb_blocks(&img2, 3, 4).unwrap();
    let ab = compare_images_chisquare(&a, &b);
    let ba = compare_images_chisquare(&b, &a);
    assert_eq!(ab, ba);
    assert_eq!(score_value(&ab), score_value(&ba));
}

#[test]
fn vectorized_matches_scalar() {
    let img1 = raster_from_fn(32, 32, |x, y| Rgb {
        r: (x * 8) as u8,
        g: (y * 8) as u8,
        b: ((x * y) % 256) as u8,
    });
    let img2 = raster_from_fn(32, 32, |x, y| Rgb {
        r: (y * 8) as u8,
        g: (x * 8) as u8,
        b: ((x + 2 * y) % 256) as u8,
    });
    // 4x4 grids: 16 blocks, a multiple of the lane width
    let a = average_gb_blocks(&img1, 4, 4).unwrap();
    let b = average_gb_blocks(&img2, 4, 4).unwrap();
    let scalar = compare_images_chisquare(&a, &b);
    let lanes = compare_images_chisquare_glam(&a, &b).unwrap();
    assert_eq!(lanes, scalar);
    assert_eq!(score_value(&lanes), score_value(&scalar));
}

#[test]
fn lane_misalignment_rejected() {
    let a = vec![gray(1); 5];
    let b = vec![gray(2); 5];
    assert_eq!(compare_images_chisquare_glam(&a, &b), Err(CoreError::LaneAlignmentError));
    let c = vec![gray(2); 4];
    assert_eq!(compare_images_chisquare_glam(&a, &c), Err(CoreError::LaneAlignmentError));
}

#[test]
fn length_mismatch_compares_shorter_prefix() {
    let a = vec![gray(10); 4];
    let mut b = vec![gray(10); 8];
    b[7] = gray(210);
    // the differing tail block lies beyond the shorter grid and is ignored
    let s = compare_images_chisquare(&a, &b);
    assert_eq!(s.sum, 0);
    assert_eq!(s.count, 12);
}

#[test]
fn end_to_end_localized_difference_is_bounded() {
    // Two 100x100 rasters that differ by a constant 50 per channel in one
    // 10x10 region, which is exactly one cell of a 10x10 grid: the score is
    // positive but diluted over 300 comparisons.
    let img1 = raster_from_fn(100, 100, |_, _| gray(100));
    let img2 = raster_from_fn(100, 100, |x, y| {
        if x < 10 && y < 10 {
            gray(150)
        } else {
            gray(100)
        }
    });
    let a = average_gb_blocks(&img1, 10, 10).unwrap();
    let b = average_gb_blocks(&img2, 10, 10).unwrap();
    let s = compare_images_chisquare(&a, &b);
    // one block differs by 50 in each of three channels
    assert_eq!(s.sum, 3 * 50 * 50);
    assert_eq!(s.count, 300);
    let value = score_value(&s);
    assert!(value > 0.0);
    assert!(value < 2500.0);
    assert_eq!(value, 25.0);
}
