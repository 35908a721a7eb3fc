//! The grid comparator: an unnormalized chi-square style divergence between
//! two averaged grids, in a scalar reference form and a lane-parallel form
//! that is proved to produce the same score.
//!
//! The comparators pair the grids position by position up to the shorter
//! length, square each per-channel difference, and accumulate. All channel
//! values are 8-bit, so the accumulated sum is an exact integer; a [`Score`]
//! keeps the sum and the number of comparisons separately, and the familiar
//! real-valued score is their quotient. Because both variants return the
//! same exact pair, the divided scores agree bit for bit, not merely within
//! a tolerance.

use vstd::prelude::*;
use vstd::arithmetic::div_mod::lemma_fundamental_div_mod;
use vstd::arithmetic::div_mod::lemma_fundamental_div_mod_converse;

use crate::average::channel;
use crate::error::CoreError;
use crate::raster::Rgb;

verus! {

/// A divergence score as an exact rational: the sum of squared channel
/// differences over the number of channel comparisons performed. The
/// real-valued score is `sum / count`; `sum == 0` means the compared grids
/// agree at every paired position.
#[derive(Clone, Copy, PartialEq, Eq, Structural, Debug)]
pub struct Score {
    pub sum: u64,
    pub count: u64,
}

/// How many blocks the comparators pair: the shorter of the two lengths.
pub open spec fn min_len(a: Seq<Rgb>, b: Seq<Rgb>) -> int {
    if a.len() <= b.len() {
        a.len() as int
    } else {
        b.len() as int
    }
}

/// Squared difference of one observed channel value against an expected one.
pub open spec fn sq_diff(e: int, o: int) -> int {
    (o - e) * (o - e)
}

/// Squared differences of one observed block against an expected block,
/// summed over the three channels.
pub open spec fn block_sq_diff(e: Rgb, o: Rgb) -> int {
    sq_diff(e.r as int, o.r as int) + sq_diff(e.g as int, o.g as int) + sq_diff(
        e.b as int,
        o.b as int,
    )
}

/// Sum of squared channel differences over the first `n` paired blocks.
pub open spec fn chi_sum_prefix(a: Seq<Rgb>, b: Seq<Rgb>, n: int) -> int
    decreases n,
{
    if n <= 0 {
        0
    } else {
        chi_sum_prefix(a, b, n - 1) + block_sq_diff(a[n - 1], b[n - 1])
    }
}

/// The divergence numerator: squared channel differences summed over all
/// paired blocks.
pub open spec fn chi_sum(a: Seq<Rgb>, b: Seq<Rgb>) -> int {
    chi_sum_prefix(a, b, min_len(a, b))
}

/// Channel `m % 3` of block `m / 3`: the grid flattened to one channel
/// value per index, blocks in order, channels red, green, blue within a
/// block.
pub open spec fn flat_channel(g: Seq<Rgb>, m: int) -> int {
    channel(g[m / 3], m % 3)
}

/// Sum of squared differences over the first `m` flattened channel values.
pub open spec fn flat_sum(a: Seq<Rgb>, b: Seq<Rgb>, m: int) -> int
    decreases m,
{
    if m <= 0 {
        0
    } else {
        flat_sum(a, b, m - 1) + sq_diff(flat_channel(a, m - 1), flat_channel(b, m - 1))
    }
}

/// Flattened accumulation groups the same terms as block-wise accumulation:
/// three flattened values per block.
proof fn lemma_flat_sum_blocks(a: Seq<Rgb>, b: Seq<Rgb>, n: int)
    requires
        0 <= n,
    ensures
        flat_sum(a, b, 3 * n) == chi_sum_prefix(a, b, n),
    decreases n,
{
    if n > 0 {
        lemma_flat_sum_blocks(a, b, n - 1);
        lemma_fundamental_div_mod_converse(3 * n - 3, 3, n - 1, 0);
        lemma_fundamental_div_mod_converse(3 * n - 2, 3, n - 1, 1);
        lemma_fundamental_div_mod_converse(3 * n - 1, 3, n - 1, 2);
        assert(flat_sum(a, b, 3 * n - 2) == flat_sum(a, b, 3 * n - 3) + sq_diff(
            flat_channel(a, 3 * n - 3),
            flat_channel(b, 3 * n - 3),
        ));
        assert(flat_sum(a, b, 3 * n - 1) == flat_sum(a, b, 3 * n - 2) + sq_diff(
            flat_channel(a, 3 * n - 2),
            flat_channel(b, 3 * n - 2),
        ));
        assert(flat_sum(a, b, 3 * n) == flat_sum(a, b, 3 * n - 1) + sq_diff(
            flat_channel(a, 3 * n - 1),
            flat_channel(b, 3 * n - 1),
        ));
    }
}

/// Law: a grid compared against itself diverges by zero; in particular the
/// grid of any raster, averaged twice with the same segment counts, scores
/// exactly zero against itself.
pub proof fn lemma_compare_self_zero(g: Seq<Rgb>)
    ensures
        chi_sum(g, g) == 0,
{
    lemma_chi_sum_prefix_self_zero(g, g.len() as int);
}

proof fn lemma_chi_sum_prefix_self_zero(g: Seq<Rgb>, n: int)
    ensures
        chi_sum_prefix(g, g, n) == 0,
    decreases n,
{
    if n > 0 {
        lemma_chi_sum_prefix_self_zero(g, n - 1);
    }
}

/// Law: the unnormalized divergence is symmetric; swapping the expected and
/// the observed grid leaves both the sum and the comparison count unchanged.
pub proof fn lemma_compare_symmetric(a: Seq<Rgb>, b: Seq<Rgb>)
    ensures
        chi_sum(a, b) == chi_sum(b, a),
        min_len(a, b) == min_len(b, a),
{
    lemma_chi_sum_prefix_symmetric(a, b, min_len(a, b));
}

proof fn lemma_chi_sum_prefix_symmetric(a: Seq<Rgb>, b: Seq<Rgb>, n: int)
    ensures
        chi_sum_prefix(a, b, n) == chi_sum_prefix(b, a, n),
    decreases n,
{
    if n > 0 {
        lemma_chi_sum_prefix_symmetric(a, b, n - 1);
        assert forall|e: int, o: int| sq_diff(e, o) == sq_diff(o, e) by {
            assert((o - e) * (o - e) == (e - o) * (e - o)) by (nonlinear_arith);
        }
    }
}

/// Law: a divergence is never negative.
pub proof fn lemma_chi_sum_nonneg(a: Seq<Rgb>, b: Seq<Rgb>)
    ensures
        0 <= chi_sum(a, b),
{
    lemma_chi_sum_prefix_nonneg(a, b, min_len(a, b));
}

proof fn lemma_chi_sum_prefix_nonneg(a: Seq<Rgb>, b: Seq<Rgb>, n: int)
    ensures
        0 <= chi_sum_prefix(a, b, n),
    decreases n,
{
    if n > 0 {
        lemma_chi_sum_prefix_nonneg(a, b, n - 1);
        let e = a[n - 1];
        let o = b[n - 1];
        assert(0 <= block_sq_diff(e, o)) by (nonlinear_arith);
    }
}

/// Squared channel differences of one paired block, as the comparators
/// compute them.
fn block_sq_diff_exec(e: Rgb, o: Rgb) -> (t: u64)
    ensures
        t == block_sq_diff(e, o),
        t <= 195075,
{
    let dr: i32 = o.r as i32 - e.r as i32;
    let dg: i32 = o.g as i32 - e.g as i32;
    let db: i32 = o.b as i32 - e.b as i32;
    proof {
        lemma_sq_bound(dr as int);
        lemma_sq_bound(dg as int);
        lemma_sq_bound(db as int);
    }
    (dr * dr) as u64 + (dg * dg) as u64 + (db * db) as u64
}

proof fn lemma_sq_bound(d: int) by (nonlinear_arith)
    requires
        -255 <= d <= 255,
    ensures
        0 <= d * d <= 65025,
{
}

/// Compares two averaged grids position by position, squaring each channel
/// difference of the second (observed) grid against the first (expected)
/// and accumulating sequentially. Pairing stops at the shorter grid; the
/// count records the `3 * blocks` channel comparisons performed.
///
/// The accumulator is 64-bit and each paired block adds at most
/// `3 * 255 * 255 == 195075`, whence the bound on the paired length.
#[verifier::loop_isolation(false)]
pub fn compare_images_chisquare(img1: &Vec<Rgb>, img2: &Vec<Rgb>) -> (r: Score)
    requires
        195075 * min_len(img1@, img2@) <= u64::MAX as int,
    ensures
        r.sum == chi_sum(img1@, img2@),
        r.count == 3 * min_len(img1@, img2@),
{
    let n: usize = if img1.len() <= img2.len() {
        img1.len()
    } else {
        img2.len()
    };
    let mut sum: u64 = 0;
    let mut k: usize = 0;
    while k < n
        invariant
            k <= n,
            sum == chi_sum_prefix(img1@, img2@, k as int),
            sum <= 195075 * (k as int),
        decreases n - k,
    {
        let t: u64 = block_sq_diff_exec(img1[k], img2[k]);
        sum = sum + t;
        k = k + 1;
    }
    Score { sum, count: 3 * (n as u64) }
}

/// The lane-parallel comparator: the same divergence as
/// [`compare_images_chisquare`], but accumulated into four independent
/// lanes, four flattened channel values per step, as a four-wide vector
/// unit would. Grids whose block count is not a multiple of the lane width
/// are rejected rather than padded. On accepted inputs the result is
/// exactly the scalar result: the same sum and the same count, so the
/// derived real-valued scores are equal bit for bit.
#[verifier::loop_isolation(false)]
pub fn compare_images_chisquare_glam(img1: &Vec<Rgb>, img2: &Vec<Rgb>) -> (r: Result<
    Score,
    CoreError,
>)
    requires
        195075 * min_len(img1@, img2@) <= u64::MAX as int,
    ensures
        match r {
            Ok(s) => {
                &&& img1@.len() % 4 == 0
                &&& img2@.len() % 4 == 0
                &&& s.sum == chi_sum(img1@, img2@)
                &&& s.count == 3 * min_len(img1@, img2@)
            },
            Err(e) => {
                &&& e == CoreError::LaneAlignmentError
                &&& !(img1@.len() % 4 == 0 && img2@.len() % 4 == 0)
            },
        },
{
    if img1.len() % 4 != 0 || img2.len() % 4 != 0 {
        return Err(CoreError::LaneAlignmentError);
    }
    let n: usize = if img1.len() <= img2.len() {
        img1.len()
    } else {
        img2.len()
    };
    let total: u64 = 3 * (n as u64);
    proof {
        lemma_fundamental_div_mod(n as int, 4);
        lemma_fundamental_div_mod_converse(3 * (n as int), 4, 3 * ((n as int) / 4), 0);
    }
    let chunks: u64 = total / 4;
    let mut lane0: u64 = 0;
    let mut lane1: u64 = 0;
    let mut lane2: u64 = 0;
    let mut lane3: u64 = 0;
    let mut k: u64 = 0;
    while k < chunks
        invariant
            k <= chunks,
            lane0 + lane1 + lane2 + lane3 == flat_sum(img1@, img2@, 4 * (k as int)),
            lane0 <= 65025 * (k as int),
            lane1 <= 65025 * (k as int),
            lane2 <= 65025 * (k as int),
            lane3 <= 65025 * (k as int),
        decreases chunks - k,
    {
        let t0: u64 = flat_sq_term(img1, img2, 4 * k);
        let t1: u64 = flat_sq_term(img1, img2, 4 * k + 1);
        let t2: u64 = flat_sq_term(img1, img2, 4 * k + 2);
        let t3: u64 = flat_sq_term(img1, img2, 4 * k + 3);
        lane0 = lane0 + t0;
        lane1 = lane1 + t1;
        lane2 = lane2 + t2;
        lane3 = lane3 + t3;
        proof {
            let a: Seq<Rgb> = img1@;
            let b: Seq<Rgb> = img2@;
            let m0: int = 4 * (k as int);
            assert(flat_sum(a, b, m0 + 1) == flat_sum(a, b, m0) + sq_diff(
                flat_channel(a, m0),
                flat_channel(b, m0),
            ));
            assert(flat_sum(a, b, m0 + 2) == flat_sum(a, b, m0 + 1) + sq_diff(
                flat_channel(a, m0 + 1),
                flat_channel(b, m0 + 1),
            ));
            assert(flat_sum(a, b, m0 + 3) == flat_sum(a, b, m0 + 2) + sq_diff(
                flat_channel(a, m0 + 2),
                flat_channel(b, m0 + 2),
            ));
            assert(flat_sum(a, b, m0 + 4) == flat_sum(a, b, m0 + 3) + sq_diff(
                flat_channel(a, m0 + 3),
                flat_channel(b, m0 + 3),
            ));
        }
        k = k + 1;
    }
    proof {
        lemma_flat_sum_blocks(img1@, img2@, n as int);
    }
    let sum: u64 = lane0 + lane1 + lane2 + lane3;
    Ok(Score { sum, count: total })
}

/// One flattened term of the divergence: the squared difference at channel
/// `m % 3` of block `m / 3`.
fn flat_sq_term(img1: &Vec<Rgb>, img2: &Vec<Rgb>, m: u64) -> (t: u64)
    requires
        (m as int) / 3 < img1@.len(),
        (m as int) / 3 < img2@.len(),
    ensures
        t == sq_diff(flat_channel(img1@, m as int), flat_channel(img2@, m as int)),
        t <= 65025,
{
    proof {
        vstd::std_specs::vec::axiom_spec_len(img1);
        vstd::std_specs::vec::axiom_spec_len(img2);
    }
    let bi: usize = (m / 3) as usize;
    let c: u64 = m % 3;
    let e: u8 = if c == 0 {
        img1[bi].r
    } else if c == 1 {
        img1[bi].g
    } else {
        img1[bi].b
    };
    let o: u8 = if c == 0 {
        img2[bi].r
    } else if c == 1 {
        img2[bi].g
    } else {
        img2[bi].b
    };
    let d: i32 = o as i32 - e as i32;
    proof {
        lemma_sq_bound(d as int);
    }
    (d * d) as u64
}

} // verus!
