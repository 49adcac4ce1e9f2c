//! Frame-stitching engine for scrolling capture. Operates on RGBA frames of
//! identical dimensions, in physical pixels. No I/O.

use vstd::prelude::*;
use crate::frame::{FrameView, GrayFrame, GrayView, Rgba, RgbaFrame, gray_bytes};
use crate::score_bits::{ge_bits, is_finite_bits, lt_bits, sp_ge, sp_is_finite, sp_is_nan, sp_lt};
use crate::vision::{edge_view, edges, match_template_ncc, ncc_scores};

verus! {

/// Tuning of the stitcher.
#[derive(Clone, Copy, Debug)]
pub struct StitchConfig {
    /// Template height as a fraction of the effective frame height, in
    /// thousandths (at least 32 rows).
    pub template_ratio_permille: u32,
    /// Match scores below this are not trusted; a single-precision number
    /// given by its bit pattern.
    pub min_confidence_bits: u32,
    /// Search only within this many rows of the expected position.
    pub inertia_px: u32,
    /// After this many consecutive low-confidence frames, hard-append.
    pub max_lowconf_streak: u32,
}

/// Bit pattern of one half, the default minimum confidence.
pub const DEFAULT_MIN_CONFIDENCE_BITS: u32 = 0x3f00_0000;

impl Default for StitchConfig {
    /// A fifth of the frame as template, confidence at least one half,
    /// 500 rows of inertia, hard-append after 3 unmatched frames.
    fn default() -> (cfg: Self)
        ensures
            cfg.template_ratio_permille == 200,
            cfg.min_confidence_bits == DEFAULT_MIN_CONFIDENCE_BITS,
            cfg.inertia_px == 500,
            cfg.max_lowconf_streak == 3,
    {
        StitchConfig {
            template_ratio_permille: 200,
            min_confidence_bits: DEFAULT_MIN_CONFIDENCE_BITS,
            inertia_px: 500,
            max_lowconf_streak: 3,
        }
    }
}

// ---------------------------------------------------------------------------
// Template height
// ---------------------------------------------------------------------------

/// `a - b`, or 0 when `b` exceeds `a`.
pub open spec fn sat_sub(a: int, b: int) -> int {
    if a >= b {
        a - b
    } else {
        0
    }
}

/// Template rows for an effective frame `eff_h` rows tall: the configured
/// fraction of it, at least 32 rows, but leaving at least 8 rows of slack.
pub open spec fn template_height_spec(eff_h: int, cfg: StitchConfig) -> int {
    let scaled = eff_h * cfg.template_ratio_permille / 1000;
    let capped = if scaled > u32::MAX {
        u32::MAX as int
    } else {
        scaled
    };
    let at_least = if capped > 32 {
        capped
    } else {
        32
    };
    let slack = sat_sub(eff_h, 8);
    if at_least < slack {
        at_least
    } else {
        slack
    }
}

pub fn template_height(eff_h: u32, cfg: &StitchConfig) -> (t: u32)
    ensures
        t == template_height_spec(eff_h as int, *cfg),
        t <= sat_sub(eff_h as int, 8),
        t <= eff_h,
{
    proof {
        crate::frame::lemma_u32_product_bound(eff_h, cfg.template_ratio_permille);
    }
    let scaled: u64 = (eff_h as u64) * (cfg.template_ratio_permille as u64) / 1000;
    let capped: u32 = if scaled > u32::MAX as u64 {
        u32::MAX
    } else {
        scaled as u32
    };
    let at_least: u32 = if capped > 32 {
        capped
    } else {
        32
    };
    let slack: u32 = eff_h.saturating_sub(8);
    if at_least < slack {
        at_least
    } else {
        slack
    }
}

// ---------------------------------------------------------------------------
// Sampled comparison of two frames
// ---------------------------------------------------------------------------

pub open spec fn abs_diff(a: u8, b: u8) -> int {
    if a >= b {
        a - b
    } else {
        b - a
    }
}

/// Sum of absolute differences of the red, green and blue channels.
pub open spec fn px_diff(p: Rgba, q: Rgba) -> int {
    abs_diff(p.r, q.r) + abs_diff(p.g, q.g) + abs_diff(p.b, q.b)
}

/// How many of the positions `0, step, 2 * step, ...` lie below `len`.
pub open spec fn samples(len: int, step: int) -> int {
    (len + step - 1) / step
}

/// Sum of `px_diff` over the first `n` sampled pixels (every 8th column) of
/// row `y`.
pub open spec fn row_sample_sum(a: FrameView, b: FrameView, y: int, n: int) -> int
    decreases n,
{
    if n <= 0 {
        0
    } else {
        row_sample_sum(a, b, y, n - 1) + px_diff(a.rows[y][8 * (n - 1)], b.rows[y][8 * (n - 1)])
    }
}

/// Sum of `row_sample_sum` over the first `m` sampled rows (every 8th row).
pub open spec fn grid_sample_sum(a: FrameView, b: FrameView, m: int, nx: int) -> int
    decreases m,
{
    if m <= 0 {
        0
    } else {
        grid_sample_sum(a, b, m - 1, nx) + row_sample_sum(a, b, 8 * (m - 1), nx)
    }
}

/// Frames of the same size whose mean absolute channel difference over the
/// grid of every 8th row and column is below 2.
pub open spec fn nearly_equal_spec(a: FrameView, b: FrameView) -> bool {
    let nx = samples(a.width as int, 8);
    let ny = samples(a.height() as int, 8);
    a.same_dims(b) && grid_sample_sum(a, b, ny, nx) < 6 * (nx * ny)
}

fn abs_diff_exec(a: u8, b: u8) -> (d: u32)
    ensures
        d == abs_diff(a, b),
{
    if a >= b {
        (a - b) as u32
    } else {
        (b - a) as u32
    }
}

fn px_diff_exec(p: Rgba, q: Rgba) -> (d: u32)
    ensures
        d == px_diff(p, q),
{
    abs_diff_exec(p.r, q.r) + abs_diff_exec(p.g, q.g) + abs_diff_exec(p.b, q.b)
}

/// Cheap sampled comparison: mean absolute channel difference over a sparse
/// grid. Used to drop frames where the user hasn't scrolled yet.
pub fn frames_nearly_equal(a: &RgbaFrame, b: &RgbaFrame) -> (r: bool)
    ensures
        r == nearly_equal_spec(a@, b@),
{
    let (w, h) = a.dimensions();
    let (bw, bh) = b.dimensions();
    if w != bw || h != bh {
        return false;
    }
    let nx: u64 = (w as u64 + 7) / 8;
    let ny: u64 = (h as u64 + 7) / 8;
    let mut total: u128 = 0;
    let mut j: u64 = 0;
    while j < ny
        invariant
            a@.wf(),
            b@.wf(),
            a@.same_dims(b@),
            w == a@.width,
            h == a@.height(),
            nx == samples(w as int, 8),
            ny == samples(h as int, 8),
            j <= ny,
            total == grid_sample_sum(a@, b@, j as int, nx as int),
            total <= 765 * (nx * j),
        decreases ny - j,
    {
        let y: u32 = (8 * j) as u32;
        let mut row_total: u128 = 0;
        let mut k: u64 = 0;
        while k < nx
            invariant
                a@.wf(),
                b@.wf(),
                a@.same_dims(b@),
                w == a@.width,
                h == a@.height(),
                nx == samples(w as int, 8),
                y < h,
                k <= nx,
                row_total == row_sample_sum(a@, b@, y as int, k as int),
                row_total <= 765 * k,
            decreases nx - k,
        {
            let x: u32 = (8 * k) as u32;
            let d = px_diff_exec(a.get_pixel(x, y), b.get_pixel(x, y));
            row_total = row_total + d as u128;
            k += 1;
        }
        proof {
            assert(765 * (nx * j) + 765 * nx == 765 * (nx * (j + 1))) by (nonlinear_arith);
            assert(765 * (nx * (j + 1)) <= 765 * (0x2000_0000 * 0x2000_0000)) by (nonlinear_arith)
                requires
                    nx <= 0x2000_0000,
                    j + 1 <= 0x2000_0000,
            ;
        }
        total = total + row_total;
        j += 1;
    }
    proof {
        assert(nx * ny <= 0x2000_0000 * 0x2000_0000) by (nonlinear_arith)
            requires
                nx <= 0x2000_0000,
                ny <= 0x2000_0000,
        ;
    }
    let count: u128 = 3 * ((nx as u128) * (ny as u128));
    total < 2 * count
}

/// The comparison does not depend on the order of its arguments.
pub proof fn lemma_nearly_equal_symmetric(a: FrameView, b: FrameView)
    ensures
        nearly_equal_spec(a, b) == nearly_equal_spec(b, a),
{
    let nx = samples(a.width as int, 8);
    let ny = samples(a.height() as int, 8);
    if a.same_dims(b) {
        lemma_grid_sum_symmetric(a, b, ny, nx);
    }
}

proof fn lemma_row_sum_symmetric(a: FrameView, b: FrameView, y: int, n: int)
    ensures
        row_sample_sum(a, b, y, n) == row_sample_sum(b, a, y, n),
    decreases n,
{
    if n > 0 {
        lemma_row_sum_symmetric(a, b, y, n - 1);
    }
}

proof fn lemma_grid_sum_symmetric(a: FrameView, b: FrameView, m: int, nx: int)
    ensures
        grid_sample_sum(a, b, m, nx) == grid_sample_sum(b, a, m, nx),
    decreases m,
{
    if m > 0 {
        lemma_grid_sum_symmetric(a, b, m - 1, nx);
        lemma_row_sum_symmetric(a, b, 8 * (m - 1), nx);
    }
}

proof fn lemma_row_sum_self(a: FrameView, y: int, n: int)
    ensures
        row_sample_sum(a, a, y, n) == 0,
    decreases n,
{
    if n > 0 {
        lemma_row_sum_self(a, y, n - 1);
    }
}

proof fn lemma_grid_sum_self(a: FrameView, m: int, nx: int)
    ensures
        grid_sample_sum(a, a, m, nx) == 0,
    decreases m,
{
    if m > 0 {
        lemma_grid_sum_self(a, m - 1, nx);
        lemma_row_sum_self(a, 8 * (m - 1), nx);
    }
}

/// A non-empty frame is nearly equal to itself; an empty one is not (its
/// mean difference over no samples is undefined).
pub proof fn lemma_nearly_equal_reflexive(a: FrameView)
    ensures
        nearly_equal_spec(a, a) <==> (a.width > 0 && a.height() > 0),
{
    let nx = samples(a.width as int, 8);
    let ny = samples(a.height() as int, 8);
    lemma_grid_sum_self(a, ny, nx);
    if a.width > 0 && a.height() > 0 {
        assert(nx * ny > 0) by (nonlinear_arith)
            requires
                nx > 0,
                ny > 0,
        ;
    } else {
        assert(nx * ny == 0) by (nonlinear_arith)
            requires
                nx == 0 || ny == 0,
        ;
    }
}

/// How many of the positions `0 .. n` are multiples of `step`.
pub open spec fn multiples_below(n: int, step: int) -> int
    decreases n,
{
    if n <= 0 {
        0
    } else {
        multiples_below(n - 1, step) + if (n - 1) % step == 0 {
            1int
        } else {
            0int
        }
    }
}

/// Sum of `px_diff` over the pixels of row `y` left of column `n` whose
/// column is a multiple of 8.
pub open spec fn row_grid_total(a: FrameView, b: FrameView, y: int, n: int) -> int
    decreases n,
{
    if n <= 0 {
        0
    } else {
        row_grid_total(a, b, y, n - 1) + if (n - 1) % 8 == 0 {
            px_diff(a.rows[y][n - 1], b.rows[y][n - 1])
        } else {
            0
        }
    }
}

/// Sum of `px_diff` over the pixels above row `m` whose column and row are
/// both multiples of 8.
pub open spec fn grid_total(a: FrameView, b: FrameView, m: int) -> int
    decreases m,
{
    if m <= 0 {
        0
    } else {
        grid_total(a, b, m - 1) + if (m - 1) % 8 == 0 {
            row_grid_total(a, b, m - 1, a.width as int)
        } else {
            0
        }
    }
}

proof fn lemma_multiples_below(n: int, step: int)
    requires
        n >= 0,
        step == 4 || step == 8,
    ensures
        multiples_below(n, step) == samples(n, step),
    decreases n,
{
    if n > 0 {
        lemma_multiples_below(n - 1, step);
        let m = n - 1;
        if step == 4 {
            assert((m + 4) / 4 - (m + 3) / 4 == if m % 4 == 0 { 1int } else { 0int });
        } else {
            assert((m + 8) / 8 - (m + 7) / 8 == if m % 8 == 0 { 1int } else { 0int });
        }
    }
}

proof fn lemma_row_grid_total(a: FrameView, b: FrameView, y: int, n: int)
    requires
        n >= 0,
    ensures
        row_grid_total(a, b, y, n) == row_sample_sum(a, b, y, samples(n, 8)),
    decreases n,
{
    if n > 0 {
        lemma_row_grid_total(a, b, y, n - 1);
        let m = n - 1;
        if m % 8 == 0 {
            assert(samples(n, 8) == samples(m, 8) + 1);
            assert(8 * (samples(n, 8) - 1) == m);
        } else {
            assert(samples(n, 8) == samples(m, 8));
        }
    }
}

proof fn lemma_grid_total(a: FrameView, b: FrameView, m: int)
    requires
        m >= 0,
    ensures
        grid_total(a, b, m) == grid_sample_sum(a, b, samples(m, 8), samples(a.width as int, 8)),
    decreases m,
{
    if m > 0 {
        lemma_grid_total(a, b, m - 1);
        let k = m - 1;
        if k % 8 == 0 {
            assert(samples(m, 8) == samples(k, 8) + 1);
            assert(8 * (samples(m, 8) - 1) == k);
            lemma_row_grid_total(a, b, k, a.width as int);
        } else {
            assert(samples(m, 8) == samples(k, 8));
        }
    }
}

/// Two frames are nearly equal exactly when they have the same size and the
/// mean of the red, green and blue differences over every pixel whose
/// column and row are both multiples of 8, across the whole frame, is below
/// 2.
pub proof fn lemma_nearly_equal_is_grid_mean(a: FrameView, b: FrameView)
    ensures
        nearly_equal_spec(a, b) <==> a.same_dims(b) && grid_total(a, b, a.height() as int) < 2 * (3
            * (multiples_below(a.width as int, 8) * multiples_below(a.height() as int, 8))),
{
    lemma_multiples_below(a.width as int, 8);
    lemma_multiples_below(a.height() as int, 8);
    lemma_grid_total(a, b, a.height() as int);
}

// ---------------------------------------------------------------------------
// Vertical stacking
// ---------------------------------------------------------------------------

/// `top` with `bottom` appended under it. Both must be equally wide.
pub fn vstack(top: &RgbaFrame, bottom: &RgbaFrame) -> (out: RgbaFrame)
    requires
        top@.width == bottom@.width,
        top@.height() + bottom@.height() <= u32::MAX,
    ensures
        out@ == top@.stacked(bottom@),
{
    top.stacked(bottom)
}

/// Cutting a frame at any row and stacking the two parts gives the frame
/// back.
pub proof fn lemma_split_then_stack(f: FrameView, k: int)
    requires
        0 <= k <= f.height(),
    ensures
        f.crop_rows(0, k).stacked(f.crop_rows(k, f.height() - k)) == f,
{
    assert(f.rows.subrange(0, k) + f.rows.subrange(k, f.height() as int) =~= f.rows);
}

/// Stacking is associative.
pub proof fn lemma_stack_associative(a: FrameView, b: FrameView, c: FrameView)
    ensures
        a.stacked(b).stacked(c) == a.stacked(b.stacked(c)),
{
    assert(a.rows + b.rows + c.rows =~= a.rows + (b.rows + c.rows));
}

// ---------------------------------------------------------------------------
// Sticky header and footer detection
// ---------------------------------------------------------------------------

/// Some channel of the two pixels differs by more than 10.
pub open spec fn far_apart(p: Rgba, q: Rgba) -> bool {
    abs_diff(p.r, q.r) > 10 || abs_diff(p.g, q.g) > 10 || abs_diff(p.b, q.b) > 10
}

/// How many of the first `n` sampled pixels (every 4th column) of row `y`
/// are `far_apart`.
pub open spec fn row_far_count(a: FrameView, b: FrameView, y: int, n: int) -> int
    decreases n,
{
    if n <= 0 {
        0
    } else {
        row_far_count(a, b, y, n - 1) + if far_apart(a.rows[y][4 * (n - 1)], b.rows[y][4 * (n - 1)]) {
            1int
        } else {
            0int
        }
    }
}

/// Row `y` is the same in both frames: fewer than 2% of its sampled pixels
/// differ.
pub open spec fn row_same(a: FrameView, b: FrameView, y: int) -> bool {
    let n = samples(a.width as int, 4);
    50 * row_far_count(a, b, y, n) < n
}

/// Row `k` counted from the bottom is the same in both frames.
pub open spec fn row_same_from_bottom(a: FrameView, b: FrameView, k: int) -> bool {
    row_same(a, b, a.height() - 1 - k)
}

/// Each sticky band is capped at 30% of the frame height.
pub open spec fn sticky_cap(h: int) -> int {
    h * 3 / 10
}

/// Length of the run of same rows from the top, starting the count at `i`,
/// stopping at `cap`.
pub open spec fn same_run_top(a: FrameView, b: FrameView, cap: int, i: int) -> int
    decreases cap - i,
{
    if i >= cap || !row_same(a, b, i) {
        i
    } else {
        same_run_top(a, b, cap, i + 1)
    }
}

/// Length of the run of same rows from the bottom, starting the count at `i`,
/// stopping at `cap`.
pub open spec fn same_run_bottom(a: FrameView, b: FrameView, cap: int, i: int) -> int
    decreases cap - i,
{
    if i >= cap || !row_same_from_bottom(a, b, i) {
        i
    } else {
        same_run_bottom(a, b, cap, i + 1)
    }
}

/// `(top, bottom)` row counts of fixed UI chrome shared by two frames.
pub open spec fn sticky_spec(a: FrameView, b: FrameView) -> (u32, u32) {
    let cap = sticky_cap(a.height() as int);
    (same_run_top(a, b, cap, 0) as u32, same_run_bottom(a, b, cap, 0) as u32)
}

proof fn lemma_run_top_bounds(a: FrameView, b: FrameView, cap: int, i: int)
    requires
        0 <= i <= cap,
    ensures
        i <= same_run_top(a, b, cap, i) <= cap,
        forall|k: int| i <= k < same_run_top(a, b, cap, i) ==> row_same(a, b, k),
        same_run_top(a, b, cap, i) < cap ==> !row_same(a, b, same_run_top(a, b, cap, i)),
    decreases cap - i,
{
    if i < cap && row_same(a, b, i) {
        lemma_run_top_bounds(a, b, cap, i + 1);
    }
}

proof fn lemma_run_bottom_bounds(a: FrameView, b: FrameView, cap: int, i: int)
    requires
        0 <= i <= cap,
    ensures
        i <= same_run_bottom(a, b, cap, i) <= cap,
        forall|k: int| i <= k < same_run_bottom(a, b, cap, i) ==> row_same_from_bottom(a, b, k),
        same_run_bottom(a, b, cap, i) < cap ==> !row_same_from_bottom(
            a,
            b,
            same_run_bottom(a, b, cap, i),
        ),
    decreases cap - i,
{
    if i < cap && row_same_from_bottom(a, b, i) {
        lemma_run_bottom_bounds(a, b, cap, i + 1);
    }
}

/// The two sticky bands never overlap: each is at most 30% of the height.
pub proof fn lemma_sticky_fits(a: FrameView, b: FrameView)
    ensures
        sticky_spec(a, b).0 <= sticky_cap(a.height() as int),
        sticky_spec(a, b).1 <= sticky_cap(a.height() as int),
        sticky_spec(a, b).0 + sticky_spec(a, b).1 <= a.height(),
        forall|k: int| 0 <= k < sticky_spec(a, b).0 ==> row_same(a, b, k),
        forall|k: int| 0 <= k < sticky_spec(a, b).1 ==> row_same_from_bottom(a, b, k),
{
    let cap = sticky_cap(a.height() as int);
    lemma_run_top_bounds(a, b, cap, 0);
    lemma_run_bottom_bounds(a, b, cap, 0);
    assert(2 * cap <= a.height());
}

/// How many pixels of row `y` left of column `n`, in columns that are
/// multiples of 4, are `far_apart` in the two frames.
pub open spec fn far_in_row(a: FrameView, b: FrameView, y: int, n: int) -> int
    decreases n,
{
    if n <= 0 {
        0
    } else {
        far_in_row(a, b, y, n - 1) + if (n - 1) % 4 == 0 && far_apart(
            a.rows[y][n - 1],
            b.rows[y][n - 1],
        ) {
            1int
        } else {
            0int
        }
    }
}

proof fn lemma_far_in_row(a: FrameView, b: FrameView, y: int, n: int)
    requires
        n >= 0,
    ensures
        far_in_row(a, b, y, n) == row_far_count(a, b, y, samples(n, 4)),
    decreases n,
{
    if n > 0 {
        lemma_far_in_row(a, b, y, n - 1);
        let m = n - 1;
        if m % 4 == 0 {
            assert(samples(n, 4) == samples(m, 4) + 1);
            assert(4 * (samples(n, 4) - 1) == m);
        } else {
            assert(samples(n, 4) == samples(m, 4));
        }
    }
}

/// A row is the same in two frames exactly when fewer than 2% of its pixels
/// in the columns that are multiples of 4, across the whole width, have a
/// channel more than 10 apart.
pub proof fn lemma_row_same_is_two_percent(a: FrameView, b: FrameView, y: int)
    ensures
        row_same(a, b, y) <==> 50 * far_in_row(a, b, y, a.width as int) < multiples_below(
            a.width as int,
            4,
        ),
{
    lemma_far_in_row(a, b, y, a.width as int);
    lemma_multiples_below(a.width as int, 4);
}

/// The sticky bands are the runs of rows, from the top and from the bottom,
/// in which fewer than 2% of the every-4th-column pixels across the whole
/// width are far apart, each cut at 30% of the height: every row of a band
/// passes that test, and the row just past a band fails it unless the band
/// reached the cap.
pub proof fn lemma_sticky_bands_are_same_rows(a: FrameView, b: FrameView)
    requires
        a.wf(),
    ensures
        ({
            let w = a.width as int;
            let h = a.height() as int;
            let cap = h * 3 / 10;
            let (top, bottom) = sticky_spec(a, b);
            &&& top <= cap
            &&& bottom <= cap
            &&& forall|k: int|
                0 <= k < top ==> 50 * #[trigger] far_in_row(a, b, k, w) < multiples_below(w, 4)
            &&& top < cap ==> 50 * far_in_row(a, b, top as int, w) >= multiples_below(w, 4)
            &&& forall|y: int|
                h - bottom <= y < h ==> 50 * #[trigger] far_in_row(a, b, y, w) < multiples_below(
                    w,
                    4,
                )
            &&& bottom < cap ==> 50 * far_in_row(a, b, h - 1 - bottom, w) >= multiples_below(w, 4)
        }),
{
    let w = a.width as int;
    let h = a.height() as int;
    let cap = sticky_cap(h);
    lemma_run_top_bounds(a, b, cap, 0);
    lemma_run_bottom_bounds(a, b, cap, 0);
    lemma_far_in_row(a, b, 0, w);
    lemma_multiples_below(w, 4);
    let (top, bottom) = sticky_spec(a, b);
    assert forall|k: int| 0 <= k < top implies 50 * #[trigger] far_in_row(a, b, k, w)
        < multiples_below(w, 4) by {
        lemma_row_same_is_two_percent(a, b, k);
    }
    assert forall|y: int| h - bottom <= y < h implies 50 * #[trigger] far_in_row(a, b, y, w)
        < multiples_below(w, 4) by {
        lemma_row_same_is_two_percent(a, b, y);
        assert(row_same_from_bottom(a, b, h - 1 - y));
    }
    lemma_row_same_is_two_percent(a, b, top as int);
    lemma_row_same_is_two_percent(a, b, h - 1 - bottom);
}

fn row_same_exec(a: &RgbaFrame, b: &RgbaFrame, y: u32) -> (r: bool)
    requires
        a@.same_dims(b@),
        y < a@.height(),
    ensures
        r == row_same(a@, b@, y as int),
{
    let w = a.width();
    proof {
        use_type_invariant(b);
    }
    let n: u64 = (w as u64 + 3) / 4;
    let mut diff: u64 = 0;
    let mut k: u64 = 0;
    while k < n
        invariant
            a@.wf(),
            b@.wf(),
            a@.same_dims(b@),
            w == a@.width,
            y < a@.height(),
            n == samples(w as int, 4),
            k <= n,
            diff == row_far_count(a@, b@, y as int, k as int),
            diff <= k,
        decreases n - k,
    {
        let x: u32 = (4 * k) as u32;
        let pa = a.get_pixel(x, y);
        let pb = b.get_pixel(x, y);
        if abs_diff_exec(pa.r, pb.r) > 10 || abs_diff_exec(pa.g, pb.g) > 10 || abs_diff_exec(
            pa.b,
            pb.b,
        ) > 10 {
            diff += 1;
        }
        k += 1;
    }
    50 * diff < n
}

/// Rows identical between two frames that otherwise differ are fixed UI
/// chrome (sticky headers/footers). Counts consecutive identical rows from
/// the top and bottom; each capped at 30% of frame height.
pub fn detect_sticky(a: &RgbaFrame, b: &RgbaFrame) -> (r: (u32, u32))
    requires
        a@.same_dims(b@),
    ensures
        r == sticky_spec(a@, b@),
        r.0 + r.1 <= a@.height(),
{
    let h = a.height();
    let cap: u32 = ((h as u64) * 3 / 10) as u32;
    proof {
        lemma_run_top_bounds(a@, b@, cap as int, 0);
        lemma_run_bottom_bounds(a@, b@, cap as int, 0);
        lemma_sticky_fits(a@, b@);
    }
    let mut top: u32 = 0;
    while top < cap && row_same_exec(a, b, top)
        invariant
            a@.same_dims(b@),
            h == a@.height(),
            cap == sticky_cap(h as int),
            top <= cap,
            cap <= h,
            same_run_top(a@, b@, cap as int, 0) == same_run_top(a@, b@, cap as int, top as int),
        decreases cap - top,
    {
        top += 1;
    }
    let mut bottom: u32 = 0;
    while bottom < cap && row_same_exec(a, b, h - 1 - bottom)
        invariant
            a@.same_dims(b@),
            h == a@.height(),
            cap == sticky_cap(h as int),
            bottom <= cap,
            cap <= h,
            same_run_bottom(a@, b@, cap as int, 0) == same_run_bottom(
                a@,
                b@,
                cap as int,
                bottom as int,
            ),
        decreases cap - bottom,
    {
        bottom += 1;
    }
    (top, bottom)
}

// ---------------------------------------------------------------------------
// Best match of a score map
// ---------------------------------------------------------------------------

/// `b`, found at index `i`, is what `imageproc`'s `find_extremes` reports as
/// the maximum of the scores `s` (scanned in order, replacing the running
/// maximum only on a strictly greater value): nothing is greater, everything
/// before it is smaller or NaN, and a NaN first score is kept.
pub open spec fn is_first_max(s: Seq<u32>, i: int, b: u32) -> bool {
    &&& 0 <= i < s.len()
    &&& s[i] == b
    &&& sp_is_nan(s[0]) ==> i == 0
    &&& forall|k: int| 0 <= k < s.len() ==> !sp_lt(b, #[trigger] s[k])
    &&& forall|k: int| 0 <= k < i ==> sp_is_nan(#[trigger] s[k]) || sp_lt(s[k], b)
}

/// Index and value of the first maximum of a non-empty score sequence.
pub open spec fn first_max_spec(s: Seq<u32>) -> (int, u32) {
    choose|p: (int, u32)| is_first_max(s, p.0, p.1)
}

/// The first maximum is unique.
pub proof fn lemma_first_max_unique(s: Seq<u32>, i: int, b: u32, j: int, c: u32)
    requires
        is_first_max(s, i, b),
        is_first_max(s, j, c),
    ensures
        i == j,
        b == c,
{
    if i < j {
        assert(sp_is_nan(s[i]) || sp_lt(s[i], c));
        assert(!sp_lt(b, s[j]));
        if sp_is_nan(s[i]) {
            if i > 0 {
                assert(sp_is_nan(s[0]) || sp_lt(s[0], b));
            }
        }
    } else if j < i {
        assert(sp_is_nan(s[j]) || sp_lt(s[j], b));
        assert(!sp_lt(c, s[i]));
        if sp_is_nan(s[j]) {
            if j > 0 {
                assert(sp_is_nan(s[0]) || sp_lt(s[0], c));
            }
        }
    }
}

/// The maximum score and its first index, as `find_extremes` scans them.
fn first_max(scores: &Vec<u32>) -> (r: (usize, u32))
    requires
        scores@.len() > 0,
    ensures
        is_first_max(scores@, r.0 as int, r.1),
        (r.0 as int, r.1) == first_max_spec(scores@),
{
    let mut best: u32 = scores[0];
    let mut idx: usize = 0;
    let mut i: usize = 1;
    while i < scores.len()
        invariant
            1 <= i <= scores@.len(),
            is_first_max(scores@.subrange(0, i as int), idx as int, best),
        decreases scores@.len() - i,
    {
        let v = scores[i];
        let ghost pre = scores@.subrange(0, i as int);
        let ghost next = scores@.subrange(0, i + 1);
        assert(next =~= pre.push(v));
        if lt_bits(best, v) {
            proof {
                assert forall|k: int| 0 <= k < next.len() implies !sp_lt(v, #[trigger] next[k]) by {
                    if k < i {
                        assert(!sp_lt(best, pre[k]));
                    }
                }
                assert forall|k: int| 0 <= k < i implies sp_is_nan(#[trigger] next[k]) || sp_lt(
                    next[k],
                    v,
                ) by {
                    assert(!sp_lt(best, pre[k]));
                }
            }
            best = v;
            idx = i;
        } else {
            proof {
                assert forall|k: int| 0 <= k < next.len() implies !sp_lt(best, #[trigger] next[k]) by {
                    if k < i {
                        assert(!sp_lt(best, pre[k]));
                    }
                }
                assert forall|k: int| 0 <= k < idx implies sp_is_nan(#[trigger] next[k]) || sp_lt(
                    next[k],
                    best,
                ) by {
                    assert(next[k] == pre[k]);
                }
            }
        }
        i += 1;
    }
    proof {
        assert(scores@.subrange(0, i as int) =~= scores@);
        let wit: (int, u32) = (idx as int, best);
        assert(is_first_max(scores@, wit.0, wit.1));
        let p = first_max_spec(scores@);
        lemma_first_max_unique(scores@, idx as int, best, p.0, p.1);
    }
    (idx, best)
}

// ---------------------------------------------------------------------------
// Template search
// ---------------------------------------------------------------------------

/// No gray level reaches 8: a blank area, on which correlation is
/// meaningless.
pub open spec fn gray_flat(g: GrayView) -> bool {
    forall|y: int, x: int| 0 <= y < g.rows.len() && 0 <= x < g.width ==> g.rows[y][x] < 8
}

/// Rows `(lo, hi)` of `new` where the template's top edge may sit: the
/// inertia window around the expected row, or everywhere.
pub open spec fn search_window(h: int, t: int, inertia: int, expected: Option<u32>) -> (int, int) {
    match expected {
        Some(e) => (sat_sub(e as int, inertia), if e + inertia < h - t {
            e + inertia
        } else {
            h - t
        }),
        None => (0, h - t),
    }
}

/// The bottom strip of `prev` that is searched for: `template_height_spec`
/// rows.
pub open spec fn template_of(prev: GrayView, cfg: StitchConfig) -> GrayView {
    let h = prev.height() as int;
    let t = template_height_spec(h, cfg);
    prev.crop_rows(h - t, t)
}

/// The search window's upper end `expected + inertia` fits in 32 bits; it
/// is computed only when there is an expectation and the template is not
/// blank.
pub open spec fn window_fits(prev: GrayView, cfg: StitchConfig, expected: Option<u32>) -> bool {
    match expected {
        Some(e) => gray_flat(template_of(prev, cfg)) || e + cfg.inertia_px <= u32::MAX,
        None => true,
    }
}

/// The bottom template strip of `prev` located in `new`: the row of `new`
/// where the strip's top edge matches best inside the search window, with
/// its correlation score; `None` for a blank strip, an empty window or a
/// score that is not finite.
pub open spec fn overlap_spec(
    prev: GrayView,
    new: GrayView,
    cfg: StitchConfig,
    expected: Option<u32>,
) -> Option<(u32, u32)> {
    let h = prev.height() as int;
    let t = template_height_spec(h, cfg);
    let template = template_of(prev, cfg);
    let (lo, hi) = search_window(h, t, cfg.inertia_px as int, expected);
    if gray_flat(template) || lo > hi {
        None
    } else {
        let search = new.crop_rows(lo, hi - lo + t);
        let scores = ncc_scores(
            prev.width,
            (hi - lo + t) as u32,
            gray_bytes(search.rows),
            prev.width,
            t as u32,
            gray_bytes(template.rows),
        );
        let (idx, conf) = first_max_spec(scores);
        if sp_is_finite(conf) {
            Some(((lo + idx) as u32, conf))
        } else {
            None
        }
    }
}

/// Whether some gray level of `g` reaches `level`.
fn any_at_least(g: &GrayFrame, level: u8) -> (r: bool)
    ensures
        r == exists|y: int, x: int|
            0 <= y < g@.rows.len() && 0 <= x < g@.width && g@.rows[y][x] >= level,
{
    let w = g.width();
    let h = g.height();
    let mut y: u32 = 0;
    while y < h
        invariant
            g@.wf(),
            w == g@.width,
            h == g@.height(),
            y <= h,
            forall|yy: int, x: int| 0 <= yy < y && 0 <= x < w ==> g@.rows[yy][x] < level,
        decreases h - y,
    {
        let mut x: u32 = 0;
        while x < w
            invariant
                g@.wf(),
                w == g@.width,
                h == g@.height(),
                y < h,
                x <= w,
                forall|yy: int, xx: int| 0 <= yy < y && 0 <= xx < w ==> g@.rows[yy][xx] < level,
                forall|xx: int| 0 <= xx < x ==> g@.rows[y as int][xx] < level,
            decreases w - x,
        {
            if g.get_pixel(x, y) >= level {
                return true;
            }
            x += 1;
        }
        y += 1;
    }
    false
}

/// Searches for `prev`'s bottom template strip inside `new` (both edge maps
/// of the same size). Returns the row of `new` where the strip's top edge
/// matches and the match score; the scroll distance is
/// `(h - template_h) - row`. `expected_ty` (from the previous scroll delta)
/// restricts the search to an inertia window, defeating repeated-content
/// false matches.
pub fn find_overlap(
    prev: &GrayFrame,
    new: &GrayFrame,
    cfg: &StitchConfig,
    expected_ty: Option<u32>,
) -> (r: Option<(u32, u32)>)
    requires
        prev@.same_dims(new@),
        window_fits(prev@, *cfg, expected_ty),
    ensures
        r == overlap_spec(prev@, new@, *cfg, expected_ty),
        r matches Some((ty, conf)) ==> {
            let h = prev@.height() as int;
            let t = template_height_spec(h, *cfg);
            let (lo, hi) = search_window(h, t, cfg.inertia_px as int, expected_ty);
            &&& lo <= ty <= hi
            &&& ty + t <= h
            &&& sp_is_finite(conf)
        },
{
    let h = prev.height();
    let w = prev.width();
    proof {
        use_type_invariant(new);
    }
    let t = template_height(h, cfg);
    let template = prev.crop_rows(h - t, t);
    assert(template@.rows.len() == t);
    if !any_at_least(&template, 8) {
        assert(gray_flat(template@));
        return None;
    }
    assert(!gray_flat(template@));
    assert(w >= 1 && t >= 1);
    let (lo, hi): (u32, u32) = match expected_ty {
        Some(exp) => {
            let lo = exp.saturating_sub(cfg.inertia_px);
            let up = exp + cfg.inertia_px;
            let hi = if up < h - t {
                up
            } else {
                h - t
            };
            (lo, hi)
        },
        None => (0, h - t),
    };
    if lo > hi {
        return None;
    }
    let sh: u32 = hi - lo + t;
    let search = new.crop_rows(lo, sh);
    assert(search@.rows.len() == sh);
    let search_raw = search.to_raw();
    let template_raw = template.to_raw();
    let scores = match_template_ncc(w, sh, search_raw, w, t, template_raw);
    proof {
        assert((w - w + 1) * (sh - t + 1) == sh - t + 1) by (nonlinear_arith);
    }
    let (idx, conf) = first_max(&scores);
    if !is_finite_bits(conf) {
        return None;
    }
    Some((lo + idx as u32, conf))
}


/// A blank template strip (no edge level reaches 8) never yields a match,
/// whatever the other frame and the expectation.
pub proof fn lemma_flat_template_rejected(
    prev: GrayView,
    new: GrayView,
    cfg: StitchConfig,
    expected: Option<u32>,
)
    requires
        gray_flat(template_of(prev, cfg)),
    ensures
        overlap_spec(prev, new, cfg, expected) is None,
{
}

/// The search is symmetric around the expected row: when some edge level of
/// the bottom `t` rows of `prev` (the template strip) reaches 8, and with an
/// expected row `e`, the strip is correlated
/// against exactly the candidate rows `r` of `new` with
/// `e - inertia_px <= r <= e + inertia_px` and `0 <= r <= h - t`, that is
/// against rows `max(e - inertia_px, 0)` through
/// `min(e + inertia_px, h - t) + t - 1` of `new`, and the row found is the
/// first best-scoring candidate. Without an expectation, every row
/// `0 ..= h - t` is a candidate.
pub proof fn lemma_search_is_symmetric_around_expected(
    prev: GrayView,
    new: GrayView,
    cfg: StitchConfig,
    expected: Option<u32>,
)
    requires
        exists|y: int, x: int|
            prev.height() - template_height_spec(prev.height() as int, cfg) <= y < prev.height() && 0
                <= x < prev.width && #[trigger] prev.rows[y][x] >= 8,
    ensures
        ({
            let h = prev.height() as int;
            let t = template_height_spec(h, cfg);
            let i = cfg.inertia_px as int;
            let (lo, hi) = match expected {
                Some(e) => (
                    if e >= i {
                        e - i
                    } else {
                        0
                    },
                    if e + i <= h - t {
                        e + i
                    } else {
                        h - t
                    },
                ),
                None => (0, h - t),
            };
            &&& overlap_spec(prev, new, cfg, expected) == if lo > hi {
                None
            } else {
                let scores = ncc_scores(
                    prev.width,
                    (hi - lo + t) as u32,
                    gray_bytes(new.crop_rows(lo, hi - lo + t).rows),
                    prev.width,
                    t as u32,
                    gray_bytes(prev.crop_rows(h - t, t).rows),
                );
                let (idx, conf) = first_max_spec(scores);
                if sp_is_finite(conf) {
                    Some(((lo + idx) as u32, conf))
                } else {
                    None
                }
            }
        }),
{
    let h = prev.height() as int;
    let t = template_height_spec(h, cfg);
    let (y, x) = choose|y: int, x: int|
        h - t <= y < h && 0 <= x < prev.width && #[trigger] prev.rows[y][x] >= 8;
    let tpl = template_of(prev, cfg);
    assert(tpl.rows[y - (h - t)][x] == prev.rows[y][x]);
    assert(!gray_flat(tpl));
}

// ---------------------------------------------------------------------------
// The stitcher
// ---------------------------------------------------------------------------

/// What happened to a pushed frame.
#[derive(Debug)]
pub enum PushResult {
    /// The first frame: it becomes the canvas.
    First,
    /// A trusted match: this many new rows were appended.
    AppendedRows(u32),
    /// No scroll since the last accepted frame.
    SkippedDuplicate,
    /// No trusted match; the frame was dropped.
    SkippedLowConfidence,
    /// Too many frames in a row without a trusted match: the whole effective
    /// frame was appended.
    HardAppended,
}

/// Mathematical state of a `Stitcher`.
pub struct StitchState {
    pub cfg: StitchConfig,
    /// Stitched image so far, without the sticky footer.
    pub canvas: Option<FrameView>,
    /// Last accepted frame.
    pub last: Option<FrameView>,
    /// `(top, bottom)` sticky row counts, detected once from the first
    /// scrolled pair.
    pub sticky: Option<(u32, u32)>,
    /// Sticky footer strip, re-appended once at the end.
    pub footer: Option<FrameView>,
    /// Rows appended by the last trusted match.
    pub last_delta: Option<u32>,
    /// Consecutive frames without a trusted match.
    pub lowconf_streak: u32,
}

pub open spec fn opt_height(f: Option<FrameView>) -> nat {
    match f {
        Some(v) => v.height(),
        None => 0,
    }
}

/// Height of the image the stitcher would produce now.
pub open spec fn out_height(s: StitchState) -> nat {
    opt_height(s.canvas) + opt_height(s.footer)
}

/// The image the stitcher produces: the canvas with the footer under it.
pub open spec fn finished_view(s: StitchState) -> FrameView {
    match s.footer {
        Some(ft) => s.canvas.unwrap().stacked(ft),
        None => s.canvas.unwrap(),
    }
}

/// The part of a frame between the sticky header and footer.
pub open spec fn effective_view(f: FrameView, sticky: Option<(u32, u32)>) -> FrameView {
    let (top, bottom) = match sticky {
        Some(p) => p,
        None => (0u32, 0u32),
    };
    f.crop_rows(top as int, f.height() - top - bottom)
}

/// Invariant of a stitcher that has accepted the frame `l` last.
pub open spec fn running_wf(s: StitchState, l: FrameView) -> bool {
    &&& l.wf()
    &&& s.canvas.unwrap().wf()
    &&& s.canvas.unwrap().width == l.width
    &&& s.sticky is None ==> s.footer is None && s.canvas.unwrap() == l
    &&& s.sticky matches Some((t, b)) ==> t + b <= l.height()
    &&& s.footer matches Some(ft) ==> ft.wf() && ft.width == l.width
}

/// Invariant of a stitcher.
pub open spec fn stitcher_wf(s: StitchState) -> bool {
    &&& (s.canvas is Some) == (s.last is Some)
    &&& s.last is None ==> {
        &&& s.sticky is None
        &&& s.footer is None
        &&& s.last_delta is None
        &&& s.lowconf_streak == 0
    }
    &&& s.last matches Some(l) ==> running_wf(s, l)
    &&& out_height(s) <= u32::MAX
    &&& s.lowconf_streak == 0 || s.lowconf_streak < s.cfg.max_lowconf_streak
}

/// Frames the stitcher can take: the size of the frames before it, an
/// output whose height stays within 32 bits, and a search window whose
/// upper end does too.
pub open spec fn push_fits(s: StitchState, f: FrameView) -> bool {
    &&& out_height(push_step(s, f).0) <= u32::MAX
    &&& s.last matches Some(l) ==> f.same_dims(l) && (!nearly_equal_spec(f, l) ==> {
        let s1 = with_sticky(s, l, f);
        let prev_rgba = effective_view(l, s1.sticky);
        let eff_h = prev_rgba.height() as int;
        window_fits(
            edge_view(prev_rgba),
            s.cfg,
            expected_row(eff_h, template_height_spec(eff_h, s.cfg), s.last_delta),
        )
    })
}

/// The state after the sticky bands are known: on the first scrolled pair
/// they are detected, and the footer is cut off the canvas (it is put back
/// once, at the end).
pub open spec fn with_sticky(s: StitchState, last: FrameView, f: FrameView) -> StitchState {
    if s.sticky is Some {
        s
    } else {
        let (t, b) = sticky_spec(last, f);
        if b > 0 {
            let c = s.canvas.unwrap();
            let h = c.height() as int;
            StitchState {
                sticky: Some((t, b)),
                footer: Some(c.crop_rows(h - b, b as int)),
                canvas: Some(c.crop_rows(0, h - b)),
                ..s
            }
        } else {
            StitchState { sticky: Some((t, b)), ..s }
        }
    }
}

/// Row where the template is expected, from the previous scroll distance.
pub open spec fn expected_row(eff_h: int, t: int, last_delta: Option<u32>) -> Option<u32> {
    match last_delta {
        Some(d) => Some(sat_sub(eff_h - t, d as int) as u32),
        None => None,
    }
}

/// A trusted match at row `ty`: the rows scrolled into view are appended,
/// or nothing happens when the frame did not move.
pub open spec fn matched_step(
    s1: StitchState,
    f: FrameView,
    new_rgba: FrameView,
    eff_h: int,
    t: int,
    ty: u32,
) -> (StitchState, PushResult) {
    let delta = sat_sub(eff_h - t, ty as int);
    if delta == 0 {
        (s1, PushResult::SkippedDuplicate)
    } else {
        (
            StitchState {
                canvas: Some(s1.canvas.unwrap().stacked(new_rgba.crop_rows(eff_h - delta, delta))),
                last: Some(f),
                last_delta: Some(delta as u32),
                lowconf_streak: 0,
                ..s1
            },
            PushResult::AppendedRows(delta as u32),
        )
    }
}

/// No trusted match: the frame is dropped, unless it ends a streak of
/// `max_lowconf_streak` such frames, in which case the whole effective frame
/// is appended (a seam beats losing the content).
pub open spec fn unmatched_step(
    s: StitchState,
    s1: StitchState,
    f: FrameView,
    new_rgba: FrameView,
) -> (StitchState, PushResult) {
    if s.lowconf_streak + 1 >= s.cfg.max_lowconf_streak {
        (
            StitchState {
                canvas: Some(s1.canvas.unwrap().stacked(new_rgba)),
                last: Some(f),
                last_delta: None,
                lowconf_streak: 0,
                ..s1
            },
            PushResult::HardAppended,
        )
    } else {
        (
            StitchState { lowconf_streak: (s.lowconf_streak + 1) as u32, ..s1 },
            PushResult::SkippedLowConfidence,
        )
    }
}

/// The match found between the effective parts of `last` and `f`.
pub open spec fn scroll_match(s: StitchState, s1: StitchState, last: FrameView, f: FrameView) -> Option<
    (u32, u32),
> {
    let prev_rgba = effective_view(last, s1.sticky);
    let eff_h = prev_rgba.height() as int;
    let t = template_height_spec(eff_h, s.cfg);
    overlap_spec(
        edge_view(prev_rgba),
        edge_view(effective_view(f, s1.sticky)),
        s.cfg,
        expected_row(eff_h, t, s.last_delta),
    )
}

/// A frame that differs from the last accepted one `last`.
pub open spec fn scrolled_step(s: StitchState, last: FrameView, f: FrameView) -> (
    StitchState,
    PushResult,
) {
    let s1 = with_sticky(s, last, f);
    let eff_h = effective_view(last, s1.sticky).height() as int;
    let t = template_height_spec(eff_h, s.cfg);
    let m = scroll_match(s, s1, last, f);
    if m is Some && sp_ge(m.unwrap().1, s.cfg.min_confidence_bits) {
        matched_step(s1, f, effective_view(f, s1.sticky), eff_h, t, m.unwrap().0)
    } else {
        unmatched_step(s, s1, f, effective_view(f, s1.sticky))
    }
}

/// One step of the stitcher: the state after pushing `f` and what it
/// reports.
pub open spec fn push_step(s: StitchState, f: FrameView) -> (StitchState, PushResult) {
    match s.last {
        None => (StitchState { canvas: Some(f), last: Some(f), ..s }, PushResult::First),
        Some(last) => {
            if nearly_equal_spec(f, last) {
                (s, PushResult::SkippedDuplicate)
            } else {
                scrolled_step(s, last, f)
            }
        },
    }
}

/// A scrolled frame is searched for around the row that a repeat of the
/// previous scroll would give: after a trusted match that scrolled `d`
/// rows, the strip taken `t` rows above the bottom of the effective frame
/// (`eff_h` rows) is expected at row `eff_h - t - d` of the new frame
/// (row 0 when `d` exceeds `eff_h - t`), so that finding it there means
/// `d` more rows; after a hard append there is no expectation.
pub proof fn lemma_search_expects_repeat_of_last_scroll(s: StitchState, f: FrameView)
    requires
        s.last is Some,
    ensures
        ({
            let l = s.last.unwrap();
            let s1 = with_sticky(s, l, f);
            let prev = effective_view(l, s1.sticky);
            let eff_h = prev.height() as int;
            let t = template_height_spec(eff_h, s.cfg);
            let expected = match s.last_delta {
                Some(d) => Some(
                    (if d <= eff_h - t {
                        eff_h - t - d
                    } else {
                        0
                    }) as u32,
                ),
                None => None,
            };
            &&& scroll_match(s, s1, l, f) == overlap_spec(
                edge_view(prev),
                edge_view(effective_view(f, s1.sticky)),
                s.cfg,
                expected,
            )
            &&& match s.last_delta {
                Some(d) => d <= eff_h - t ==> expected == Some((eff_h - t - d) as u32),
                None => expected is None,
            }
        }),
{
}

pub open spec fn opt_frame_view(f: Option<RgbaFrame>) -> Option<FrameView> {
    match f {
        Some(v) => Some(v@),
        None => None,
    }
}

/// Stitches the frames of a scrolling capture into one tall image.
pub struct Stitcher {
    cfg: StitchConfig,
    canvas: Option<RgbaFrame>,
    last: Option<RgbaFrame>,
    sticky: Option<(u32, u32)>,
    footer: Option<RgbaFrame>,
    last_delta: Option<u32>,
    lowconf_streak: u32,
}

impl View for Stitcher {
    type V = StitchState;

    closed spec fn view(&self) -> StitchState {
        StitchState {
            cfg: self.cfg,
            canvas: opt_frame_view(self.canvas),
            last: opt_frame_view(self.last),
            sticky: self.sticky,
            footer: opt_frame_view(self.footer),
            last_delta: self.last_delta,
            lowconf_streak: self.lowconf_streak,
        }
    }
}

impl Stitcher {
    /// A stitcher that has seen no frame.
    pub fn new(cfg: StitchConfig) -> (s: Stitcher)
        ensures
            stitcher_wf(s@),
            s@ == (StitchState {
                cfg,
                canvas: None,
                last: None,
                sticky: None,
                footer: None,
                last_delta: None,
                lowconf_streak: 0,
            }),
    {
        Stitcher {
            cfg,
            canvas: None,
            last: None,
            sticky: None,
            footer: None,
            last_delta: None,
            lowconf_streak: 0,
        }
    }

    /// Height of the image that `finish` would produce now (0 before any
    /// frame).
    pub fn height(&self) -> (h: u32)
        requires
            stitcher_wf(self@),
        ensures
            h == out_height(self@),
    {
        let c: u32 = match &self.canvas {
            Some(c) => c.height(),
            None => 0,
        };
        let f: u32 = match &self.footer {
            Some(f) => f.height(),
            None => 0,
        };
        c + f
    }

    /// The part of `f` between the sticky header and footer.
    fn effective(&self, f: &RgbaFrame) -> (e: RgbaFrame)
        requires
            self.sticky matches Some((t, b)) ==> t + b <= f@.height(),
        ensures
            e@ == effective_view(f@, self.sticky),
            e@.wf(),
            e@.width == f@.width,
            e@.height() == f@.height() - (match self.sticky {
                Some(p) => p.0 + p.1,
                None => 0,
            }),
    {
        let (top, bottom) = match self.sticky {
            Some(p) => p,
            None => (0, 0),
        };
        let fh = f.height();
        f.crop_rows(top, fh - top - bottom)
    }

    /// Detects the sticky bands on the first scrolled pair and cuts the
    /// footer off the canvas.
    fn settle_sticky(&mut self, last: &RgbaFrame, f: &RgbaFrame)
        requires
            old(self)@.last is None,
            old(self).canvas is Some,
            old(self)@.sticky is None ==> old(self)@.canvas.unwrap() == last@,
            old(self)@.canvas.unwrap().wf(),
            last@.same_dims(f@),
        ensures
            final(self)@ == (StitchState { last: None, ..with_sticky(old(self)@, last@, f@) }),
            final(self).canvas is Some,
    {
        if self.sticky.is_none() {
            let (top, bottom) = detect_sticky(last, f);
            self.sticky = Some((top, bottom));
            if bottom > 0 {
                let canvas = self.canvas.take().unwrap();
                let h = canvas.height();
                self.footer = Some(canvas.crop_rows(h - bottom, bottom));
                self.canvas = Some(canvas.crop_rows(0, h - bottom));
            }
        }
    }

    /// Feeds the next frame of the capture.
    pub fn push_frame(&mut self, f: &RgbaFrame) -> (r: PushResult)
        requires
            stitcher_wf(old(self)@),
            push_fits(old(self)@, f@),
        ensures
            stitcher_wf(final(self)@),
            (final(self)@, r) == push_step(old(self)@, f@),
    {
        proof {
            use_type_invariant(f);
        }
        if self.last.is_none() {
            self.canvas = Some(f.duplicate());
            self.last = Some(f.duplicate());
            return PushResult::First;
        }
        let ghost s0 = self@;
        let last = self.last.take().unwrap();
        proof {
            use_type_invariant(&last);
        }
        if frames_nearly_equal(f, &last) {
            self.last = Some(last);
            return PushResult::SkippedDuplicate;
        }
        self.push_scrolled(last, f, Ghost(s0))
    }

    /// The part of `push_frame` for a frame that differs from `last`, the
    /// frame accepted before it (taken out of `self`).
    fn push_scrolled(&mut self, last: RgbaFrame, f: &RgbaFrame, s0: Ghost<StitchState>) -> (r:
        PushResult)
        requires
            stitcher_wf(s0@),
            push_fits(s0@, f@),
            s0@.last == Some(last@),
            !nearly_equal_spec(f@, last@),
            old(self)@ == (StitchState { last: None, ..s0@ }),
            last@.wf(),
            f@.wf(),
        ensures
            stitcher_wf(final(self)@),
            (final(self)@, r) == scrolled_step(s0@, last@, f@),
    {
        self.settle_sticky(&last, f);
        let ghost s1 = with_sticky(s0@, last@, f@);
        proof {
            lemma_sticky_fits(last@, f@);
        }
        let prev_rgba = self.effective(&last);
        let new_rgba = self.effective(f);
        let prev_eff = edges(&prev_rgba);
        let new_eff = edges(&new_rgba);
        let eff_h = prev_eff.height();
        let t = template_height(eff_h, &self.cfg);
        let expected_ty: Option<u32> = match self.last_delta {
            Some(d) => Some((eff_h - t).saturating_sub(d)),
            None => None,
        };
        assert(window_fits(prev_eff@, self.cfg, expected_ty));
        let m = find_overlap(&prev_eff, &new_eff, &self.cfg, expected_ty);
        assert(m == scroll_match(s0@, s1, last@, f@));
        let trusted = match m {
            Some((_, conf)) => ge_bits(conf, self.cfg.min_confidence_bits),
            None => false,
        };
        if trusted {
            self.append_matched(last, f, new_rgba, eff_h, t, m.unwrap().0, Ghost(s0@))
        } else {
            self.append_unmatched(last, f, new_rgba, Ghost(s0@))
        }
    }

    fn append_matched(
        &mut self,
        last: RgbaFrame,
        f: &RgbaFrame,
        new_rgba: RgbaFrame,
        eff_h: u32,
        t: u32,
        ty: u32,
        s0: Ghost<StitchState>,
    ) -> (r: PushResult)
        requires
            stitcher_wf(s0@),
            push_fits(s0@, f@),
            s0@.last == Some(last@),
            old(self)@ == (StitchState { last: None, ..with_sticky(s0@, last@, f@) }),
            old(self).canvas is Some,
            last@.wf(),
            f@.wf(),
            new_rgba@ == effective_view(f@, old(self)@.sticky),
            new_rgba@.wf(),
            new_rgba@.width == f@.width,
            eff_h == new_rgba@.height(),
            t <= eff_h,
            old(self)@.sticky matches Some((tp, b)) && tp + b <= last@.height(),
            out_height(
                matched_step(
                    with_sticky(s0@, last@, f@),
                    f@,
                    new_rgba@,
                    eff_h as int,
                    t as int,
                    ty,
                ).0,
            ) <= u32::MAX,
        ensures
            stitcher_wf(final(self)@),
            (final(self)@, r) == matched_step(
                with_sticky(s0@, last@, f@),
                f@,
                new_rgba@,
                eff_h as int,
                t as int,
                ty,
            ),
    {
        let delta = (eff_h - t).saturating_sub(ty);
        if delta == 0 {
            self.last = Some(last);
            return PushResult::SkippedDuplicate;
        }
        let new_rows = new_rgba.crop_rows(eff_h - delta, delta);
        let canvas = self.canvas.take().unwrap();
        self.canvas = Some(vstack(&canvas, &new_rows));
        self.last = Some(f.duplicate());
        self.last_delta = Some(delta);
        self.lowconf_streak = 0;
        PushResult::AppendedRows(delta)
    }

    fn append_unmatched(
        &mut self,
        last: RgbaFrame,
        f: &RgbaFrame,
        new_rgba: RgbaFrame,
        s0: Ghost<StitchState>,
    ) -> (r: PushResult)
        requires
            stitcher_wf(s0@),
            push_fits(s0@, f@),
            s0@.last == Some(last@),
            old(self)@ == (StitchState { last: None, ..with_sticky(s0@, last@, f@) }),
            old(self).canvas is Some,
            last@.wf(),
            f@.wf(),
            new_rgba@ == effective_view(f@, old(self)@.sticky),
            new_rgba@.wf(),
            new_rgba@.width == f@.width,
            new_rgba@.height() <= f@.height(),
            old(self)@.sticky matches Some((tp, b)) && tp + b <= last@.height(),
            out_height(unmatched_step(s0@, with_sticky(s0@, last@, f@), f@, new_rgba@).0)
                <= u32::MAX,
        ensures
            stitcher_wf(final(self)@),
            (final(self)@, r) == unmatched_step(s0@, with_sticky(s0@, last@, f@), f@, new_rgba@),
    {
        if self.lowconf_streak + 1 >= self.cfg.max_lowconf_streak {
            let canvas = self.canvas.take().unwrap();
            self.canvas = Some(vstack(&canvas, &new_rgba));
            self.last = Some(f.duplicate());
            self.last_delta = None;
            self.lowconf_streak = 0;
            PushResult::HardAppended
        } else {
            self.lowconf_streak = self.lowconf_streak + 1;
            self.last = Some(last);
            PushResult::SkippedLowConfidence
        }
    }

    /// The stitched image: the canvas with the sticky footer under it.
    pub fn finish(self) -> (out: RgbaFrame)
        requires
            stitcher_wf(self@),
            self@.canvas is Some,
        ensures
            out@ == finished_view(self@),
    {
        let canvas = self.canvas.unwrap();
        match self.footer {
            Some(footer) => vstack(&canvas, &footer),
            None => canvas,
        }
    }
}


} // verus!
