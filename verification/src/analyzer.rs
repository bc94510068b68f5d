//! The circle analyzer: a pure, deterministic classification of a pointer
//! trajectory as a circle (centre and radius) or a rejection.
//!
//! All arithmetic is exact.  With `n` points, the centroid `(sum_x / n,
//! sum_y / n)` is kept as an exact rational, and every per-point offset is
//! scaled by `n`: the vector `n * p - (sum_x, sum_y)` is `n` times the
//! offset of `p` from the centroid.  Distances to the centroid are measured
//! in this scaled space — `point_dist` is `n` times the true distance,
//! rounded down to an integer — and each threshold of the classification is
//! a rational number, so each gate is an exact integer comparison once both
//! sides are multiplied out.

use vstd::prelude::*;

use crate::geometry::{
    dist_sq, dist_sq_exec, isqrt, isqrt_exec, lemma_sector_range, sector_of, sector_of_exec, Point,
};

verus! {

/// A stroke with fewer captured points cannot be characterized reliably.
pub const MIN_POINTS: usize = 12;

/// Capacity bound on analyzed trajectories.  With the 5-pixel downsampling
/// step this already allows a stroke over twenty thousand pixels long, and
/// it keeps every intermediate product of the analysis inside 128-bit
/// arithmetic.  Longer trajectories are rejected.
pub const MAX_POINTS: usize = 4096;

/// Minimum average radius, in physical pixels: smaller jitters and clicks
/// are rejected.
pub const MIN_AVG_RADIUS: u32 = 30;

/// A stroke must touch at least this many of the 12 angular sectors around
/// the centroid.
pub const MIN_SECTORS_COVERED: u32 = 9;

/// Sum of the x coordinates of a trajectory.
pub open spec fn sum_x(ps: Seq<Point>) -> int
    decreases ps.len(),
{
    if ps.len() == 0 {
        0
    } else {
        sum_x(ps.drop_last()) + ps.last().x
    }
}

/// Sum of the y coordinates of a trajectory.
pub open spec fn sum_y(ps: Seq<Point>) -> int
    decreases ps.len(),
{
    if ps.len() == 0 {
        0
    } else {
        sum_y(ps.drop_last()) + ps.last().y
    }
}

/// `n` times the x offset of point `i` from the centroid.
pub open spec fn scaled_dx(ps: Seq<Point>, i: int) -> int {
    ps.len() * ps[i].x - sum_x(ps)
}

/// `n` times the y offset of point `i` from the centroid.
pub open spec fn scaled_dy(ps: Seq<Point>, i: int) -> int {
    ps.len() * ps[i].y - sum_y(ps)
}

/// `n` times the distance of point `i` from the centroid, rounded down.
pub open spec fn point_dist(ps: Seq<Point>, i: int) -> nat {
    isqrt((scaled_dx(ps, i) * scaled_dx(ps, i) + scaled_dy(ps, i) * scaled_dy(ps, i)) as nat)
}

/// Sum of the scaled centroid distances of the first `k` points.
pub open spec fn dist_sum(ps: Seq<Point>, k: int) -> nat
    decreases k,
{
    if k <= 0 {
        0
    } else {
        dist_sum(ps, k - 1) + point_dist(ps, k - 1)
    }
}

/// Sum of the squared scaled centroid distances of the first `k` points.
pub open spec fn dist_sq_sum(ps: Seq<Point>, k: int) -> nat
    decreases k,
{
    if k <= 0 {
        0
    } else {
        dist_sq_sum(ps, k - 1) + point_dist(ps, k - 1) * point_dist(ps, k - 1)
    }
}

/// The angular sector, seen from the centroid, that point `i` falls in.
pub open spec fn point_sector(ps: Seq<Point>, i: int) -> int {
    sector_of(scaled_dx(ps, i), scaled_dy(ps, i))
}

/// Whether one of the first `k` points falls in sector `s`.
pub open spec fn sector_hit_upto(ps: Seq<Point>, k: int, s: int) -> bool {
    exists|j: int| 0 <= j < k && point_sector(ps, j) == s
}

/// Whether any point of the trajectory falls in sector `s`.
pub open spec fn sector_hit(ps: Seq<Point>, s: int) -> bool {
    sector_hit_upto(ps, ps.len() as int, s)
}

/// How many of the sectors 0 to `s - 1` the trajectory touches.
pub open spec fn covered_sectors(ps: Seq<Point>, s: int) -> nat
    decreases s,
{
    if s <= 0 {
        0
    } else {
        covered_sectors(ps, s - 1) + if sector_hit(ps, s - 1) {
            1nat
        } else {
            0nat
        }
    }
}

/// Gate 1: enough samples to characterize the stroke, and few enough to
/// analyze exactly.
pub open spec fn enough_points(ps: Seq<Point>) -> bool {
    MIN_POINTS <= ps.len() <= MAX_POINTS
}

/// Gate 2: the average distance from the centroid reaches the minimum
/// radius.  The average radius is `dist_sum / n²` (each summand carries the
/// scale factor `n`), so the comparison is cleared of the division.
pub open spec fn radius_large_enough(ps: Seq<Point>) -> bool {
    dist_sum(ps, ps.len() as int) >= MIN_AVG_RADIUS * ps.len() * ps.len()
}

/// Gate 3: radius consistency.  With `d` the sum of the (scaled) centroid
/// distances and `q` the sum of their squares, the population variance of
/// the distances is `q / n - (d / n)²`, so the requirement that the
/// standard deviation stay within 0.55 = 11/20 of the average radius
/// `d / n` reads `(q * n - d²) / d² <= (11/20)²`, that is,
/// `400 * (n * q) <= (400 + 121) * d²`.  This rejects elongated or
/// star-shaped strokes whose centroid distance varies wildly.
pub open spec fn radius_consistent(ps: Seq<Point>) -> bool {
    400 * (ps.len() * dist_sq_sum(ps, ps.len() as int)) <= 521 * (dist_sum(
        ps,
        ps.len() as int,
    ) * dist_sum(ps, ps.len() as int))
}

/// Gate 4: angular coverage — the stroke swept most of the way around the
/// centroid.
pub open spec fn well_covered(ps: Seq<Point>) -> bool {
    covered_sectors(ps, 12) >= MIN_SECTORS_COVERED
}

/// Gate 5: closure.  The distance between the first and the last point must
/// stay within 0.8 = 4/5 of the average radius `d / n²`; squaring both
/// (non-negative) sides and clearing denominators gives
/// `25 * (gap² * n⁴) <= 16 * d²`.  This distinguishes a closed loop from an
/// open arc.
pub open spec fn closed_loop(ps: Seq<Point>) -> bool {
    25 * (dist_sq(ps[0], ps[ps.len() - 1]) * ((ps.len() * ps.len()) * (ps.len() * ps.len())))
        <= 16 * (dist_sum(ps, ps.len() as int) * dist_sum(ps, ps.len() as int))
}

/// A recognized circle, in device-physical pixels, as exact rationals: the
/// centre is `(center_x_num / count, center_y_num / count)` — the exact
/// centroid of the trajectory — and the radius, the average distance of the
/// points from that centroid, is `radius_num / count²` up to the rounding
/// of each summed distance to an integer in the `n`-scaled space.
#[derive(Clone, Copy, PartialEq, Eq, Structural, Debug)]
pub struct CircleGestureResult {
    /// Numerator of the centre's x coordinate, over `count`.
    pub center_x_num: i64,
    /// Numerator of the centre's y coordinate, over `count`.
    pub center_y_num: i64,
    /// Numerator of the radius, over `count * count`.
    pub radius_num: u64,
    /// The number of trajectory points, the common denominator.
    pub count: u32,
}

/// The whole classification: the five gates in order, then the recognized
/// circle built from the exact sums.
pub open spec fn analyze_spec(ps: Seq<Point>) -> Option<CircleGestureResult> {
    if !enough_points(ps) {
        None
    } else if !radius_large_enough(ps) {
        None
    } else if !radius_consistent(ps) {
        None
    } else if !well_covered(ps) {
        None
    } else if !closed_loop(ps) {
        None
    } else {
        Some(
            CircleGestureResult {
                center_x_num: sum_x(ps) as i64,
                center_y_num: sum_y(ps) as i64,
                radius_num: dist_sum(ps, ps.len() as int) as u64,
                count: ps.len() as u32,
            },
        )
    }
}

/// Small-stroke law: a trajectory whose average centroid distance stays
/// below the minimum radius is rejected, whatever its shape.
pub proof fn lemma_small_radius_rejected(ps: Seq<Point>)
    requires
        dist_sum(ps, ps.len() as int) < MIN_AVG_RADIUS * ps.len() * ps.len(),
    ensures
        analyze_spec(ps) is None,
{
}

/// Extending a prefix by one point extends the coordinate sums by that
/// point's coordinates.
proof fn lemma_sum_take_step(ps: Seq<Point>, i: int)
    requires
        0 <= i < ps.len(),
    ensures
        sum_x(ps.take(i + 1)) == sum_x(ps.take(i)) + ps[i].x,
        sum_y(ps.take(i + 1)) == sum_y(ps.take(i)) + ps[i].y,
{
    assert(ps.take(i + 1).drop_last() =~= ps.take(i));
    assert(ps.take(i + 1).last() == ps[i]);
}

/// Classifies a trajectory.  The returned value is exactly what
/// `analyze_spec` assigns to the point sequence; in particular a trajectory
/// of fewer than `MIN_POINTS` points is always rejected, and on success the
/// result carries the exact centroid numerators and the summed centroid
/// distance of the input.
pub fn analyze_circle(points: &Vec<Point>) -> (r: Option<CircleGestureResult>)
    ensures
        r == analyze_spec(points@),
        points@.len() < MIN_POINTS ==> r is None,
{
    let ghost ps = points@;
    let n = points.len();
    if n < MIN_POINTS || n > MAX_POINTS {
        return None;
    }
    // First pass: exact coordinate sums, the centroid numerators.
    let mut sx: i64 = 0;
    let mut sy: i64 = 0;
    let mut i: usize = 0;
    while i < n
        invariant
            ps == points@,
            n == ps.len(),
            12 <= n <= 4096,
            0 <= i <= n,
            sx == sum_x(ps.take(i as int)),
            sy == sum_y(ps.take(i as int)),
            -(i as int) * 0x8000_0000 <= sx <= (i as int) * 0x8000_0000,
            -(i as int) * 0x8000_0000 <= sy <= (i as int) * 0x8000_0000,
        decreases n - i,
    {
        proof {
            lemma_sum_take_step(ps, i as int);
        }
        sx = sx + points[i].x as i64;
        sy = sy + points[i].y as i64;
        i = i + 1;
    }
    proof {
        assert(ps.take(n as int) =~= ps);
    }
    // Second pass: per-point scaled centroid distances and sector hits.
    let mut hits: Vec<bool> = Vec::new();
    while hits.len() < 12
        invariant
            hits@.len() <= 12,
            forall|t: int| 0 <= t < hits@.len() ==> hits@[t] == sector_hit_upto(ps, 0, t),
        decreases 12 - hits@.len(),
    {
        hits.push(false);
    }
    let mut dsum: u64 = 0;
    let mut dsqsum: u128 = 0;
    let mut i: usize = 0;
    while i < n
        invariant
            ps == points@,
            n == ps.len(),
            12 <= n <= 4096,
            0 <= i <= n,
            sx == sum_x(ps),
            sy == sum_y(ps),
            -0x800_0000_0000i64 <= sx <= 0x800_0000_0000i64,
            -0x800_0000_0000i64 <= sy <= 0x800_0000_0000i64,
            dsum == dist_sum(ps, i as int),
            dsum <= (i as int) * 0x2000_0000_0000,
            dsqsum == dist_sq_sum(ps, i as int),
            dsqsum <= (i as int) * 0x200_0000_0000_0000_0000_0000,
            hits@.len() == 12,
            forall|t: int| 0 <= t < 12 ==> hits@[t] == sector_hit_upto(ps, i as int, t),
        decreases n - i,
    {
        let x = points[i].x;
        let y = points[i].y;
        proof {
            assert(-0x800_0000_0000i64 <= (n as int) * (x as int) <= 0x800_0000_0000i64)
                by (nonlinear_arith)
                requires
                    0 <= n <= 4096,
                    -0x8000_0000i64 <= x <= 0x8000_0000i64,
            ;
            assert(-0x800_0000_0000i64 <= (n as int) * (y as int) <= 0x800_0000_0000i64)
                by (nonlinear_arith)
                requires
                    0 <= n <= 4096,
                    -0x8000_0000i64 <= y <= 0x8000_0000i64,
            ;
        }
        let sdx: i64 = (n as i64) * (x as i64) - sx;
        let sdy: i64 = (n as i64) * (y as i64) - sy;
        proof {
            assert(sdx == scaled_dx(ps, i as int));
            assert(sdy == scaled_dy(ps, i as int));
            assert(0 <= (sdx as int) * (sdx as int) <= 0x1000_0000_0000i128 * 0x1000_0000_0000i128)
                by (nonlinear_arith)
                requires
                    -0x1000_0000_0000i64 <= sdx <= 0x1000_0000_0000i64,
            ;
            assert(0 <= (sdy as int) * (sdy as int) <= 0x1000_0000_0000i128 * 0x1000_0000_0000i128)
                by (nonlinear_arith)
                requires
                    -0x1000_0000_0000i64 <= sdy <= 0x1000_0000_0000i64,
            ;
        }
        let sq: u128 = ((sdx as i128) * (sdx as i128) + (sdy as i128) * (sdy as i128)) as u128;
        let d: u128 = isqrt_exec(sq);
        proof {
            assert(d == point_dist(ps, i as int));
            // sq < 2^89 < (2^45)^2, so d < 2^45
            assert(d < 0x2000_0000_0000u128) by (nonlinear_arith)
                requires
                    d * d < 0x2000_0000_0000u128 * 0x2000_0000_0000u128,
            ;
        }
        dsum = dsum + (d as u64);
        dsqsum = dsqsum + d * d;
        let sec = sector_of_exec(sdx, sdy);
        proof {
            lemma_sector_range(sdx as int, sdy as int);
        }
        hits.set(sec as usize, true);
        proof {
            let gi = i as int;
            assert(point_sector(ps, gi) == sec);
            assert forall|t: int| 0 <= t < 12 implies hits@[t] == sector_hit_upto(
                ps,
                gi + 1,
                t,
            ) by {
                if t == sec {
                    assert(0 <= gi < gi + 1 && point_sector(ps, gi) == t);
                    assert(sector_hit_upto(ps, gi + 1, t));
                } else {
                    if sector_hit_upto(ps, gi + 1, t) {
                        let j = choose|j: int| 0 <= j < gi + 1 && point_sector(ps, j) == t;
                        assert(j < gi + 1 && point_sector(ps, j) == t);
                        assert(j != gi);
                        assert(sector_hit_upto(ps, gi, t));
                    }
                    if sector_hit_upto(ps, gi, t) {
                        let j = choose|j: int| 0 <= j < gi && point_sector(ps, j) == t;
                        assert(0 <= j < gi + 1 && point_sector(ps, j) == t);
                        assert(sector_hit_upto(ps, gi + 1, t));
                    }
                }
            }
        }
        i = i + 1;
    }
    // Gate 2: minimum average radius.
    let n64 = n as u64;
    proof {
        assert((30 * (n as int)) * (n as int) <= 0x2_0000_0000i64) by (nonlinear_arith)
            requires
                0 <= n <= 4096,
        ;
    }
    if dsum < (MIN_AVG_RADIUS as u64) * n64 * n64 {
        proof {
            assert(!radius_large_enough(ps));
        }
        return None;
    }
    // Gate 3: radius consistency.
    proof {
        assert((n as int) * (dsqsum as int) <= 4096 * 0x20_0000_0000_0000_0000_0000_0000int)
            by (nonlinear_arith)
            requires
                0 <= n <= 4096,
                0 <= dsqsum <= 0x20_0000_0000_0000_0000_0000_0000int,
        ;
        assert((dsum as int) * (dsum as int) <= 0x200_0000_0000_0000i64
            * 0x200_0000_0000_0000i64) by (nonlinear_arith)
            requires
                0 <= dsum <= 0x200_0000_0000_0000i64,
        ;
    }
    if 400u128 * ((n as u128) * dsqsum) > 521u128 * ((dsum as u128) * (dsum as u128)) {
        proof {
            assert(!radius_consistent(ps));
        }
        return None;
    }
    // Gate 4: angular coverage.
    let mut covered: u32 = 0;
    let mut s: usize = 0;
    while s < 12
        invariant
            n == ps.len(),
            hits@.len() == 12,
            0 <= s <= 12,
            covered <= s,
            forall|t: int| 0 <= t < 12 ==> hits@[t] == sector_hit_upto(ps, n as int, t),
            covered == covered_sectors(ps, s as int),
        decreases 12 - s,
    {
        if hits[s] {
            covered = covered + 1;
        }
        s = s + 1;
    }
    if covered < MIN_SECTORS_COVERED {
        proof {
            assert(!well_covered(ps));
        }
        return None;
    }
    // Gate 5: closure.
    let gap_sq: u128 = dist_sq_exec(points[0], points[n - 1]);
    proof {
        assert((n as int) * (n as int) <= 0x100_0000i64) by (nonlinear_arith)
            requires
                0 <= n <= 4096,
        ;
    }
    let n2: u64 = n64 * n64;
    proof {
        assert((n2 as int) * (n2 as int) <= 0x100_0000i64 * 0x100_0000i64) by (nonlinear_arith)
            requires
                0 <= n2 <= 0x100_0000i64,
        ;
    }
    let n4: u128 = (n2 as u128) * (n2 as u128);
    proof {
        assert((gap_sq as int) * (n4 as int) <= 0x2_0000_0000_0000_0000i128
            * 0x1_0000_0000_0000i128) by (nonlinear_arith)
            requires
                0 <= gap_sq <= 0x2_0000_0000_0000_0000i128,
                0 <= n4 <= 0x1_0000_0000_0000i128,
        ;
        assert((dsum as int) * (dsum as int) <= 0x200_0000_0000_0000i64
            * 0x200_0000_0000_0000i64) by (nonlinear_arith)
            requires
                0 <= dsum <= 0x200_0000_0000_0000i64,
        ;
    }
    if 25u128 * (gap_sq * n4) > 16u128 * ((dsum as u128) * (dsum as u128)) {
        proof {
            assert(!closed_loop(ps));
        }
        return None;
    }
    Some(
        CircleGestureResult {
            center_x_num: sx,
            center_y_num: sy,
            radius_num: dsum,
            count: n as u32,
        },
    )
}

/// Cross product of two plane vectors; zero exactly when they are parallel.
pub open spec fn cross(ax: int, ay: int, bx: int, by: int) -> int {
    ax * by - ay * bx
}

/// All points of the trajectory lie on one straight line: every pair of
/// offsets from the first point is parallel.
pub open spec fn collinear(ps: Seq<Point>) -> bool {
    forall|i: int, j: int|
        0 <= i < ps.len() && 0 <= j < ps.len() ==> #[trigger] cross(
            ps[i].x - ps[0].x,
            ps[i].y - ps[0].y,
            ps[j].x - ps[0].x,
            ps[j].y - ps[0].y,
        ) == 0
}

/// When every offset from the first point is parallel to `u`, so is the
/// sum of the first `k` offsets.
proof fn lemma_offset_sum_cross(ps: Seq<Point>, ux: int, uy: int, k: int)
    requires
        ps.len() >= 1,
        0 <= k <= ps.len(),
        forall|i: int|
            0 <= i < ps.len() ==> #[trigger] cross(ps[i].x - ps[0].x, ps[i].y - ps[0].y, ux, uy)
                == 0,
    ensures
        cross(
            sum_x(ps.take(k)) - k * ps[0].x,
            sum_y(ps.take(k)) - k * ps[0].y,
            ux,
            uy,
        ) == 0,
    decreases k,
{
    let x0 = ps[0].x as int;
    let y0 = ps[0].y as int;
    if k == 0 {
        assert(ps.take(0) =~= Seq::<Point>::empty());
        assert(sum_x(ps.take(0)) == 0);
        assert(sum_y(ps.take(0)) == 0);
        assert(cross(sum_x(ps.take(k)) - k * x0, sum_y(ps.take(k)) - k * y0, ux, uy) == 0)
            by (nonlinear_arith)
            requires
                k == 0,
                sum_x(ps.take(k)) == 0,
                sum_y(ps.take(k)) == 0,
        ;
    } else {
        lemma_offset_sum_cross(ps, ux, uy, k - 1);
        lemma_sum_take_step(ps, k - 1);
        let wx = sum_x(ps.take(k - 1)) - (k - 1) * x0;
        let wy = sum_y(ps.take(k - 1)) - (k - 1) * y0;
        let vx = ps[k - 1].x - x0;
        let vy = ps[k - 1].y - y0;
        assert(cross(vx, vy, ux, uy) == 0);
        assert(sum_x(ps.take(k)) - k * x0 == wx + vx) by (nonlinear_arith)
            requires
                sum_x(ps.take(k)) == sum_x(ps.take(k - 1)) + ps[k - 1].x,
                wx == sum_x(ps.take(k - 1)) - (k - 1) * x0,
                vx == ps[k - 1].x - x0,
        ;
        assert(sum_y(ps.take(k)) - k * y0 == wy + vy) by (nonlinear_arith)
            requires
                sum_y(ps.take(k)) == sum_y(ps.take(k - 1)) + ps[k - 1].y,
                wy == sum_y(ps.take(k - 1)) - (k - 1) * y0,
                vy == ps[k - 1].y - y0,
        ;
        assert(cross(wx + vx, wy + vy, ux, uy) == cross(wx, wy, ux, uy) + cross(vx, vy, ux, uy))
            by (nonlinear_arith);
        assert(cross(sum_x(ps.take(k)) - k * x0, sum_y(ps.take(k)) - k * y0, ux, uy) == cross(
            wx + vx,
            wy + vy,
            ux,
            uy,
        ));
    }
}

/// When every offset from the first point is parallel to `u`, every
/// centroid-scaled offset is parallel to `u` as well.
proof fn lemma_scaled_parallel(ps: Seq<Point>, ux: int, uy: int, i: int)
    requires
        ps.len() >= 1,
        0 <= i < ps.len(),
        forall|j: int|
            0 <= j < ps.len() ==> #[trigger] cross(ps[j].x - ps[0].x, ps[j].y - ps[0].y, ux, uy)
                == 0,
    ensures
        cross(scaled_dx(ps, i), scaled_dy(ps, i), ux, uy) == 0,
{
    let n = ps.len() as int;
    let x0 = ps[0].x as int;
    let y0 = ps[0].y as int;
    lemma_offset_sum_cross(ps, ux, uy, n);
    assert(ps.take(n) =~= ps);
    let wx = sum_x(ps) - n * x0;
    let wy = sum_y(ps) - n * y0;
    let vx = ps[i].x - x0;
    let vy = ps[i].y - y0;
    assert(cross(vx, vy, ux, uy) == 0);
    assert(cross(wx, wy, ux, uy) == 0);
    assert(cross(n * ps[i].x - sum_x(ps), n * ps[i].y - sum_y(ps), ux, uy) == n * cross(
        vx,
        vy,
        ux,
        uy,
    ) - cross(wx, wy, ux, uy)) by (nonlinear_arith)
        requires
            wx == sum_x(ps) - n * x0,
            wy == sum_y(ps) - n * y0,
            vx == ps[i].x - x0,
            vy == ps[i].y - y0,
    ;
}

/// A trajectory that only ever hits three given sectors covers at most
/// three of the twelve.
proof fn lemma_covered_bound(ps: Seq<Point>, a: int, b: int, c: int, s: int)
    requires
        forall|t: int| sector_hit(ps, t) ==> t == a || t == b || t == c,
    ensures
        covered_sectors(ps, s) <= (if 0 <= a < s {
            1int
        } else {
            0int
        }) + (if 0 <= b < s {
            1int
        } else {
            0int
        }) + (if 0 <= c < s {
            1int
        } else {
            0int
        }),
    decreases s,
{
    if s > 0 {
        lemma_covered_bound(ps, a, b, c, s - 1);
    }
}

/// Straight-line law: when all points of a trajectory lie on one straight
/// line, their bearings from the centroid take at most two opposite
/// directions, so at most three of the twelve sectors are touched (the
/// third for points sitting exactly on the centroid) and the angular
/// coverage gate rejects the stroke.
pub proof fn lemma_line_rejected(ps: Seq<Point>)
    requires
        ps.len() >= 1,
        collinear(ps),
    ensures
        analyze_spec(ps) is None,
{
    let ghost dir: (int, int) = if exists|w: int| 0 <= w < ps.len() && (#[trigger] ps[w]) != ps[0] {
        let w = choose|w: int| 0 <= w < ps.len() && (#[trigger] ps[w]) != ps[0];
        (ps[w].x - ps[0].x, ps[w].y - ps[0].y)
    } else {
        (1int, 0int)
    };
    let ux = dir.0;
    let uy = dir.1;
    assert(!(ux == 0 && uy == 0));
    assert forall|j: int| 0 <= j < ps.len() implies #[trigger] cross(
        ps[j].x - ps[0].x,
        ps[j].y - ps[0].y,
        ux,
        uy,
    ) == 0 by {
        if exists|w: int| 0 <= w < ps.len() && (#[trigger] ps[w]) != ps[0] {
            let w = choose|w: int| 0 <= w < ps.len() && (#[trigger] ps[w]) != ps[0];
            assert(cross(
                ps[j].x - ps[0].x,
                ps[j].y - ps[0].y,
                ps[w].x - ps[0].x,
                ps[w].y - ps[0].y,
            ) == 0);
        } else {
            assert(ps[j] == ps[0]);
        }
    }
    let a = sector_of(ux, uy);
    let b = sector_of(-ux, -uy);
    assert forall|i: int| 0 <= i < ps.len() implies point_sector(ps, i) == a || point_sector(
        ps,
        i,
    ) == b || point_sector(ps, i) == 6 by {
        lemma_scaled_parallel(ps, ux, uy, i);
        crate::geometry::lemma_parallel_sector(scaled_dx(ps, i), scaled_dy(ps, i), ux, uy);
    }
    assert forall|t: int| sector_hit(ps, t) implies t == a || t == b || t == 6 by {
        let j = choose|j: int| 0 <= j < ps.len() && point_sector(ps, j) == t;
        assert(point_sector(ps, j) == a || point_sector(ps, j) == b || point_sector(ps, j) == 6);
    }
    lemma_covered_bound(ps, a, b, 6, 12);
    assert(covered_sectors(ps, 12) <= 3);
    assert(!well_covered(ps));
}

} // verus!
