//! Plane geometry over device-pixel coordinates: squared distances, an
//! integer square root, and the 12-sector bearing classifier used by the
//! angular-coverage gate of the circle analyzer.

use vstd::prelude::*;

verus! {

/// One captured pointer position, in device-physical pixels.  Window
/// coordinates on a multi-monitor desktop can be negative, so the full
/// signed 32-bit range is allowed.
#[derive(Clone, Copy, PartialEq, Eq, Structural, Debug)]
pub struct Point {
    pub x: i32,
    pub y: i32,
}

/// Squared Euclidean distance between two points.
pub open spec fn dist_sq(a: Point, b: Point) -> int {
    (a.x - b.x) * (a.x - b.x) + (a.y - b.y) * (a.y - b.y)
}

/// Computes the exact squared distance; 128-bit arithmetic holds the squares
/// of any 32-bit coordinate differences.
pub fn dist_sq_exec(a: Point, b: Point) -> (d: u128)
    ensures
        d == dist_sq(a, b),
        d <= 0x2_0000_0000_0000_0000u128,
{
    let dx: i64 = a.x as i64 - b.x as i64;
    let dy: i64 = a.y as i64 - b.y as i64;
    proof {
        assert(0 <= (dx as int) * (dx as int) <= 0x1_0000_0000i64 * 0x1_0000_0000i64)
            by (nonlinear_arith)
            requires
                -0x1_0000_0000i64 <= dx <= 0x1_0000_0000i64,
        ;
        assert(0 <= (dy as int) * (dy as int) <= 0x1_0000_0000i64 * 0x1_0000_0000i64)
            by (nonlinear_arith)
            requires
                -0x1_0000_0000i64 <= dy <= 0x1_0000_0000i64,
        ;
    }
    let sq: i128 = (dx as i128) * (dx as i128) + (dy as i128) * (dy as i128);
    sq as u128
}

/// The integer square root: the largest `r` with `r * r <= m`.
pub open spec fn isqrt(m: nat) -> nat
    decreases m,
{
    if m == 0 {
        0
    } else {
        let r = isqrt((m - 1) as nat);
        if (r + 1) * (r + 1) <= m {
            r + 1
        } else {
            r
        }
    }
}

/// `isqrt(m)` is indeed the floor of the square root of `m`.
pub proof fn lemma_isqrt_bounds(m: nat)
    ensures
        isqrt(m) * isqrt(m) <= m,
        m < (isqrt(m) + 1) * (isqrt(m) + 1),
    decreases m,
{
    if m == 0 {
        let s = isqrt(0);
        assert((s + 1) * (s + 1) == 1) by (nonlinear_arith)
            requires
                s == 0,
        ;
    } else {
        lemma_isqrt_bounds((m - 1) as nat);
        let r = isqrt((m - 1) as nat);
        if (r + 1) * (r + 1) <= m {
            assert(m < (r + 2) * (r + 2)) by (nonlinear_arith)
                requires
                    m <= (r + 1) * (r + 1),
                    r >= 0,
            ;
        }
    }
}

/// Any `r` that brackets `m` between consecutive squares is the integer
/// square root of `m`.
pub proof fn lemma_isqrt_unique(m: nat, r: nat)
    requires
        r * r <= m,
        m < (r + 1) * (r + 1),
    ensures
        r == isqrt(m),
{
    lemma_isqrt_bounds(m);
    let s = isqrt(m);
    if r < s {
        assert((r + 1) * (r + 1) <= s * s) by (nonlinear_arith)
            requires
                0 <= r + 1 <= s,
        ;
    }
    if s < r {
        assert((s + 1) * (s + 1) <= r * r) by (nonlinear_arith)
            requires
                0 <= s + 1 <= r,
        ;
    }
}

/// Binary search for the integer square root of a 128-bit value.
pub fn isqrt_exec(m: u128) -> (r: u128)
    requires
        m < 0x4000_0000_0000_0000_0000_0000_0000_0000u128,
    ensures
        r == isqrt(m as nat),
        r * r <= m < (r + 1) * (r + 1),
{
    let mut lo: u128 = 0;
    let mut hi: u128 = 0x8000_0000_0000_0000u128;
    while lo + 1 < hi
        invariant
            lo < hi <= 0x8000_0000_0000_0000u128,
            lo * lo <= m,
            m < hi * hi,
        decreases hi - lo,
    {
        let mid = lo + (hi - lo) / 2;
        proof {
            assert(mid * mid < 0x8000_0000_0000_0001u128 * 0x8000_0000_0000_0001u128)
                by (nonlinear_arith)
                requires
                    0 <= mid <= 0x8000_0000_0000_0000u128,
            ;
        }
        if mid * mid <= m {
            lo = mid;
        } else {
            hi = mid;
        }
    }
    proof {
        lemma_isqrt_unique(m as nat, lo as nat);
    }
    lo
}

/// Sector index, 0 to 11, of the bearing of the vector `(dx, dy)`, with the
/// full turn split into twelve 30-degree sectors.  Sector 0 starts at the
/// negative x axis (bearing 180 degrees) and the index grows with the
/// counter-clockwise angle, so a bearing of `t` degrees, measured
/// counter-clockwise from the positive x axis in the range (-180, 180],
/// falls in sector `floor(t / 30) + 6 (mod 12)`.
///
/// The comparisons against the 30- and 60-degree lines are exact: a bearing
/// `t` in [0, 90) satisfies `t < 30` iff `tan(t) < tan(30)` iff
/// `3 * (dy * dy) < dx * dx` (and `t < 60` iff `dy * dy < 3 * (dx * dx)`), and
/// since `tan(30)` squared is the irrational 1/3, equality `3 * (dy * dy) ==
/// dx * dx` never holds for a nonzero integer vector — no integer bearing
/// lies on a sector boundary off the axes.  The zero vector (a point that
/// coincides with the centroid, whose bearing is undefined) is assigned
/// sector 6.
pub open spec fn sector_of(dx: int, dy: int) -> int {
    if dx == 0 && dy == 0 {
        6
    } else if dy >= 0 && dx > 0 {
        // bearing in [0, 90): sectors 6, 7, 8
        if 3 * (dy * dy) < dx * dx {
            6
        } else if dy * dy < 3 * (dx * dx) {
            7
        } else {
            8
        }
    } else if dy > 0 {
        // dx <= 0, bearing in [90, 180): sectors 9, 10, 11
        if dy * dy > 3 * (dx * dx) {
            9
        } else if 3 * (dy * dy) > dx * dx {
            10
        } else {
            11
        }
    } else if dy == 0 {
        // dx < 0, bearing exactly 180: sector 0
        0
    } else if dx < 0 {
        // dy < 0, bearing in (180, 270): sectors 0, 1, 2
        if 3 * (dy * dy) < dx * dx {
            0
        } else if dy * dy < 3 * (dx * dx) {
            1
        } else {
            2
        }
    } else {
        // dx >= 0, dy < 0, bearing in [270, 360): sectors 3, 4, 5
        if dy * dy > 3 * (dx * dx) {
            3
        } else if 3 * (dy * dy) > dx * dx {
            4
        } else {
            5
        }
    }
}

/// Every vector falls in one of the twelve sectors.
pub proof fn lemma_sector_range(dx: int, dy: int)
    ensures
        0 <= sector_of(dx, dy) < 12,
{
}

/// Computes the sector index of `(dx, dy)`.  The bound on the inputs keeps
/// the squared comparisons inside 128-bit arithmetic; the analyzer's
/// centroid-scaled offsets stay far below it.
pub fn sector_of_exec(dx: i64, dy: i64) -> (s: u8)
    requires
        -0x1000_0000_0000_0000i64 < dx < 0x1000_0000_0000_0000i64,
        -0x1000_0000_0000_0000i64 < dy < 0x1000_0000_0000_0000i64,
    ensures
        s == sector_of(dx as int, dy as int),
{
    proof {
        assert(0 <= (dx as int) * (dx as int) < 0x1000_0000_0000_0000i128 * 0x1000_0000_0000_0000i128)
            by (nonlinear_arith)
            requires
                -0x1000_0000_0000_0000i64 < dx < 0x1000_0000_0000_0000i64,
        ;
        assert(0 <= (dy as int) * (dy as int) < 0x1000_0000_0000_0000i128 * 0x1000_0000_0000_0000i128)
            by (nonlinear_arith)
            requires
                -0x1000_0000_0000_0000i64 < dy < 0x1000_0000_0000_0000i64,
        ;
    }
    let xx: i128 = (dx as i128) * (dx as i128);
    let yy: i128 = (dy as i128) * (dy as i128);
    if dx == 0 && dy == 0 {
        6
    } else if dy >= 0 && dx > 0 {
        if 3 * yy < xx {
            6
        } else if yy < 3 * xx {
            7
        } else {
            8
        }
    } else if dy > 0 {
        if yy > 3 * xx {
            9
        } else if 3 * yy > xx {
            10
        } else {
            11
        }
    } else if dy == 0 {
        0
    } else if dx < 0 {
        if 3 * yy < xx {
            0
        } else if yy < 3 * xx {
            1
        } else {
            2
        }
    } else {
        if yy > 3 * xx {
            3
        } else if 3 * yy > xx {
            4
        } else {
            5
        }
    }
}

/// Two nonzero parallel vectors point the same or opposite ways, so a
/// vector parallel to `u` lies in `u`'s sector, in the opposite sector, or
/// is the zero vector (sector 6).
pub proof fn lemma_parallel_sector(sx: int, sy: int, ux: int, uy: int) by (nonlinear_arith)
    requires
        sx * uy == sy * ux,
        !(ux == 0 && uy == 0),
    ensures
        sector_of(sx, sy) == 6 || sector_of(sx, sy) == sector_of(ux, uy) || sector_of(sx, sy)
            == sector_of(-ux, -uy),
{
}

} // verus!
