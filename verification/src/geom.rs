//! Positions, viewport extents, and the fixed-point distance metric.
//!
//! Positions are integer coordinates. Distances are reported in thousandths
//! of a coordinate unit: the metric of an edge is the Euclidean length scaled
//! by 1000 and rounded up to an integer, so comparisons between path costs
//! are exact and reproducible. The matching heuristic metric rounds down,
//! which keeps it a lower bound on any path's summed edge metric.

use vstd::prelude::*;

verus! {

/// Coordinates are kept within this bound so every metric computation fits
/// comfortably in 64 bits.
pub const COORD_LIMIT: i64 = 1_000_000;

/// The fixed-point scale: metric units per coordinate unit.
pub const METRIC_SCALE: u64 = 1_000;

/// The square of `METRIC_SCALE`, applied under the square root.
pub const METRIC_SCALE_SQ: u64 = 1_000_000;

/// A position on the 2D map, in whole coordinate units.
#[derive(Clone, Copy, PartialEq, Eq, Structural, Debug)]
pub struct Pos {
    pub x: i64,
    pub y: i64,
}

impl Pos {
    pub open spec fn in_bounds(self) -> bool {
        -COORD_LIMIT <= self.x <= COORD_LIMIT && -COORD_LIMIT <= self.y <= COORD_LIMIT
    }

    pub fn new(x: i64, y: i64) -> (r: Pos)
        ensures
            r == (Pos { x, y }),
    {
        Pos { x, y }
    }
}

/// The squared Euclidean distance between two positions.
pub open spec fn dist2(a: Pos, b: Pos) -> int {
    (a.x - b.x) * (a.x - b.x) + (a.y - b.y) * (a.y - b.y)
}

/// The integer square root, rounded down.
pub open spec fn sqrt_floor(n: nat) -> nat
    decreases n,
{
    if n == 0 {
        0
    } else {
        let r = sqrt_floor((n - 1) as nat);
        if (r + 1) * (r + 1) <= n {
            r + 1
        } else {
            r
        }
    }
}

/// The integer square root, rounded up.
pub open spec fn sqrt_ceil(n: nat) -> nat {
    let r = sqrt_floor(n);
    if r * r == n {
        r
    } else {
        r + 1
    }
}

/// The Euclidean distance between `a` and `b` in metric units, rounded up.
pub open spec fn edge_metric(a: Pos, b: Pos) -> nat {
    sqrt_ceil((METRIC_SCALE_SQ * dist2(a, b)) as nat)
}

/// The Euclidean distance between `a` and `b` in metric units, rounded down.
pub open spec fn heuristic_metric(a: Pos, b: Pos) -> nat {
    sqrt_floor((METRIC_SCALE_SQ * dist2(a, b)) as nat)
}

pub proof fn lemma_sqrt_floor_bounds(n: nat)
    ensures
        sqrt_floor(n) * sqrt_floor(n) <= n,
        n < (sqrt_floor(n) + 1) * (sqrt_floor(n) + 1),
    decreases n,
{
    reveal_with_fuel(sqrt_floor, 2);
    if n == 0 {
        assert(sqrt_floor(n) == 0);
        assert((sqrt_floor(n) + 1) * (sqrt_floor(n) + 1) == 1) by (nonlinear_arith)
            requires
                sqrt_floor(n) == 0,
        ;
    } else {
        let r = sqrt_floor((n - 1) as nat);
        lemma_sqrt_floor_bounds((n - 1) as nat);
        if (r + 1) * (r + 1) <= n {
            assert(sqrt_floor(n) == r + 1);
            assert(n == (r + 1) * (r + 1));
            assert(n < (r + 2) * (r + 2)) by (nonlinear_arith)
                requires
                    n == (r + 1) * (r + 1),
            ;
            assert(sqrt_floor(n) * sqrt_floor(n) <= n);
            assert(n < (sqrt_floor(n) + 1) * (sqrt_floor(n) + 1));
        } else {
            assert(sqrt_floor(n) == r);
            assert(sqrt_floor(n) * sqrt_floor(n) <= n);
            assert(n < (sqrt_floor(n) + 1) * (sqrt_floor(n) + 1));
        }
    }
}

pub proof fn lemma_sqrt_floor_unique(n: nat, r: nat)
    requires
        r * r <= n,
        n < (r + 1) * (r + 1),
    ensures
        r == sqrt_floor(n),
{
    let s = sqrt_floor(n);
    lemma_sqrt_floor_bounds(n);
    if r < s {
        assert((r + 1) * (r + 1) <= s * s) by (nonlinear_arith)
            requires
                r + 1 <= s,
        ;
    }
    if s < r {
        assert((s + 1) * (s + 1) <= r * r) by (nonlinear_arith)
            requires
                s + 1 <= r,
        ;
    }
}

/// The metric distance is symmetric in its endpoints.
pub proof fn lemma_metric_symmetric(a: Pos, b: Pos)
    ensures
        edge_metric(a, b) == edge_metric(b, a),
        heuristic_metric(a, b) == heuristic_metric(b, a),
{
    assert(dist2(a, b) == dist2(b, a)) by (nonlinear_arith);
}

/// A position's metric distance to itself is zero.
pub proof fn lemma_metric_self(a: Pos)
    ensures
        edge_metric(a, a) == 0,
        heuristic_metric(a, a) == 0,
{
    assert(dist2(a, a) == 0);
    assert(sqrt_floor(0) == 0);
}

/// The integer square root of a 64-bit value, rounded down.
fn isqrt(n: u64) -> (r: u64)
    ensures
        r == sqrt_floor(n as nat),
{
    let mut lo: u64 = 0;
    let mut hi: u64 = 0x1_0000_0000;
    proof {
        assert((n as int) < (hi as int) * (hi as int)) by (nonlinear_arith)
            requires
                hi == 0x1_0000_0000u64 && n <= u64::MAX,
        ;
    }
    while lo + 1 < hi
        invariant
            lo < hi <= 0x1_0000_0000,
            (lo as int) * (lo as int) <= n as int,
            (n as int) < (hi as int) * (hi as int),
        decreases hi - lo,
    {
        let mid: u64 = lo + (hi - lo) / 2;
        proof {
            assert(lo < mid < hi);
            assert((mid as int) * (mid as int) < 0x1_0000_0000_0000_0000int) by (nonlinear_arith)
                requires
                    mid < 0x1_0000_0000u64,
            ;
        }
        if mid * mid <= n {
            lo = mid;
        } else {
            hi = mid;
        }
    }
    proof {
        lemma_sqrt_floor_unique(n as nat, lo as nat);
    }
    lo
}

/// The squared distance between two in-bounds positions.
fn dist2_exec(a: Pos, b: Pos) -> (r: u64)
    requires
        a.in_bounds(),
        b.in_bounds(),
    ensures
        r as int == dist2(a, b),
        r <= 8_000_000_000_000,
    {
    let dx: i64 = a.x - b.x;
    let dy: i64 = a.y - b.y;
    proof {
        assert(dx * dx <= 4_000_000_000_000 && dx * dx >= 0) by (nonlinear_arith)
            requires
                -2_000_000 <= dx <= 2_000_000,
        ;
        assert(dy * dy <= 4_000_000_000_000 && dy * dy >= 0) by (nonlinear_arith)
            requires
                -2_000_000 <= dy <= 2_000_000,
        ;
    }
    let sx: i64 = dx * dx;
    let sy: i64 = dy * dy;
    (sx + sy) as u64
}

/// The distance between two in-bounds positions in metric units, rounded up.
pub fn edge_metric_exec(a: Pos, b: Pos) -> (r: u64)
    requires
        a.in_bounds(),
        b.in_bounds(),
    ensures
        r == edge_metric(a, b),
        r <= 4_000_000_000,
{
    let d2: u64 = dist2_exec(a, b);
    proof {
        assert((METRIC_SCALE_SQ as int) * (d2 as int) <= 8_000_000_000_000_000_000int)
            by (nonlinear_arith)
            requires
                d2 <= 8_000_000_000_000u64 && METRIC_SCALE_SQ == 1_000_000u64,
        ;
    }
    let scaled: u64 = METRIC_SCALE_SQ * d2;
    let root: u64 = isqrt(scaled);
    proof {
        lemma_sqrt_floor_bounds(scaled as nat);
        assert((root as int) * (root as int) <= 8_000_000_000_000_000_000int);
        assert(root <= 3_000_000_000) by (nonlinear_arith)
            requires
                (root as int) * (root as int) <= 8_000_000_000_000_000_000int,
        ;
    }
    if root * root == scaled {
        root
    } else {
        root + 1
    }
}

/// The distance between two in-bounds positions in metric units, rounded
/// down.
pub fn heuristic_metric_exec(a: Pos, b: Pos) -> (r: u64)
    requires
        a.in_bounds(),
        b.in_bounds(),
    ensures
        r == heuristic_metric(a, b),
        r <= 4_000_000_000,
{
    let d2: u64 = dist2_exec(a, b);
    proof {
        assert((METRIC_SCALE_SQ as int) * (d2 as int) <= 8_000_000_000_000_000_000int)
            by (nonlinear_arith)
            requires
                d2 <= 8_000_000_000_000u64 && METRIC_SCALE_SQ == 1_000_000u64,
        ;
    }
    let scaled: u64 = METRIC_SCALE_SQ * d2;
    let root: u64 = isqrt(scaled);
    proof {
        lemma_sqrt_floor_bounds(scaled as nat);
        assert(root <= 3_000_000_000) by (nonlinear_arith)
            requires
                (root as int) * (root as int) <= 8_000_000_000_000_000_000int,
        ;
    }
    root
}

/// A rectangular viewport, inclusive on all edges.
#[derive(Clone, Copy, PartialEq, Eq, Structural, Debug)]
pub struct Extents {
    pub top_left: Pos,
    pub bottom_right: Pos,
}

impl Extents {
    pub open spec fn spec_contains(self, p: Pos) -> bool {
        self.top_left.x <= p.x <= self.bottom_right.x && self.top_left.y <= p.y
            <= self.bottom_right.y
    }

    /// True when `p` lies inside the viewport.
    pub fn contains(&self, p: Pos) -> (r: bool)
        ensures
            r == self.spec_contains(p),
    {
        p.x >= self.top_left.x && p.y >= self.top_left.y && p.x <= self.bottom_right.x && p.y
            <= self.bottom_right.y
    }

    /// The viewport that contains every position.
    pub fn everything() -> (r: Extents)
        ensures
            forall|p: Pos| r.spec_contains(p),
    {
        Extents {
            top_left: Pos { x: i64::MIN, y: i64::MIN },
            bottom_right: Pos { x: i64::MAX, y: i64::MAX },
        }
    }
}

impl Default for Extents {
    /// The default viewport contains every position.
    fn default() -> (r: Extents)
        ensures
            forall|p: Pos| r.spec_contains(p),
    {
        Extents::everything()
    }
}

} // verus!
