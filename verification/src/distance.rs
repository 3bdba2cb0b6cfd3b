use vstd::prelude::*;
use vstd::math::{abs, max};

verus! {

/// The distance metrics the library knows about.
pub enum Distance {
    Manhattan,
    Chebyshev,
    Euclidean,
}

/// The integer part of the square root of a non-negative integer.
pub open spec fn sqrt_floor(n: int) -> int
    decreases n,
{
    if n < 1 {
        0
    } else {
        let r = sqrt_floor(n - 1);
        if (r + 1) * (r + 1) <= n {
            r + 1
        } else {
            r
        }
    }
}

/// The integer square root brackets its argument between consecutive
/// squares.
pub proof fn lemma_sqrt_floor_bounds(n: int)
    requires
        0 <= n,
    ensures
        0 <= sqrt_floor(n),
        sqrt_floor(n) * sqrt_floor(n) <= n,
        n < (sqrt_floor(n) + 1) * (sqrt_floor(n) + 1),
    decreases n,
{
    if n >= 1 {
        lemma_sqrt_floor_bounds(n - 1);
        let r = sqrt_floor(n - 1);
        if (r + 1) * (r + 1) <= n {
            assert(n - 1 < (r + 1) * (r + 1));
            assert(n < (r + 2) * (r + 2)) by (nonlinear_arith)
                requires
                    0 <= r,
                    n <= (r + 1) * (r + 1),
            ;
        }
    }
}

/// The integer square root is unique.
proof fn lemma_isqrt_unique(n: int, r1: int, r2: int)
    by (nonlinear_arith)
    requires
        0 <= r1,
        r1 * r1 <= n < (r1 + 1) * (r1 + 1),
        0 <= r2,
        r2 * r2 <= n < (r2 + 1) * (r2 + 1),
    ensures
        r1 == r2,
{
}

/// The integer part of the square root, by bisection.
fn isqrt(n: u128) -> (r: u128)
    requires
        n < 0x4_0000_0000_0000_0000,
    ensures
        r * r <= n < (r + 1) * (r + 1),
        r == sqrt_floor(n as int),
        r <= 0x2_0000_0000,
{
    let mut lo: u128 = 0;
    let mut hi: u128 = 0x2_0000_0000;
    proof {
        assert((0x2_0000_0000 as int) * (0x2_0000_0000 as int) == 0x4_0000_0000_0000_0000int);
    }
    while lo + 1 < hi
        invariant
        lo < hi <= 0x2_0000_0000,
        lo * lo <= n,
        n < hi * hi,
        decreases hi - lo,
    {
        let mid = lo + (hi - lo) / 2;
        proof {
            assert(lo < mid < hi);
            assert(mid * mid <= 0x2_0000_0000int * 0x2_0000_0000int) by (nonlinear_arith)
                requires
                    0 <= mid <= 0x2_0000_0000,
            ;
        }
        if mid * mid <= n {
            lo = mid;
        } else {
            hi = mid;
        }
    }
    proof {
        let ri = lo as int;
        assert(ri * ri <= n < (ri + 1) * (ri + 1));
        let w = sqrt_floor(n as int);
        lemma_sqrt_floor_bounds(n as int);
        lemma_isqrt_unique(n as int, ri, w);
    }
    lo
}

/// A distance metric on the integer grid.
pub trait DistanceMetric {
    /// The exact value of the metric, as an integer.
    spec fn dist_spec(&self, x1: int, y1: int, x2: int, y2: int) -> int;

    /// Computes the metric; Euclidean distances round down to the integer
    /// part.
    fn distance(&self, x1: u32, y1: u32, x2: u32, y2: u32) -> (d: u64)
        ensures
            d == self.dist_spec(x1 as int, y1 as int, x2 as int, y2 as int),
    ;
}

/// The L1 (taxicab) metric.
#[derive(Debug, Clone, Copy, PartialEq, Eq, Hash, PartialOrd, Ord, Default)]
pub struct Manhattan;

impl Manhattan {
    /// A Manhattan metric.
    pub fn new() -> (m: Manhattan) {
        Manhattan
    }
}

impl DistanceMetric for Manhattan {
    open spec fn dist_spec(&self, x1: int, y1: int, x2: int, y2: int) -> int {
        abs(x1 - x2) as int + abs(y1 - y2) as int
    }

    fn distance(&self, x1: u32, y1: u32, x2: u32, y2: u32) -> (d: u64) {
        let dx = if x1 >= x2 {
            (x1 - x2) as u64
        } else {
            (x2 - x1) as u64
        };
        let dy = if y1 >= y2 {
            (y1 - y2) as u64
        } else {
            (y2 - y1) as u64
        };
        dx + dy
    }
}

/// The L-infinity (chessboard) metric.
#[derive(Debug, Clone, Copy, PartialEq, Eq, Hash, PartialOrd, Ord, Default)]
pub struct Chebyshev;

impl Chebyshev {
    /// A Chebyshev metric.
    pub fn new() -> (m: Chebyshev) {
        Chebyshev
    }
}

impl DistanceMetric for Chebyshev {
    open spec fn dist_spec(&self, x1: int, y1: int, x2: int, y2: int) -> int {
        max(abs(x1 - x2) as int, abs(y1 - y2) as int)
    }

    fn distance(&self, x1: u32, y1: u32, x2: u32, y2: u32) -> (d: u64) {
        let dx = if x1 >= x2 {
            (x1 - x2) as u64
        } else {
            (x2 - x1) as u64
        };
        let dy = if y1 >= y2 {
            (y1 - y2) as u64
        } else {
            (y2 - y1) as u64
        };
        if dx >= dy {
            dx
        } else {
            dy
        }
    }
}

/// The L2 (straight-line) metric, rounded down to its integer part.
#[derive(Debug, Clone, Copy, PartialEq, Eq, Hash, PartialOrd, Ord, Default)]
pub struct Euclidean;

impl Euclidean {
    /// A Euclidean metric.
    pub fn new() -> (m: Euclidean) {
        Euclidean
    }
}

impl DistanceMetric for Euclidean {
    open spec fn dist_spec(&self, x1: int, y1: int, x2: int, y2: int) -> int {
        sqrt_floor((x1 - x2) * (x1 - x2) + (y1 - y2) * (y1 - y2))
    }

    fn distance(&self, x1: u32, y1: u32, x2: u32, y2: u32) -> (d: u64) {
        let dx: u128 = if x1 >= x2 {
            (x1 - x2) as u128
        } else {
            (x2 - x1) as u128
        };
        let dy: u128 = if y1 >= y2 {
            (y1 - y2) as u128
        } else {
            (y2 - y1) as u128
        };
        proof {
            assert(dx * dx <= 0xffff_ffffint * 0xffff_ffffint && dy * dy <= 0xffff_ffffint
                * 0xffff_ffffint) by (nonlinear_arith)
                requires
                    0 <= dx <= 0xffff_ffff,
                    0 <= dy <= 0xffff_ffff,
            ;
        }
        let d2: u128 = dx * dx + dy * dy;
        let r = isqrt(d2);
        proof {
            assert((x1 as int - x2) * (x1 as int - x2) == dx * dx) by (nonlinear_arith)
                requires
                    dx == abs(x1 as int - x2 as int),
            ;
            assert((y1 as int - y2) * (y1 as int - y2) == dy * dy) by (nonlinear_arith)
                requires
                    dy == abs(y1 as int - y2 as int),
            ;
        }
        r as u64
    }
}

} // verus!
