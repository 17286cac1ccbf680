//! Squared distances and the integer square root used by the homing step.

use vstd::prelude::*;
use crate::vec2::Vec2;

verus! {

/// Coordinates the simulation works with stay inside this bound; spawn
/// points, player displacements and every integration step saturate here.
/// It is 10^14 world units, far beyond any playfield.
pub const COORD_LIMIT: i64 = 1_000_000_000_000_000_000;

/// A single fixed-point coordinate the engine may hold.
pub open spec fn coord_ok(x: int) -> bool {
    -COORD_LIMIT <= x <= COORD_LIMIT
}

/// A position or velocity the engine may hold.
pub open spec fn vec_ok(v: Vec2) -> bool {
    coord_ok(v.x as int) && coord_ok(v.y as int)
}

/// The squared distance between two points, in squared coordinate units.
pub open spec fn dist2(a: Vec2, b: Vec2) -> int {
    (a.x - b.x) * (a.x - b.x) + (a.y - b.y) * (a.y - b.y)
}

/// `r` is the integer square root of `n`, rounded down.
pub open spec fn is_sqrt_floor(n: int, r: int) -> bool {
    0 <= r && r * r <= n && n < (r + 1) * (r + 1)
}

/// The integer square root of `n`, rounded down (for `n >= 0`).
pub open spec fn sqrt_floor(n: int) -> int {
    choose|r: int| is_sqrt_floor(n, r)
}

/// Squares are monotone over the non-negative integers.
pub proof fn lemma_square_monotone(a: int, b: int)
    by (nonlinear_arith)
    requires
        0 <= a <= b,
    ensures
        a * a <= b * b,
{
}

/// Bounding a product of non-negative factors by bounding each factor.
pub proof fn lemma_mul_le(a: int, ab: int, b: int, bb: int)
    by (nonlinear_arith)
    requires
        0 <= a <= ab,
        0 <= b <= bb,
    ensures
        a * b <= ab * bb,
{
}

/// A squared distance is never negative.
pub proof fn lemma_dist2_nonneg(a: Vec2, b: Vec2)
    by (nonlinear_arith)
    ensures
        dist2(a, b) >= 0,
{
}

/// Any two integer square roots of the same number agree.
proof fn lemma_sqrt_floor_unique(n: int, r1: int, r2: int)
    requires
        is_sqrt_floor(n, r1),
        is_sqrt_floor(n, r2),
    ensures
        r1 == r2,
{
    if r1 < r2 {
        lemma_square_monotone(r1 + 1, r2);
        assert(false);
    }
    if r2 < r1 {
        lemma_square_monotone(r2 + 1, r1);
        assert(false);
    }
}

/// A witness for `is_sqrt_floor` pins down `sqrt_floor` itself.
pub proof fn lemma_sqrt_floor_is(n: int, r: int)
    requires
        is_sqrt_floor(n, r),
    ensures
        sqrt_floor(n) == r,
{
    let w = choose|w: int| is_sqrt_floor(n, w);
    lemma_sqrt_floor_unique(n, w, r);
}

/// Every non-negative integer has an integer square root.
pub proof fn lemma_sqrt_floor_exists(n: int)
    requires
        n >= 0,
    ensures
        is_sqrt_floor(n, sqrt_floor(n)),
        0 <= sqrt_floor(n),
        sqrt_floor(n) * sqrt_floor(n) <= n,
        n < (sqrt_floor(n) + 1) * (sqrt_floor(n) + 1),
    decreases n,
{
    if n == 0 {
        assert(is_sqrt_floor(0, 0)) by (nonlinear_arith);
        lemma_sqrt_floor_is(n, 0);
    } else {
        lemma_sqrt_floor_exists(n - 1);
        let r = sqrt_floor(n - 1);
        if (r + 1) * (r + 1) <= n {
            // n - 1 < (r + 1)^2 <= n forces n == (r + 1)^2.
            assert(n == (r + 1) * (r + 1));
            assert(is_sqrt_floor(n, r + 1)) by (nonlinear_arith)
                requires
                    n == (r + 1) * (r + 1),
                    r >= 0,
            ;
            lemma_sqrt_floor_is(n, r + 1);
        } else {
            assert(is_sqrt_floor(n, r));
            lemma_sqrt_floor_is(n, r);
        }
    }
}

/// Largest squared distance two in-range points can have: `(2 * COORD_LIMIT)^2 * 2`.
pub const DIST2_LIMIT: u128 = 8_000_000_000_000_000_000_000_000_000_000_000_000;

/// An upper bound for the binary search in `isqrt`; its square exceeds `DIST2_LIMIT`.
pub const SQRT_SEARCH_LIMIT: u128 = 3_000_000_000_000_000_000;

/// The squared distance of two in-range points, computed exactly in `u128`.
pub fn dist2_exec(a: Vec2, b: Vec2) -> (r: u128)
    requires
        vec_ok(a),
        vec_ok(b),
    ensures
        r as int == dist2(a, b),
        r <= DIST2_LIMIT,
{
    let dx: i128 = (a.x as i128) - (b.x as i128);
    let dy: i128 = (a.y as i128) - (b.y as i128);
    let dxm: u128 = if dx >= 0 { dx as u128 } else { (-dx) as u128 };
    let dym: u128 = if dy >= 0 { dy as u128 } else { (-dy) as u128 };
    assert(dxm * dxm == dx * dx && dxm * dxm <= 4_000_000_000_000_000_000_000_000_000_000_000_000)
        by (nonlinear_arith)
        requires
            dxm == if dx >= 0 { dx as int } else { -dx as int },
            -2_000_000_000_000_000_000 <= dx <= 2_000_000_000_000_000_000,
    ;
    assert(dym * dym == dy * dy && dym * dym <= 4_000_000_000_000_000_000_000_000_000_000_000_000)
        by (nonlinear_arith)
        requires
            dym == if dy >= 0 { dy as int } else { -dy as int },
            -2_000_000_000_000_000_000 <= dy <= 2_000_000_000_000_000_000,
    ;
    dxm * dxm + dym * dym
}

/// The integer square root, rounded down, by binary search.
pub fn isqrt(n: u128) -> (r: u128)
    requires
        n <= DIST2_LIMIT,
    ensures
        is_sqrt_floor(n as int, r as int),
        r as int == sqrt_floor(n as int),
        r < SQRT_SEARCH_LIMIT,
{
    let mut lo: u128 = 0;
    let mut hi: u128 = SQRT_SEARCH_LIMIT;
    assert(SQRT_SEARCH_LIMIT * SQRT_SEARCH_LIMIT > DIST2_LIMIT) by (nonlinear_arith);
    while hi - lo > 1
        invariant
            lo < hi <= SQRT_SEARCH_LIMIT,
            lo * lo <= n,
            (n as int) < hi * hi,
        decreases hi - lo,
    {
        let mid: u128 = lo + (hi - lo) / 2;
        assert(mid * mid <= SQRT_SEARCH_LIMIT * SQRT_SEARCH_LIMIT) by (nonlinear_arith)
            requires
                0 <= mid <= SQRT_SEARCH_LIMIT,
        ;
        if mid * mid <= n {
            lo = mid;
        } else {
            hi = mid;
        }
    }
    assert(hi == lo + 1);
    proof {
        lemma_sqrt_floor_is(n as int, lo as int);
    }
    lo
}

} // verus!
