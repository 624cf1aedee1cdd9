//! Fixed-point plane vectors and the few pieces of integer arithmetic the
//! simulation needs: truncating signed division and an integer square root.

use vstd::prelude::*;

verus! {

/// Largest coordinate magnitude a world position may have.
pub const WORLD_LIMIT: i64 = 1_000_000_000;

/// Largest component magnitude `mag2` and `length` accept: the difference of
/// two world positions.  Squares of components up to this bound still fit in
/// an `i64` when summed pairwise.
pub const MAG_LIMIT: i64 = 2_100_000_000;

/// A plane vector in thousandths of a world unit.
#[derive(Clone, Copy, Debug, PartialEq, Eq, Structural)]
pub struct Vec2 {
    pub x: i64,
    pub y: i64,
}

impl Vec2 {
    pub open spec fn in_world(self) -> bool {
        -WORLD_LIMIT <= self.x <= WORLD_LIMIT && -WORLD_LIMIT <= self.y <= WORLD_LIMIT
    }

    pub fn new(x: i64, y: i64) -> (v: Vec2)
        ensures
            v.x == x,
            v.y == y,
    {
        Vec2 { x, y }
    }

    pub fn zero() -> (v: Vec2)
        ensures
            v.x == 0,
            v.y == 0,
    {
        Vec2 { x: 0, y: 0 }
    }
}

/// Truncating division, the rounding rule of machine division: the quotient is
/// rounded toward zero.
pub open spec fn div_trunc(a: int, b: int) -> int {
    if a >= 0 {
        a / b
    } else {
        -((-a) / b)
    }
}

/// Quotient of `a` and `b` rounded toward zero.
pub fn div_toward_zero(a: i64, b: i64) -> (q: i64)
    requires
        b > 0,
        a > i64::MIN,
    ensures
        q == div_trunc(a as int, b as int),
{
    if a >= 0 {
        a / b
    } else {
        -((-a) / b)
    }
}

/// A quotient `d * s / n` with `|d| <= n` and `s >= 0` is bounded by `s`.
pub proof fn lemma_scale_bound(d: int, s: int, n: int)
    requires
        n >= 1,
        -n <= d <= n,
        s >= 0,
    ensures
        -s <= div_trunc(d * s, n) <= s,
{
    if d >= 0 {
        assert(0 <= d * s <= n * s) by (nonlinear_arith)
            requires 0 <= d <= n && s >= 0;
        assert(0 <= (d * s) / n <= s) by (nonlinear_arith)
            requires n >= 1 && 0 <= d * s <= n * s && s >= 0;
    } else {
        assert(0 <= -(d * s) <= n * s) by (nonlinear_arith)
            requires -n <= d < 0 && s >= 0;
        assert(0 <= (-(d * s)) / n <= s) by (nonlinear_arith)
            requires n >= 1 && 0 <= -(d * s) <= n * s && s >= 0;
    }
}

/// A dividend within `b * bound` has its quotient within `bound`.
pub proof fn lemma_div_shrink(a: int, b: int, bound: int)
    requires
        b >= 1,
        bound >= 0,
        -(b * bound) <= a <= b * bound,
    ensures
        -bound <= div_trunc(a, b) <= bound,
{
    if a >= 0 {
        assert(0 <= a / b <= bound) by (nonlinear_arith)
            requires b >= 1 && bound >= 0 && 0 <= a <= b * bound;
    } else {
        assert(0 <= (-a) / b <= bound) by (nonlinear_arith)
            requires b >= 1 && bound >= 0 && 0 < -a <= b * bound;
    }
}

/// The integer square root: the greatest `r` with `r * r <= n`.
pub open spec fn isqrt_spec(n: int, r: int) -> bool {
    r >= 0 && r * r <= n < (r + 1) * (r + 1)
}

/// The integer square root as a function, for use in contracts.
pub open spec fn sqrt_floor(n: int) -> int {
    choose|r: int| isqrt_spec(n, r)
}

/// At most one integer satisfies `isqrt_spec` for a given `n`.
pub proof fn lemma_isqrt_unique(n: int, r1: int, r2: int)
    requires
        isqrt_spec(n, r1),
        isqrt_spec(n, r2),
    ensures
        r1 == r2,
{
    assert(r1 <= r2 && r2 <= r1) by (nonlinear_arith)
        requires
            r1 >= 0 && r1 * r1 <= n < (r1 + 1) * (r1 + 1),
            r2 >= 0 && r2 * r2 <= n < (r2 + 1) * (r2 + 1);
}

/// A witness for `isqrt_spec` pins down `sqrt_floor`.
pub proof fn lemma_sqrt_floor(n: int, r: int)
    requires
        isqrt_spec(n, r),
    ensures
        sqrt_floor(n) == r,
{
    let w = choose|w: int| isqrt_spec(n, w);
    assert(isqrt_spec(n, w));
    lemma_isqrt_unique(n, w, r);
}

/// Integer square root by bisection.
pub fn isqrt(n: u64) -> (r: u64)
    ensures
        isqrt_spec(n as int, r as int),
        r == sqrt_floor(n as int),
{
    let mut lo: u64 = 0;
    let mut hi: u64 = 4_294_967_296;
    assert((hi as int) * (hi as int) > n as int) by (nonlinear_arith)
        requires hi == 4_294_967_296 && n <= u64::MAX;
    while lo + 1 < hi
        invariant
            lo < hi <= 4_294_967_296,
            (lo as int) * (lo as int) <= n as int,
            (n as int) < (hi as int) * (hi as int),
        decreases hi - lo,
    {
        let mid = lo + (hi - lo) / 2;
        proof {
            assert((mid as int) * (mid as int) <= 4_294_967_296 * 4_294_967_296)
                by (nonlinear_arith)
                requires 0 <= mid <= 4_294_967_296;
        }
        if (mid as u128) * (mid as u128) <= n as u128 {
            lo = mid;
        } else {
            hi = mid;
        }
    }
    proof {
        lemma_sqrt_floor(n as int, lo as int);
    }
    lo
}

/// The squared length of the vector `(x, y)`.
pub fn mag2(x: i64, y: i64) -> (m: u64)
    requires
        -MAG_LIMIT <= x <= MAG_LIMIT,
        -MAG_LIMIT <= y <= MAG_LIMIT,
    ensures
        m == x * x + y * y,
        m <= 8_900_000_000_000_000_000,
{
    proof {
        assert(x * x <= MAG_LIMIT * MAG_LIMIT && x * x >= 0) by (nonlinear_arith)
            requires -MAG_LIMIT <= x <= MAG_LIMIT;
        assert(y * y <= MAG_LIMIT * MAG_LIMIT && y * y >= 0) by (nonlinear_arith)
            requires -MAG_LIMIT <= y <= MAG_LIMIT;
    }
    (x * x + y * y) as u64
}

/// The length of the vector `(x, y)`, rounded down to an integer.
pub fn length(x: i64, y: i64) -> (n: i64)
    requires
        -MAG_LIMIT <= x <= MAG_LIMIT,
        -MAG_LIMIT <= y <= MAG_LIMIT,
    ensures
        isqrt_spec((x * x + y * y) as int, n as int),
        n == sqrt_floor((x * x + y * y) as int),
        0 <= n <= 3_000_000_000,
{
    let m = mag2(x, y);
    let r = isqrt(m);
    proof {
        assert((r as int) * (r as int) <= m as int);
        assert(r <= 3_000_000_000) by (nonlinear_arith)
            requires
                (r as int) * (r as int) <= m as int,
                m as int <= 8_900_000_000_000_000_000;
    }
    r as i64
}

} // verus!
