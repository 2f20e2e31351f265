//! Fixed-point geometry: positions in thousandths of a block, the cell that
//! holds a point, and exact integer distances.
use vstd::prelude::*;
use crate::grid::Coordinate;

verus! {

/// Fixed-point units per block along each axis.
pub const UNIT: i64 = 1000;

/// The largest magnitude of a position component that the engine accepts.
pub const WORLD_LIMIT: i64 = 1_000_000_000_000;

/// The largest magnitude of a sampled point whose cell still fits an `i32`.
pub const CELL_LIMIT: i64 = 2_000_000_000_000;

/// A point or a vector, each component in thousandths of a block.
#[derive(Clone, Copy, Debug, PartialEq, Eq, Hash, Structural)]
pub struct Point {
    pub x: i64,
    pub y: i64,
    pub z: i64,
}

impl Point {
    pub fn new(x: i64, y: i64, z: i64) -> (r: Point)
        ensures
            r == (Point { x, y, z }),
    {
        Point { x, y, z }
    }
}

pub open spec fn abs(a: int) -> int {
    if a < 0 {
        -a
    } else {
        a
    }
}

/// Every component lies within the given magnitude.
pub open spec fn within(p: Point, limit: int) -> bool {
    abs(p.x as int) <= limit && abs(p.y as int) <= limit && abs(p.z as int) <= limit
}

/// A position that the engine accepts.
pub open spec fn in_world(p: Point) -> bool {
    within(p, WORLD_LIMIT as int)
}

/// The cell holding a coordinate value: division by the unit, rounded down.
pub open spec fn floor_unit(a: int) -> int {
    a / (UNIT as int)
}

/// The cell that holds a point.
pub open spec fn cell_of_spec(p: Point) -> Coordinate {
    Coordinate {
        x: floor_unit(p.x as int) as i32,
        y: floor_unit(p.y as int) as i32,
        z: floor_unit(p.z as int) as i32,
    }
}

/// Division rounded down, for a positive divisor.
pub fn div_floor(a: i128, b: i128) -> (r: i128)
    requires
        b > 0,
        a > i128::MIN,
    ensures
        r == a / b,
{
    if a >= 0 {
        a / b
    } else {
        let q = (-a - 1) / b;
        proof {
            let n: int = -a - 1;
            let m: int = n % (b as int);
            vstd::arithmetic::div_mod::lemma_fundamental_div_mod(n, b as int);
            assert(n == b * q + m);
            assert(0 <= m < b) by {
                vstd::arithmetic::div_mod::lemma_mod_bound(n, b as int);
            }
            assert(a == b * (-q - 1) + (b - 1 - m)) by (nonlinear_arith)
                requires
                    n == b * q + m,
                    n == -a - 1,
            ;
            vstd::arithmetic::div_mod::lemma_fundamental_div_mod_converse(
                a as int,
                b as int,
                -q - 1,
                b - 1 - m,
            );
        }
        -q - 1
    }
}

/// The cell that holds a point.
pub fn cell_of(p: Point) -> (r: Coordinate)
    requires
        within(p, CELL_LIMIT as int),
    ensures
        r == cell_of_spec(p),
{
    let x = div_floor(p.x as i128, UNIT as i128);
    let y = div_floor(p.y as i128, UNIT as i128);
    let z = div_floor(p.z as i128, UNIT as i128);
    proof {
        lemma_floor_unit_bound(p.x as int);
        lemma_floor_unit_bound(p.y as int);
        lemma_floor_unit_bound(p.z as int);
    }
    Coordinate { x: x as i32, y: y as i32, z: z as i32 }
}

/// A value within the cell limit has a cell index that fits an `i32`.
pub proof fn lemma_floor_unit_bound(a: int)
    requires
        abs(a) <= CELL_LIMIT,
    ensures
        -2_000_000_000 <= floor_unit(a) <= 2_000_000_000,
{
    vstd::arithmetic::div_mod::lemma_div_is_ordered(a, CELL_LIMIT as int, 1000);
    vstd::arithmetic::div_mod::lemma_div_is_ordered(-CELL_LIMIT, a, 1000);
    assert(CELL_LIMIT as int / 1000 == 2_000_000_000);
    assert((-CELL_LIMIT) as int / 1000 == -2_000_000_000);
}

/// The squared length of a vector.
pub open spec fn norm2(d: Point) -> int {
    d.x * d.x + d.y * d.y + d.z * d.z
}

/// The difference `b - a`.
pub open spec fn diff_spec(a: Point, b: Point) -> Point {
    Point { x: (b.x - a.x) as i64, y: (b.y - a.y) as i64, z: (b.z - a.z) as i64 }
}

/// The vector from `a` to `b`.
pub fn diff(a: Point, b: Point) -> (r: Point)
    requires
        in_world(a),
        in_world(b),
    ensures
        r == diff_spec(a, b),
        within(r, 2 * WORLD_LIMIT),
{
    Point { x: b.x - a.x, y: b.y - a.y, z: b.z - a.z }
}

/// The squared length of a vector whose components lie within the cell limit.
pub fn length_squared(d: Point) -> (r: u128)
    requires
        within(d, CELL_LIMIT as int),
    ensures
        r == norm2(d),
{
    proof {
        assert(d.x * d.x <= CELL_LIMIT * CELL_LIMIT) by (nonlinear_arith)
            requires abs(d.x as int) <= CELL_LIMIT;
        assert(d.y * d.y <= CELL_LIMIT * CELL_LIMIT) by (nonlinear_arith)
            requires abs(d.y as int) <= CELL_LIMIT;
        assert(d.z * d.z <= CELL_LIMIT * CELL_LIMIT) by (nonlinear_arith)
            requires abs(d.z as int) <= CELL_LIMIT;
        assert(d.x * d.x >= 0 && d.y * d.y >= 0 && d.z * d.z >= 0) by (nonlinear_arith);
    }
    let x = d.x as i128;
    let y = d.y as i128;
    let z = d.z as i128;
    (x * x + y * y + z * z) as u128
}

/// The integer square root: the largest `r` with `r * r <= n`.
pub open spec fn is_isqrt(n: int, r: int) -> bool {
    0 <= r && r * r <= n < (r + 1) * (r + 1)
}

/// The integer square root of a value below `2^126`.
pub fn isqrt(n: u128) -> (r: u64)
    requires
        n < 0x4000_0000_0000_0000_0000_0000_0000_0000,
    ensures
        is_isqrt(n as int, r as int),
{
    let mut lo: u128 = 0;
    let mut hi: u128 = 0x8000_0000_0000_0000;
    assert(hi * hi == 0x4000_0000_0000_0000_0000_0000_0000_0000);
    while hi - lo > 1
        invariant
            lo < hi <= 0x8000_0000_0000_0000,
            lo * lo <= n < hi * hi,
        decreases hi - lo,
    {
        let mid = lo + (hi - lo) / 2;
        assert(mid * mid <= 0x4000_0000_0000_0000_0000_0000_0000_0000) by (nonlinear_arith)
            requires mid <= 0x8000_0000_0000_0000;
        if mid * mid <= n {
            lo = mid;
        } else {
            hi = mid;
        }
    }
    assert(hi == lo + 1);
    lo as u64
}

/// The distance between two points, rounded down to a whole thousandth.
pub open spec fn is_distance(a: Point, b: Point, r: int) -> bool {
    is_isqrt(norm2(diff_spec(a, b)), r)
}

/// The distance between two points, rounded down to a whole thousandth.
pub open spec fn distance_spec(a: Point, b: Point) -> int {
    choose|r: int| is_distance(a, b, r)
}

/// A value has one integer square root.
pub proof fn lemma_isqrt_unique(n: int, r: int, s: int)
    requires
        is_isqrt(n, r),
        is_isqrt(n, s),
    ensures
        r == s,
{
    if r < s {
        assert((r + 1) * (r + 1) <= s * s) by (nonlinear_arith)
            requires 0 <= r < s;
    } else if s < r {
        assert((s + 1) * (s + 1) <= r * r) by (nonlinear_arith)
            requires 0 <= s < r;
    }
}

/// A value of magnitude at most `m * b` divided by `b` has magnitude at most `m`.
pub proof fn lemma_div_within(x: int, b: int, m: int)
    requires
        b > 0,
        m >= 0,
        abs(x) <= m * b,
    ensures
        abs(x / b) <= m,
{
    vstd::arithmetic::div_mod::lemma_div_is_ordered(x, m * b, b);
    vstd::arithmetic::div_mod::lemma_div_is_ordered(-(m * b), x, b);
    vstd::arithmetic::div_mod::lemma_div_multiples_vanish(m, b);
    vstd::arithmetic::div_mod::lemma_div_multiples_vanish(-m, b);
    assert(b * m == m * b && b * (-m) == -(m * b)) by (nonlinear_arith);
}

/// The distance between two points, rounded down to a whole thousandth.
pub fn distance(a: Point, b: Point) -> (r: i64)
    requires
        in_world(a),
        in_world(b),
    ensures
        is_distance(a, b, r as int),
        r == distance_spec(a, b),
        0 <= r <= 4 * WORLD_LIMIT,
{
    let d = diff(a, b);
    let n2 = length_squared(d);
    proof {
        assert(norm2(d) <= 12 * WORLD_LIMIT * WORLD_LIMIT) by (nonlinear_arith)
            requires within(d, 2 * WORLD_LIMIT);
    }
    let r = isqrt(n2);
    proof {
        let s = distance_spec(a, b);
        assert(is_distance(a, b, r as int));
        assert(is_distance(a, b, s));
        lemma_isqrt_unique(norm2(d), r as int, s);
        if r > 4 * WORLD_LIMIT {
            assert(r * r > 16 * WORLD_LIMIT * WORLD_LIMIT) by (nonlinear_arith)
                requires r > 4 * WORLD_LIMIT;
        }
    }
    r as i64
}

/// The coordinate `a + d * k / len`, rounded down: a point at distance `k`
/// along a vector `d` of length `len`.
pub open spec fn along(a: int, d: int, k: int, len: int) -> int {
    a + (d * k) / len
}

/// One coordinate moved along a vector.
pub fn step_along(a: i64, d: i64, k: i64, len: i64) -> (r: i64)
    requires
        len > 0,
        abs(a as int) <= CELL_LIMIT,
        abs(d as int) <= CELL_LIMIT,
        0 <= k <= 2 * CELL_LIMIT,
        abs(along(a as int, d as int, k as int, len as int)) <= CELL_LIMIT,
    ensures
        r == along(a as int, d as int, k as int, len as int),
{
    assert(abs(d * k) <= CELL_LIMIT * (2 * CELL_LIMIT)) by (nonlinear_arith)
        requires abs(d as int) <= CELL_LIMIT, 0 <= k <= 2 * CELL_LIMIT;
    let q = div_floor((d as i128) * (k as i128), len as i128);
    (a as i128 + q) as i64
}

/// A point at a fraction `k / len` (with `0 <= k <= len`) of the way along
/// a vector lies between the start and the end, per axis.
pub proof fn lemma_along_between(a: int, d: int, k: int, len: int)
    requires
        0 <= k <= len,
        len > 0,
    ensures
        d >= 0 ==> a <= along(a, d, k, len) <= a + d,
        d < 0 ==> a + d <= along(a, d, k, len) <= a,
{
    if d >= 0 {
        assert(0 <= d * k <= d * len) by (nonlinear_arith)
            requires d >= 0, 0 <= k <= len;
        vstd::arithmetic::div_mod::lemma_div_is_ordered(0, d * k, len);
        vstd::arithmetic::div_mod::lemma_div_is_ordered(d * k, d * len, len);
        vstd::arithmetic::div_mod::lemma_div_multiples_vanish(d, len);
        assert(d * len == len * d) by (nonlinear_arith);
        assert(0int / len == 0);
    } else {
        assert(d * len <= d * k <= 0) by (nonlinear_arith)
            requires d < 0, 0 <= k <= len;
        vstd::arithmetic::div_mod::lemma_div_is_ordered(d * k, 0, len);
        vstd::arithmetic::div_mod::lemma_div_is_ordered(d * len, d * k, len);
        vstd::arithmetic::div_mod::lemma_div_multiples_vanish(d, len);
        assert(d * len == len * d) by (nonlinear_arith);
        assert(0int / len == 0);
    }
}

/// A component of a vector is no longer than the vector's rounded length.
pub proof fn lemma_component_within_length(d: Point, len: int)
    requires
        len >= 0,
        len * len <= norm2(d) < (len + 1) * (len + 1),
    ensures
        abs(d.x as int) <= len,
        abs(d.y as int) <= len,
        abs(d.z as int) <= len,
{
    assert(abs(d.x as int) <= len) by (nonlinear_arith)
        requires norm2(d) < (len + 1) * (len + 1), len >= 0, norm2(d) == d.x * d.x + d.y * d.y + d.z * d.z;
    assert(abs(d.y as int) <= len) by (nonlinear_arith)
        requires norm2(d) < (len + 1) * (len + 1), len >= 0, norm2(d) == d.x * d.x + d.y * d.y + d.z * d.z;
    assert(abs(d.z as int) <= len) by (nonlinear_arith)
        requires norm2(d) < (len + 1) * (len + 1), len >= 0, norm2(d) == d.x * d.x + d.y * d.y + d.z * d.z;
}

} // verus!
