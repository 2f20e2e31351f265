//! Fixed-step ray marching through the grid, for line of sight and for
//! finding where a block can be placed.
use vstd::prelude::*;
use crate::geom::{
    abs, along, cell_of, cell_of_spec, diff, diff_spec, distance, distance_spec, in_world,
    is_distance, lemma_along_between, norm2, lemma_div_within, step_along, within, Point, CELL_LIMIT,
    UNIT, WORLD_LIMIT,
};
use crate::grid::{BlockType, Coordinate, VoxelGrid};

verus! {

/// Spacing of the samples of a line-of-sight check, in thousandths.
pub const VISION_STEP: i64 = 500;

/// Spacing of the samples of a placement march, in thousandths.
pub const PLACE_STEP: i64 = 100;

/// Number of samples of a placement march: a reach of five blocks.
pub const PLACE_STEPS: i64 = 50;

/// What a march found: the first occupied cell, if any, and the cell of the
/// last empty sample before it (or before the end of the march).
#[derive(Clone, Copy, Debug, PartialEq, Eq, Structural)]
pub struct RayHit {
    pub hit: Option<Coordinate>,
    pub last_empty: Option<Coordinate>,
}

/// The `i`-th sample of a march from `o` along `d` (of unit length `UNIT`),
/// `step` apart.
pub open spec fn sample(o: Point, d: Point, step: int, i: int) -> Point {
    Point {
        x: along(o.x as int, d.x as int, i * step, UNIT as int) as i64,
        y: along(o.y as int, d.y as int, i * step, UNIT as int) as i64,
        z: along(o.z as int, d.z as int, i * step, UNIT as int) as i64,
    }
}

/// The march from sample `i` on, with `last` the cell of the empty sample
/// before it.
pub open spec fn march_from(
    m: Map<Coordinate, BlockType>,
    o: Point,
    d: Point,
    step: int,
    n: int,
    i: int,
    last: Option<Coordinate>,
) -> RayHit
    decreases n - i,
{
    if i >= n {
        RayHit { hit: None, last_empty: last }
    } else {
        let c = cell_of_spec(sample(o, d, step, i));
        if m.contains_key(c) {
            RayHit { hit: Some(c), last_empty: last }
        } else {
            march_from(m, o, d, step, n, i + 1, Some(c))
        }
    }
}

/// The result of marching `n` samples from `o` along `d`.
pub open spec fn cast_spec(m: Map<Coordinate, BlockType>, o: Point, d: Point, step: int, n: int) -> RayHit {
    march_from(m, o, d, step, n, 0, None)
}

/// The inputs of a march that stays within the cell limit.
pub open spec fn valid_ray(o: Point, d: Point, step: int, n: int) -> bool {
    in_world(o) && within(d, UNIT as int) && step > 0 && n >= 0 && step * n <= WORLD_LIMIT
}

/// A sample of a valid march stays within the cell limit.
proof fn lemma_sample_bounded(o: Point, d: Point, step: int, n: int, i: int)
    requires
        valid_ray(o, d, step, n),
        0 <= i < n,
    ensures
        0 <= i * step <= WORLD_LIMIT,
        within(sample(o, d, step, i), CELL_LIMIT as int),
        abs(along(o.x as int, d.x as int, i * step, UNIT as int)) <= CELL_LIMIT,
        abs(along(o.y as int, d.y as int, i * step, UNIT as int)) <= CELL_LIMIT,
        abs(along(o.z as int, d.z as int, i * step, UNIT as int)) <= CELL_LIMIT,
{
    let k = i * step;
    assert(0 <= k <= step * n) by (nonlinear_arith)
        requires 0 <= i < n, step > 0, k == i * step;
    assert(abs(d.x * k) <= k * UNIT) by (nonlinear_arith)
        requires abs(d.x as int) <= UNIT, k >= 0;
    assert(abs(d.y * k) <= k * UNIT) by (nonlinear_arith)
        requires abs(d.y as int) <= UNIT, k >= 0;
    assert(abs(d.z * k) <= k * UNIT) by (nonlinear_arith)
        requires abs(d.z as int) <= UNIT, k >= 0;
    lemma_div_within(d.x * k, UNIT as int, k);
    lemma_div_within(d.y * k, UNIT as int, k);
    lemma_div_within(d.z * k, UNIT as int, k);
}

/// Marches `n` samples `step` apart from `o` along the direction `d` and
/// reports the first occupied cell met.
pub fn cast(grid: &VoxelGrid, o: Point, d: Point, step: i64, n: i64) -> (r: RayHit)
    requires
        grid.wf(),
        valid_ray(o, d, step as int, n as int),
    ensures
        r == cast_spec(grid.blocks(), o, d, step as int, n as int),
{
    let ghost m = grid.blocks();
    let mut last: Option<Coordinate> = None;
    let mut i: i64 = 0;
    while i < n
        invariant
            grid.wf(),
            m == grid.blocks(),
            valid_ray(o, d, step as int, n as int),
            0 <= i <= n,
            march_from(m, o, d, step as int, n as int, i as int, last)
                == cast_spec(m, o, d, step as int, n as int),
        decreases n - i,
    {
        proof {
            lemma_sample_bounded(o, d, step as int, n as int, i as int);
        }
        let k = i * step;
        let p = Point {
            x: step_along(o.x, d.x, k, UNIT),
            y: step_along(o.y, d.y, k, UNIT),
            z: step_along(o.z, d.z, k, UNIT),
        };
        assert(p == sample(o, d, step as int, i as int));
        let c = cell_of(p);
        if grid.contains(c) {
            return RayHit { hit: Some(c), last_empty: last };
        }
        last = Some(c);
        i = i + 1;
    }
    RayHit { hit: None, last_empty: last }
}

/// Two marches with the same inputs against the same grid agree.
pub proof fn lemma_cast_deterministic(
    m: Map<Coordinate, BlockType>,
    o: Point,
    d: Point,
    step: int,
    n: int,
    r1: RayHit,
    r2: RayHit,
)
    requires
        r1 == cast_spec(m, o, d, step, n),
        r2 == cast_spec(m, o, d, step, n),
    ensures
        r1 == r2,
{
}

/// The empty cell in front of the first surface that a placement march from
/// `eye` along `aim` meets: nothing where the march meets no surface, or
/// where the very first sample is already inside one.
pub open spec fn place_target_spec(m: Map<Coordinate, BlockType>, eye: Point, aim: Point) -> Option<Coordinate> {
    let r = cast_spec(m, eye, aim, PLACE_STEP as int, PLACE_STEPS as int);
    if r.hit is Some {
        r.last_empty
    } else {
        None
    }
}

/// An aim direction of unit length `UNIT`, up to the rounding of its
/// components to whole thousandths: its length lies between 999 and 1001.
pub open spec fn unit_aim(aim: Point) -> bool {
    within(aim, UNIT as int) && 998_001 <= norm2(aim) <= 1_002_001
}

/// Where a block would be placed when aiming from `eye` along `aim`.
pub fn place_target(grid: &VoxelGrid, eye: Point, aim: Point) -> (r: Option<Coordinate>)
    requires
        grid.wf(),
        in_world(eye),
        unit_aim(aim),
    ensures
        r == place_target_spec(grid.blocks(), eye, aim),
{
    let h = cast(grid, eye, aim, PLACE_STEP, PLACE_STEPS);
    if h.hit.is_some() {
        h.last_empty
    } else {
        None
    }
}

/// Number of samples of a line-of-sight check over a distance `len`: the
/// distance in half blocks, rounded up.
pub open spec fn vision_steps(len: int) -> int {
    (len + VISION_STEP - 1) / (VISION_STEP as int)
}

/// The `i`-th sample of a line-of-sight check from `a` to `b`, whose distance is `len`.
pub open spec fn vision_point(a: Point, b: Point, len: int, i: int) -> Point {
    let d = diff_spec(a, b);
    Point {
        x: along(a.x as int, d.x as int, i * VISION_STEP, len) as i64,
        y: along(a.y as int, d.y as int, i * VISION_STEP, len) as i64,
        z: along(a.z as int, d.z as int, i * VISION_STEP, len) as i64,
    }
}

/// Whether the straight line from `a` to `b` crosses no occupied cell: every
/// sample strictly after the start and before the last step is in air.
pub open spec fn sees_spec(m: Map<Coordinate, BlockType>, a: Point, b: Point) -> bool {
    let len = distance_spec(a, b);
    forall|i: int|
        1 <= i < vision_steps(len) ==> !m.contains_key(
            #[trigger] cell_of_spec(vision_point(a, b, len, i)),
        )
}

/// A sample of a line-of-sight check lies between its ends.
proof fn lemma_vision_point_bounded(a: Point, b: Point, len: int, i: int)
    requires
        in_world(a),
        in_world(b),
        is_distance(a, b, len),
        1 <= i < vision_steps(len),
    ensures
        0 < i * VISION_STEP < len <= 4 * WORLD_LIMIT,
        in_world(vision_point(a, b, len, i)),
        abs(along(a.x as int, b.x - a.x, i * VISION_STEP, len)) <= CELL_LIMIT,
        abs(along(a.y as int, b.y - a.y, i * VISION_STEP, len)) <= CELL_LIMIT,
        abs(along(a.z as int, b.z - a.z, i * VISION_STEP, len)) <= CELL_LIMIT,
{
    let k = i * VISION_STEP;
    let dd = diff_spec(a, b);
    assert(within(dd, 2 * WORLD_LIMIT));
    assert(norm2(dd) <= 12 * WORLD_LIMIT * WORLD_LIMIT) by (nonlinear_arith)
        requires within(dd, 2 * WORLD_LIMIT);
    assert(len <= 4 * WORLD_LIMIT) by (nonlinear_arith)
        requires
            len * len <= norm2(diff_spec(a, b)),
            norm2(diff_spec(a, b)) <= 12 * WORLD_LIMIT * WORLD_LIMIT,
            len >= 0;
    assert(i * 500 < len) by (nonlinear_arith)
        requires 1 <= i < (len + 499) / 500, len >= 0;
    lemma_along_between(a.x as int, b.x - a.x, k, len);
    lemma_along_between(a.y as int, b.y - a.y, k, len);
    lemma_along_between(a.z as int, b.z - a.z, k, len);
}

/// Whether an observer at `a` sees the point `b`.
pub fn can_see(grid: &VoxelGrid, a: Point, b: Point) -> (r: bool)
    requires
        grid.wf(),
        in_world(a),
        in_world(b),
    ensures
        r == sees_spec(grid.blocks(), a, b),
{
    let len = distance(a, b);
    let d = diff(a, b);
    let n = (len + VISION_STEP - 1) / VISION_STEP;
    let mut i: i64 = 1;
    while i < n
        invariant
            grid.wf(),
            in_world(a),
            in_world(b),
            len == distance_spec(a, b),
            is_distance(a, b, len as int),
            d == diff_spec(a, b),
            n == vision_steps(len as int),
            1 <= i,
            forall|j: int|
                1 <= j < i ==> !grid.blocks().contains_key(
                    #[trigger] cell_of_spec(vision_point(a, b, len as int, j)),
                ),
        decreases n - i,
    {
        proof {
            lemma_vision_point_bounded(a, b, len as int, i as int);
        }
        let k = i * VISION_STEP;
        let p = Point {
            x: step_along(a.x, d.x, k, len),
            y: step_along(a.y, d.y, k, len),
            z: step_along(a.z, d.z, k, len),
        };
        assert(p == vision_point(a, b, len as int, i as int));
        let c = cell_of(p);
        if grid.contains(c) {
            return false;
        }
        i = i + 1;
    }
    true
}

/// A block on one of the samples between an observer and a target hides
/// the target.
pub proof fn lemma_block_on_line_hides(m: Map<Coordinate, BlockType>, a: Point, b: Point, i: int)
    requires
        1 <= i < vision_steps(distance_spec(a, b)),
        m.contains_key(cell_of_spec(vision_point(a, b, distance_spec(a, b), i))),
    ensures
        !sees_spec(m, a, b),
{
}

} // verus!
