//! Gravity and single-cell collision of a body against the grid.
use vstd::prelude::*;
use crate::geom::{abs, cell_of, cell_of_spec, in_world, within, Point, CELL_LIMIT, WORLD_LIMIT};
use crate::grid::{BlockType, Coordinate, VoxelGrid};

verus! {

/// Downward acceleration, in thousandths of a block per second squared.
pub const GRAVITY: i64 = 9800;

/// The largest speed component accepted, in thousandths per second.
pub const MAX_SPEED: i64 = 500_000_000;

/// The longest time step accepted, in milliseconds: together with the
/// largest speed it keeps every move within the cell limit, so that the
/// cell of every position fits an `i32`.
pub const MAX_DT: i64 = 1_000_000;

/// The largest speed component after gravity acts for the longest step.
pub const MAX_FALL_SPEED: i64 = 509_800_000;

/// A moving body: where it is and how fast it goes (thousandths per second).
#[derive(Clone, Copy, Debug, PartialEq, Eq, Structural)]
pub struct Body {
    pub position: Point,
    pub velocity: Point,
}

/// A body after one step, and whether it stands on a block.
#[derive(Clone, Copy, Debug, PartialEq, Eq, Structural)]
pub struct Resolved {
    pub body: Body,
    pub grounded: bool,
}

/// A body that a step accepts.
pub open spec fn valid_body(b: Body) -> bool {
    in_world(b.position) && within(b.velocity, MAX_SPEED as int)
}

/// The vertical velocity after gravity acts for `dt` milliseconds.
pub open spec fn fallen_vy(vy: int, dt: int) -> int {
    vy - (GRAVITY * dt) / 1000
}

/// Where the body would be after `dt` milliseconds at velocity `v`.
pub open spec fn candidate_spec(p: Point, v: Point, dt: int) -> Point {
    Point {
        x: (p.x + (v.x * dt) / 1000) as i64,
        y: (p.y + (v.y * dt) / 1000) as i64,
        z: (p.z + (v.z * dt) / 1000) as i64,
    }
}

/// The cell right under the cell holding a point.
pub open spec fn below_spec(p: Point) -> Coordinate {
    let c = cell_of_spec(p);
    Coordinate { x: c.x, y: (c.y - 1) as i32, z: c.z }
}

/// One step of gravity and collision: the body moves to its candidate
/// position unless that cell is occupied, in which case it stays and stops
/// falling; standing on a block while not rising stops it and grounds it.
pub open spec fn resolve_spec(m: Map<Coordinate, BlockType>, b: Body, dt: int) -> Resolved {
    let p = b.position;
    let v = b.velocity;
    let vy1 = fallen_vy(v.y as int, dt);
    let cand = candidate_spec(p, Point { x: v.x, y: vy1 as i64, z: v.z }, dt);
    let blocked = m.contains_key(cell_of_spec(cand));
    let next_pos = if blocked {
        p
    } else {
        cand
    };
    let vy2 = if blocked {
        0
    } else {
        vy1
    };
    let grounded = m.contains_key(below_spec(p)) && vy2 <= 0;
    let vy3 = if grounded {
        0
    } else {
        vy2
    };
    Resolved { body: Body { position: next_pos, velocity: Point { x: v.x, y: vy3 as i64, z: v.z } }, grounded }
}

/// Moves one coordinate by `v` thousandths per second for `dt` milliseconds.
fn advance(a: i64, v: i64, dt: i64) -> (r: i64)
    requires
        abs(a as int) <= WORLD_LIMIT,
        abs(v as int) <= MAX_FALL_SPEED,
        0 <= dt <= MAX_DT,
    ensures
        r == a + (v * dt) / 1000,
        abs(r as int) <= CELL_LIMIT,
{
    assert(abs(v * dt) <= (MAX_FALL_SPEED * 1000) * 1000) by (nonlinear_arith)
        requires abs(v as int) <= MAX_FALL_SPEED, 0 <= dt <= 1_000_000;
    proof {
        crate::geom::lemma_div_within(v * dt, 1000, MAX_FALL_SPEED * 1000);
    }
    let q = crate::geom::div_floor((v as i128) * (dt as i128), 1000);
    (a as i128 + q) as i64
}

/// Applies gravity for `dt` milliseconds and resolves the move against the grid.
pub fn resolve(grid: &VoxelGrid, b: Body, dt: i64) -> (r: Resolved)
    requires
        grid.wf(),
        valid_body(b),
        0 <= dt <= MAX_DT,
    ensures
        r == resolve_spec(grid.blocks(), b, dt as int),
{
    let p = b.position;
    let v = b.velocity;
    assert(0 <= GRAVITY * dt <= GRAVITY * 1_000_000) by (nonlinear_arith)
        requires 0 <= dt <= 1_000_000;
    let vy1 = v.y - GRAVITY * dt / 1000;
    let cand = Point { x: advance(p.x, v.x, dt), y: advance(p.y, vy1, dt), z: advance(p.z, v.z, dt) };
    let blocked = grid.contains(cell_of(cand));
    let next_pos = if blocked {
        p
    } else {
        cand
    };
    let vy2 = if blocked {
        0
    } else {
        vy1
    };
    let c = cell_of(p);
    proof {
        crate::geom::lemma_floor_unit_bound(p.y as int);
    }
    let below = Coordinate { x: c.x, y: c.y - 1, z: c.z };
    let grounded = grid.contains(below) && vy2 <= 0;
    let vy3 = if grounded {
        0
    } else {
        vy2
    };
    Resolved { body: Body { position: next_pos, velocity: Point { x: v.x, y: vy3, z: v.z } }, grounded }
}

/// A body outside an occupied cell never ends a step inside it.
pub proof fn lemma_no_penetration(m: Map<Coordinate, BlockType>, b: Body, dt: int, c: Coordinate)
    requires
        m.contains_key(c),
        cell_of_spec(b.position) != c,
    ensures
        cell_of_spec(resolve_spec(m, b, dt).body.position) != c,
{
}

} // verus!
