//! Mining and placing blocks from a player's eye along an aim direction.
use vstd::prelude::*;
use crate::geom::{in_world, norm2, within, Point, UNIT};
use crate::grid::{BlockType, Coordinate, VoxelGrid};
use crate::ray::{place_target, place_target_spec, unit_aim};

verus! {

/// The square of the mining reach of five blocks, in thousandths squared.
pub const REACH_SQUARED: i128 = 25_000_000;

/// The offset from the eye to the corner point of a cell, per axis.
pub open spec fn offset_x(eye: Point, c: Coordinate) -> int {
    c.x * UNIT - eye.x
}

pub open spec fn offset_y(eye: Point, c: Coordinate) -> int {
    c.y * UNIT - eye.y
}

pub open spec fn offset_z(eye: Point, c: Coordinate) -> int {
    c.z * UNIT - eye.z
}

/// The squared distance from the eye to a cell's point.
pub open spec fn dist2(eye: Point, c: Coordinate) -> int {
    offset_x(eye, c) * offset_x(eye, c) + offset_y(eye, c) * offset_y(eye, c) + offset_z(eye, c)
        * offset_z(eye, c)
}

/// The aim direction times the offset to a cell's point.
pub open spec fn dot(eye: Point, aim: Point, c: Coordinate) -> int {
    aim.x * offset_x(eye, c) + aim.y * offset_y(eye, c) + aim.z * offset_z(eye, c)
}

/// The cell lies in the aiming cone: the cosine between the aim and the
/// direction to the cell exceeds seven tenths.
pub open spec fn in_cone(eye: Point, aim: Point, c: Coordinate) -> bool {
    dot(eye, aim, c) > 0 && 100 * dot(eye, aim, c) * dot(eye, aim, c) > 49 * norm2(aim) * dist2(eye, c)
}

/// The cell can be mined from the eye: within reach and in the cone.
pub open spec fn minable(eye: Point, aim: Point, c: Coordinate) -> bool {
    dist2(eye, c) < REACH_SQUARED && in_cone(eye, aim, c)
}

/// Among the first `n` entries, the index of the nearest minable cell; on
/// equal distances the earliest entry wins.
pub open spec fn nearest_minable(s: Seq<(Coordinate, BlockType)>, eye: Point, aim: Point, n: int) -> Option<int>
    decreases n,
{
    if n <= 0 {
        None
    } else {
        let prev = nearest_minable(s, eye, aim, n - 1);
        let c = s[n - 1].0;
        if minable(eye, aim, c) && (prev is None || dist2(eye, c) < dist2(eye, s[prev->Some_0].0)) {
            Some(n - 1)
        } else {
            prev
        }
    }
}

/// The cell that a mining action from `eye` along `aim` takes.
pub open spec fn mining_target_spec(s: Seq<(Coordinate, BlockType)>, eye: Point, aim: Point) -> Option<Coordinate> {
    match nearest_minable(s, eye, aim, s.len() as int) {
        Some(i) => Some(s[i].0),
        None => None,
    }
}

/// The nearest search yields a minable entry no farther than any minable
/// entry, and strictly nearer than every earlier minable one; it yields
/// nothing only where no entry is minable.
pub proof fn lemma_nearest_minable(s: Seq<(Coordinate, BlockType)>, eye: Point, aim: Point, n: int)
    requires
        0 <= n <= s.len(),
    ensures
        match nearest_minable(s, eye, aim, n) {
            Some(i) => {
                &&& 0 <= i < n
                &&& minable(eye, aim, s[i].0)
                &&& forall|j: int|
                    0 <= j < n && minable(eye, aim, #[trigger] s[j].0) ==> dist2(eye, s[i].0) <= dist2(
                        eye,
                        s[j].0,
                    )
                &&& forall|j: int|
                    0 <= j < i && minable(eye, aim, #[trigger] s[j].0) ==> dist2(eye, s[i].0) < dist2(
                        eye,
                        s[j].0,
                    )
            },
            None => forall|j: int| 0 <= j < n ==> !minable(eye, aim, #[trigger] s[j].0),
        },
    decreases n,
{
    if n > 0 {
        lemma_nearest_minable(s, eye, aim, n - 1);
    }
}

/// Bounds that keep the mining arithmetic within `i128`.
proof fn lemma_mining_bounds(eye: Point, aim: Point, c: Coordinate)
    requires
        in_world(eye),
        within(aim, UNIT as int),
    ensures
        0 <= offset_x(eye, c) * offset_x(eye, c) <= 16_000_000_000_000_000_000_000_000,
        0 <= offset_y(eye, c) * offset_y(eye, c) <= 16_000_000_000_000_000_000_000_000,
        0 <= offset_z(eye, c) * offset_z(eye, c) <= 16_000_000_000_000_000_000_000_000,
        -4_000_000_000_000_000 <= aim.x * offset_x(eye, c) <= 4_000_000_000_000_000,
        -4_000_000_000_000_000 <= aim.y * offset_y(eye, c) <= 4_000_000_000_000_000,
        -4_000_000_000_000_000 <= aim.z * offset_z(eye, c) <= 4_000_000_000_000_000,
        0 <= dist2(eye, c) <= 48_000_000_000_000_000_000_000_000,
        -12_000_000_000_000_000 <= dot(eye, aim, c) <= 12_000_000_000_000_000,
{
    let ox = offset_x(eye, c);
    let oy = offset_y(eye, c);
    let oz = offset_z(eye, c);
    let b: int = 4_000_000_000_000;
    assert(-b <= ox <= b && -b <= oy <= b && -b <= oz <= b);
    assert(0 <= ox * ox <= b * b) by (nonlinear_arith)
        requires -b <= ox <= b;
    assert(0 <= oy * oy <= b * b) by (nonlinear_arith)
        requires -b <= oy <= b;
    assert(0 <= oz * oz <= b * b) by (nonlinear_arith)
        requires -b <= oz <= b;
    assert(-1000 * b <= aim.x * ox <= 1000 * b) by (nonlinear_arith)
        requires -b <= ox <= b, -1000 <= aim.x <= 1000;
    assert(-1000 * b <= aim.y * oy <= 1000 * b) by (nonlinear_arith)
        requires -b <= oy <= b, -1000 <= aim.y <= 1000;
    assert(-1000 * b <= aim.z * oz <= 1000 * b) by (nonlinear_arith)
        requires -b <= oz <= b, -1000 <= aim.z <= 1000;
}

/// Whether the cell is minable, together with its squared distance.
fn minable_at(eye: Point, aim: Point, c: Coordinate) -> (r: (bool, i128))
    requires
        in_world(eye),
        within(aim, UNIT as int),
    ensures
        r.0 == in_cone(eye, aim, c),
        r.1 == dist2(eye, c),
{
    proof {
        lemma_mining_bounds(eye, aim, c);
        let d = dot(eye, aim, c);
        assert(d * d <= 144_000_000_000_000_000_000_000_000_000_000) by (nonlinear_arith)
            requires -12_000_000_000_000_000 <= d <= 12_000_000_000_000_000;
        assert(d * d >= 0) by (nonlinear_arith);
    }
    let ox = c.x as i128 * 1000 - eye.x as i128;
    let oy = c.y as i128 * 1000 - eye.y as i128;
    let oz = c.z as i128 * 1000 - eye.z as i128;
    let d2 = ox * ox + oy * oy + oz * oz;
    let d = aim.x as i128 * ox + aim.y as i128 * oy + aim.z as i128 * oz;
    proof {
        assert(d2 == dist2(eye, c));
        assert(d == dot(eye, aim, c));
        assert(-144_000_000_000_000_000_000_000_000_000_000_000 <= 100 * d * d
            <= 144_000_000_000_000_000_000_000_000_000_000_000) by (nonlinear_arith)
            requires -12_000_000_000_000_000 <= d <= 12_000_000_000_000_000;
    }
    proof {
        assert(0 <= aim.x * aim.x <= 1_000_000 && 0 <= aim.y * aim.y <= 1_000_000 && 0 <= aim.z * aim.z
            <= 1_000_000) by (nonlinear_arith)
            requires within(aim, UNIT as int);
    }
    let a2 = aim.x as i128 * aim.x as i128 + aim.y as i128 * aim.y as i128 + aim.z as i128 * aim.z as i128;
    proof {
        assert(a2 == norm2(aim));
        assert(0 <= 49 * a2 * d2 <= 49 * 3_000_000 * 48_000_000_000_000_000_000_000_000) by (nonlinear_arith)
            requires 0 <= a2 <= 3_000_000, 0 <= d2 <= 48_000_000_000_000_000_000_000_000;
    }
    (d > 0 && 100 * d * d > 49 * a2 * d2, d2)
}

/// The cell that mining from `eye` along `aim` would take: the nearest
/// occupied cell within reach and inside the aiming cone, the earliest
/// filled on a tie.
pub fn mining_target(grid: &VoxelGrid, eye: Point, aim: Point) -> (r: Option<Coordinate>)
    requires
        grid.wf(),
        in_world(eye),
        within(aim, UNIT as int),
    ensures
        r == mining_target_spec(grid@, eye, aim),
        match r {
            Some(c) => {
                &&& grid.blocks().contains_key(c)
                &&& minable(eye, aim, c)
                &&& forall|d: Coordinate|
                    #[trigger] grid.blocks().contains_key(d) && minable(eye, aim, d) ==> dist2(eye, c)
                        <= dist2(eye, d)
            },
            None => forall|d: Coordinate| #[trigger] grid.blocks().contains_key(d) ==> !minable(eye, aim, d),
        },
{
    let n = grid.len();
    let mut best: Option<usize> = None;
    let mut best_d2: i128 = REACH_SQUARED;
    let mut i: usize = 0;
    while i < n
        invariant
            grid.wf(),
            n == grid@.len(),
            in_world(eye),
            within(aim, UNIT as int),
            0 <= i <= n,
            best == (match nearest_minable(grid@, eye, aim, i as int) {
                Some(k) => Some(k as usize),
                None => None::<usize>,
            }),
            match best {
                Some(k) => k < i && best_d2 == dist2(eye, grid@[k as int].0),
                None => best_d2 == REACH_SQUARED,
            },
        decreases n - i,
    {
        let (c, _) = grid.entry(i);
        let (cone, d2) = minable_at(eye, aim, c);
        if d2 < best_d2 && cone {
            proof {
                lemma_nearest_minable(grid@, eye, aim, i as int);
            }
            best = Some(i);
            best_d2 = d2;
        } else {
            proof {
                lemma_nearest_minable(grid@, eye, aim, i as int);
            }
        }
        i = i + 1;
    }
    proof {
        let s = grid@;
        lemma_nearest_minable(s, eye, aim, n as int);
        assert forall|d: Coordinate| #[trigger] grid.blocks().contains_key(d) implies (match best {
            Some(k) => minable(eye, aim, d) ==> dist2(eye, s[k as int].0) <= dist2(eye, d),
            None => !minable(eye, aim, d),
        }) by {
            let j = choose|j: int| 0 <= j < s.len() && #[trigger] s[j].0 == d;
            assert(s[j].0 == d);
        }
        if best is Some {
            crate::grid::lemma_entry_in_map(s, best->Some_0 as int);
        }
    }
    match best {
        Some(k) => Some(grid.entry(k).0),
        None => None,
    }
}

/// Mines from `eye` along `aim`: the target cell, if any, is emptied and
/// reported.
pub fn mine(grid: &mut VoxelGrid, eye: Point, aim: Point) -> (r: Option<Coordinate>)
    requires
        old(grid).wf(),
        in_world(eye),
        within(aim, UNIT as int),
    ensures
        final(grid).wf(),
        r == mining_target_spec(old(grid)@, eye, aim),
        match r {
            Some(c) => old(grid).blocks().contains_key(c) && final(grid).blocks() == old(
                grid,
            ).blocks().remove(c),
            None => final(grid).blocks() == old(grid).blocks(),
        },
{
    let t = mining_target(grid, eye, aim);
    match t {
        Some(c) => {
            proof {
                lemma_nearest_minable(grid@, eye, aim, grid@.len() as int);
                let k = nearest_minable(grid@, eye, aim, grid@.len() as int)->Some_0;
                crate::grid::lemma_entry_in_map(grid@, k);
            }
            grid.remove(c);
        },
        None => {},
    }
    t
}

/// The cell that placing from `eye` along `aim` fills: the target of the
/// placement march, unless it is occupied.
pub open spec fn placed_spec(m: Map<Coordinate, BlockType>, eye: Point, aim: Point) -> Option<Coordinate> {
    match place_target_spec(m, eye, aim) {
        Some(c) => if m.contains_key(c) {
            None
        } else {
            Some(c)
        },
        None => None,
    }
}

/// Places a block of type `t` from `eye` along `aim` against the first
/// surface met, and reports the cell filled.
pub fn place(grid: &mut VoxelGrid, eye: Point, aim: Point, t: BlockType) -> (r: Option<Coordinate>)
    requires
        old(grid).wf(),
        in_world(eye),
        unit_aim(aim),
    ensures
        final(grid).wf(),
        r == placed_spec(old(grid).blocks(), eye, aim),
        match r {
            Some(c) => final(grid).blocks() == old(grid).blocks().insert(c, t),
            None => final(grid).blocks() == old(grid).blocks(),
        },
{
    match place_target(grid, eye, aim) {
        Some(c) => {
            if grid.contains(c) {
                None
            } else {
                grid.set(c, t);
                Some(c)
            }
        },
        None => None,
    }
}

/// Removing a cell twice is removing it once, and removing an empty cell
/// changes nothing.
pub proof fn lemma_remove_idempotent(m: Map<Coordinate, BlockType>, c: Coordinate)
    ensures
        m.remove(c).remove(c) == m.remove(c),
        !m.contains_key(c) ==> m.remove(c) == m,
{
    assert(m.remove(c).remove(c) =~= m.remove(c));
    if !m.contains_key(c) {
        assert(m.remove(c) =~= m);
    }
}

/// Placing where the march ends on an occupied cell places nothing.
pub proof fn lemma_place_on_occupied(m: Map<Coordinate, BlockType>, eye: Point, aim: Point)
    requires
        place_target_spec(m, eye, aim) is Some,
        m.contains_key(place_target_spec(m, eye, aim)->Some_0),
    ensures
        placed_spec(m, eye, aim) is None,
{
}

/// Filling a cell and reading it gives the block back; filling and then
/// emptying it leaves it empty; other cells are untouched by either.
pub proof fn lemma_round_trip(m: Map<Coordinate, BlockType>, c: Coordinate, t: BlockType, d: Coordinate)
    ensures
        m.insert(c, t).contains_key(c) && m.insert(c, t)[c] == t,
        !m.insert(c, t).remove(c).contains_key(c),
        d != c ==> m.insert(c, t).contains_key(d) == m.contains_key(d),
        d != c && m.contains_key(d) ==> m.insert(c, t)[d] == m[d],
        d != c ==> m.remove(c).contains_key(d) == m.contains_key(d),
{
}

} // verus!
