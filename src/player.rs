//! The player's own rules: walking along an input direction, and the block
//! type that each number key selects.
use vstd::prelude::*;
use crate::geom::{abs, along, distance, distance_spec, in_world, step_along, Point};
use crate::grid::BlockType;
use crate::physics::MAX_DT;

verus! {

/// Walking speed, in thousandths of a block per second.
pub const PLAYER_SPEED: i64 = 5000;

/// The origin, from which a direction's length is measured.
pub open spec fn origin() -> Point {
    Point { x: 0, y: 0, z: 0 }
}

/// Where a walk of `dt` milliseconds along `dir` ends: the position moves
/// at walking speed along the direction scaled to unit length, and stays
/// put when there is no direction.
pub open spec fn walk_spec(pos: Point, dir: Point, dt: int) -> Point {
    let len = distance_spec(origin(), dir);
    let k = (PLAYER_SPEED * dt) / 1000;
    if len == 0 || k == 0 {
        pos
    } else {
        Point {
            x: along(pos.x as int, dir.x as int, k, len) as i64,
            y: along(pos.y as int, dir.y as int, k, len) as i64,
            z: along(pos.z as int, dir.z as int, k, len) as i64,
        }
    }
}

/// Walks `dt` milliseconds from `pos` along the input direction `dir`.
pub fn walk(pos: Point, dir: Point, dt: i64) -> (r: Point)
    requires
        in_world(pos),
        in_world(dir),
        0 <= dt <= MAX_DT,
    ensures
        r == walk_spec(pos, dir, dt as int),
{
    let o = Point { x: 0, y: 0, z: 0 };
    let len = distance(o, dir);
    assert(0 <= PLAYER_SPEED * dt <= PLAYER_SPEED * 1_000_000) by (nonlinear_arith)
        requires 0 <= dt <= 1_000_000;
    let k = PLAYER_SPEED * dt / 1000;
    if len == 0 || k == 0 {
        return pos;
    }
    proof {
        assert(crate::geom::diff_spec(o, dir) == dir);
        crate::geom::lemma_component_within_length(dir, len as int);
        assert(abs(dir.x * k) <= k * len) by (nonlinear_arith)
            requires abs(dir.x as int) <= len, k >= 0;
        assert(abs(dir.y * k) <= k * len) by (nonlinear_arith)
            requires abs(dir.y as int) <= len, k >= 0;
        assert(abs(dir.z * k) <= k * len) by (nonlinear_arith)
            requires abs(dir.z as int) <= len, k >= 0;
        crate::geom::lemma_div_within(dir.x * k, len as int, k as int);
        crate::geom::lemma_div_within(dir.y * k, len as int, k as int);
        crate::geom::lemma_div_within(dir.z * k, len as int, k as int);
    }
    Point {
        x: step_along(pos.x, dir.x, k, len),
        y: step_along(pos.y, dir.y, k, len),
        z: step_along(pos.z, dir.z, k, len),
    }
}

/// The block type that number key `digit` selects, for the keys one to nine.
pub open spec fn digit_block_spec(digit: int) -> Option<BlockType> {
    if digit == 1 {
        Some(BlockType::Dirt)
    } else if digit == 2 {
        Some(BlockType::Stone)
    } else if digit == 3 {
        Some(BlockType::Wood)
    } else if digit == 4 {
        Some(BlockType::Grass)
    } else if digit == 5 {
        Some(BlockType::Sand)
    } else if digit == 6 {
        Some(BlockType::Glass)
    } else if digit == 7 {
        Some(BlockType::Obsidian)
    } else if digit == 8 {
        Some(BlockType::Ore)
    } else if digit == 9 {
        Some(BlockType::Water)
    } else {
        None
    }
}

/// The block type that number key `digit` selects; other keys select none.
pub fn block_for_digit(digit: u8) -> (r: Option<BlockType>)
    ensures
        r == digit_block_spec(digit as int),
{
    match digit {
        1 => Some(BlockType::Dirt),
        2 => Some(BlockType::Stone),
        3 => Some(BlockType::Wood),
        4 => Some(BlockType::Grass),
        5 => Some(BlockType::Sand),
        6 => Some(BlockType::Glass),
        7 => Some(BlockType::Obsidian),
        8 => Some(BlockType::Ore),
        9 => Some(BlockType::Water),
        _ => None,
    }
}

} // verus!
