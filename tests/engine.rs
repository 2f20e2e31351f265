use rand::SeedableRng;
use crimcraft::agent::{agent_tick, Pace, Pursuit};
use crimcraft::geom::{cell_of, distance, div_floor, isqrt, Point};
use crimcraft::grid::{BlockType, Coordinate, VoxelGrid};
use crimcraft::interact::{mine, mining_target, place};
use crimcraft::physics::{resolve, Body};
use crimcraft::player::{block_for_digit, walk};
use crimcraft::ray::{can_see, cast, place_target, PLACE_STEP, PLACE_STEPS};
use crimcraft::worldgen::{
    build_structure, generate_terrain, generate_world, place_glass_tower, place_pillar, place_tree,
    structure_kind, terrain_choice, StructureKind, WORLD_SIZE,
};

fn c(x: i32, y: i32, z: i32) -> Coordinate {
    Coordinate::new(x, y, z)
}

fn p(x: i64, y: i64, z: i64) -> Point {
    Point::new(x, y, z)
}

fn entries(g: &VoxelGrid) -> Vec<(Coordinate, BlockType)> {
    (0..g.len()).map(|i| g.entry(i)).collect()
}

#[test]
fn untouched_cells_are_empty() {
    let mut g = VoxelGrid::new();
    assert_eq!(g.get(c(0, 0, 0)), None);
    assert!(!g.contains(c(-7, 3, 1_000_000)));
    g.set(c(1, 2, 3), BlockType::Ore);
    assert_eq!(g.get(c(3, 2, 1)), None);
    assert_eq!(g.get(c(i32::MIN, i32::MAX, 0)), None);
}

#[test]
fn set_then_get_round_trip() {
    let mut g = VoxelGrid::new();
    g.set(c(4, -5, 6), BlockType::Glass);
    assert_eq!(g.get(c(4, -5, 6)), Some(BlockType::Glass));
    g.set(c(4, -5, 6), BlockType::Wood);
    assert_eq!(g.get(c(4, -5, 6)), Some(BlockType::Wood));
    assert_eq!(g.len(), 1);
}

#[test]
fn set_then_remove_round_trip() {
    let mut g = VoxelGrid::new();
    g.set(c(0, 1, 0), BlockType::Stone);
    g.set(c(0, 2, 0), BlockType::Dirt);
    g.remove(c(0, 1, 0));
    assert_eq!(g.get(c(0, 1, 0)), None);
    assert_eq!(g.get(c(0, 2, 0)), Some(BlockType::Dirt));
}

#[test]
fn removing_absent_cell_changes_nothing() {
    let mut g = VoxelGrid::new();
    g.set(c(1, 1, 1), BlockType::Sand);
    let before = entries(&g);
    g.remove(c(2, 2, 2));
    assert_eq!(entries(&g), before);
    g.remove(c(1, 1, 1));
    g.remove(c(1, 1, 1));
    assert_eq!(g.len(), 0);
}

#[test]
fn column_top_finds_highest_cell() {
    let mut g = VoxelGrid::new();
    assert_eq!(g.column_top(0, 0), None);
    g.set(c(0, 2, 0), BlockType::Dirt);
    g.set(c(0, 7, 0), BlockType::Dirt);
    g.set(c(0, 4, 0), BlockType::Dirt);
    g.set(c(1, 9, 0), BlockType::Dirt);
    assert_eq!(g.column_top(0, 0), Some(7));
    assert_eq!(g.column_top(0, 1), None);
}

#[test]
fn floor_division_rounds_down() {
    assert_eq!(div_floor(-1, 1000), -1);
    assert_eq!(div_floor(-1000, 1000), -1);
    assert_eq!(div_floor(-1001, 1000), -2);
    assert_eq!(div_floor(1999, 1000), 1);
    assert_eq!(cell_of(p(-1, 0, 2500)), c(-1, 0, 2));
}

#[test]
fn integer_square_root_and_distance() {
    assert_eq!(isqrt(0), 0);
    assert_eq!(isqrt(15), 3);
    assert_eq!(isqrt(16), 4);
    assert_eq!(isqrt(1u128 << 100), 1u64 << 50);
    assert_eq!(distance(p(0, 0, 0), p(3000, 4000, 0)), 5000);
    assert_eq!(distance(p(0, 0, 0), p(1, 1, 1)), 1);
}

#[test]
fn cast_is_deterministic() {
    let mut g = VoxelGrid::new();
    g.set(c(0, 0, 3), BlockType::Stone);
    let a = cast(&g, p(500, 500, 500), p(0, 0, 1000), PLACE_STEP, PLACE_STEPS);
    let b = cast(&g, p(500, 500, 500), p(0, 0, 1000), PLACE_STEP, PLACE_STEPS);
    assert_eq!(a, b);
    assert_eq!(a.hit, Some(c(0, 0, 3)));
    assert_eq!(a.last_empty, Some(c(0, 0, 2)));
}

#[test]
fn cast_through_air_reports_last_sample() {
    let g = VoxelGrid::new();
    let r = cast(&g, p(500, 500, 500), p(1000, 0, 0), PLACE_STEP, PLACE_STEPS);
    assert_eq!(r.hit, None);
    assert_eq!(r.last_empty, Some(c(5, 0, 0)));
}

#[test]
fn block_on_line_blocks_vision_and_chase() {
    let mut g = VoxelGrid::new();
    let agent = p(500, 500, 500);
    let player = p(10_500, 500, 500);
    assert!(can_see(&g, agent, player));
    g.set(c(5, 0, 0), BlockType::Stone);
    assert!(!can_see(&g, agent, player));
    let t = agent_tick(&g, agent, Pursuit::idle(), player, 100);
    assert_eq!(t.pursuit, Pursuit { chase_timer: 0, spotted_player: false });
    assert_eq!(t.position, agent);
    assert!(!t.spotted_signal);
}

#[test]
fn visible_player_is_chased() {
    let g = VoxelGrid::new();
    let agent = p(500, 500, 500);
    let player = p(10_500, 500, 500);
    let t = agent_tick(&g, agent, Pursuit::idle(), player, 1000);
    assert_eq!(t.pursuit, Pursuit { chase_timer: 3000, spotted_player: true });
    assert!(t.spotted_signal);
    assert!(t.face_player);
    assert_eq!(t.position, p(4000, 500, 500));
    let t2 = agent_tick(&g, t.position, t.pursuit, player, 1000);
    assert!(!t2.spotted_signal);
    assert_eq!(t2.position, p(7500, 500, 500));
}

#[test]
fn far_player_is_not_chased() {
    let g = VoxelGrid::new();
    let t = agent_tick(&g, p(0, 0, 0), Pursuit::idle(), p(16_000, 0, 0), 1000);
    assert_eq!(t.pursuit, Pursuit::idle());
    assert!(!t.spotted_signal);
    assert!(t.face_player);
    let t = agent_tick(&g, p(0, 0, 0), Pursuit::idle(), p(20_000, 0, 0), 1000);
    assert!(!t.face_player);
}

#[test]
fn chase_timer_runs_out_after_three_seconds() {
    let mut s = Pursuit { chase_timer: 3000, spotted_player: true };
    let r = s.step(1000, false, 1000);
    assert_eq!(r.pace, Pace::Linger);
    s = r.next;
    s = s.step(1000, false, 1000).next;
    assert_eq!(s, Pursuit { chase_timer: 1000, spotted_player: true });
    let r = s.step(1000, false, 1000);
    assert_eq!(r.pace, Pace::Linger);
    assert_eq!(r.next, Pursuit { chase_timer: 0, spotted_player: false });
    assert_eq!(r.next.step(1000, false, 1000).pace, Pace::Still);
}

#[test]
fn lingering_agent_moves_slower() {
    let mut g = VoxelGrid::new();
    g.set(c(5, 0, 0), BlockType::Stone);
    let s = Pursuit { chase_timer: 3000, spotted_player: true };
    let t = agent_tick(&g, p(500, 500, 500), s, p(10_500, 500, 500), 1000);
    assert_eq!(t.position, p(2950, 500, 500));
    assert_eq!(t.pursuit, Pursuit { chase_timer: 2000, spotted_player: true });
}

#[test]
fn falling_body_stops_on_block() {
    let mut g = VoxelGrid::new();
    g.set(c(0, 0, 0), BlockType::Stone);
    let b = Body { position: p(500, 1500, 500), velocity: p(0, -5000, 0) };
    let r = resolve(&g, b, 100);
    assert_eq!(r.body.position, p(500, 1500, 500));
    assert_eq!(r.body.velocity, p(0, 0, 0));
    assert!(r.grounded);
    assert_ne!(cell_of(r.body.position), c(0, 0, 0));
}

#[test]
fn free_fall_applies_gravity() {
    let g = VoxelGrid::new();
    let b = Body { position: p(0, 10_000, 0), velocity: p(1000, 0, 0) };
    let r = resolve(&g, b, 1000);
    assert_eq!(r.body.velocity, p(1000, -9800, 0));
    assert_eq!(r.body.position, p(1000, 200, 0));
    assert!(!r.grounded);
}

#[test]
fn mining_empty_world_removes_nothing() {
    let mut g = VoxelGrid::new();
    assert_eq!(mine(&mut g, p(0, 0, 0), p(0, 0, 1000)), None);
    assert_eq!(g.len(), 0);
}

#[test]
fn mining_block_in_front_removes_it() {
    let mut g = VoxelGrid::new();
    g.set(c(0, 0, 0), BlockType::Stone);
    assert_eq!(mine(&mut g, p(0, 0, -2000), p(0, 0, 1000)), Some(c(0, 0, 0)));
    assert!(!g.contains(c(0, 0, 0)));
}

#[test]
fn mining_ignores_blocks_out_of_reach_or_cone() {
    let mut g = VoxelGrid::new();
    g.set(c(0, 0, 6), BlockType::Stone);
    g.set(c(3, 0, 1), BlockType::Stone);
    assert_eq!(mining_target(&g, p(0, 0, 0), p(0, 0, 1000)), None);
}

#[test]
fn mining_takes_nearest_then_earliest() {
    let mut g = VoxelGrid::new();
    g.set(c(0, 0, 4), BlockType::Stone);
    g.set(c(1, 0, 2), BlockType::Dirt);
    g.set(c(-1, 0, 2), BlockType::Sand);
    g.set(c(0, 0, 3), BlockType::Wood);
    assert_eq!(mining_target(&g, p(0, 0, 0), p(0, 0, 1000)), Some(c(1, 0, 2)));
}

#[test]
fn placing_into_open_space_places_nothing() {
    let mut g = VoxelGrid::new();
    assert_eq!(place(&mut g, p(500, 500, 500), p(0, 0, 1000), BlockType::Dirt), None);
    assert_eq!(g.len(), 0);
}

#[test]
fn placing_against_surface_fills_cell_in_front() {
    let mut g = VoxelGrid::new();
    g.set(c(0, 0, 3), BlockType::Stone);
    assert_eq!(place_target(&g, p(500, 500, 500), p(0, 0, 1000)), Some(c(0, 0, 2)));
    assert_eq!(place(&mut g, p(500, 500, 500), p(0, 0, 1000), BlockType::Glass), Some(c(0, 0, 2)));
    assert_eq!(g.get(c(0, 0, 2)), Some(BlockType::Glass));
}

#[test]
fn placing_from_inside_a_block_places_nothing() {
    let mut g = VoxelGrid::new();
    g.set(c(0, 0, 0), BlockType::Stone);
    assert_eq!(place(&mut g, p(500, 500, 500), p(0, 0, 1000), BlockType::Dirt), None);
    assert_eq!(g.len(), 1);
}

#[test]
fn structure_buckets() {
    assert_eq!(structure_kind(0), StructureKind::Tree);
    assert_eq!(structure_kind(6), StructureKind::Tree);
    assert_eq!(structure_kind(7), StructureKind::StonePillar);
    assert_eq!(structure_kind(8), StructureKind::StonePillar);
    assert_eq!(structure_kind(9), StructureKind::GlassTower);
}

#[test]
fn tree_has_trunk_and_canopy_without_corners() {
    let mut g = VoxelGrid::new();
    g.set(c(0, 0, 0), BlockType::Grass);
    g.set(c(1, 5, 0), BlockType::Ore);
    place_tree(&mut g, 0, 0, 0);
    for y in 1..=5 {
        assert_eq!(g.get(c(0, y, 0)), Some(BlockType::Wood));
    }
    assert_eq!(g.get(c(0, 6, 0)), Some(BlockType::Grass));
    assert_eq!(g.get(c(1, 5, 0)), Some(BlockType::Ore));
    assert_eq!(g.get(c(2, 4, 1)), Some(BlockType::Grass));
    assert_eq!(g.get(c(2, 6, 2)), None);
    assert_eq!(g.get(c(-2, 5, -2)), None);
    assert_eq!(g.get(c(0, 7, 0)), None);
    assert_eq!(g.get(c(0, 3, 1)), None);
    assert_eq!(g.len(), 2 + 5 + 21 * 3 - 3);
}

#[test]
fn pillar_and_glass_tower() {
    let mut g = VoxelGrid::new();
    place_pillar(&mut g, 3, 2, 3, 4);
    assert_eq!(g.get(c(3, 3, 3)), Some(BlockType::Stone));
    assert_eq!(g.get(c(3, 5, 3)), Some(BlockType::Stone));
    assert_eq!(g.get(c(3, 6, 3)), Some(BlockType::Obsidian));
    assert_eq!(g.len(), 4);
    place_glass_tower(&mut g, -1, 0, 0, 3);
    assert_eq!(g.get(c(-1, 1, 0)), Some(BlockType::Glass));
    assert_eq!(g.get(c(-1, 2, 0)), Some(BlockType::Glass));
    assert_eq!(g.get(c(-1, 3, 0)), None);
}

#[test]
fn same_seed_gives_same_world() {
    let a = generate_world(42, WORLD_SIZE);
    let b = generate_world(42, WORLD_SIZE);
    assert_eq!(entries(&a), entries(&b));
}

#[test]
fn generated_world_follows_the_rules() {
    let g = generate_world(7, WORLD_SIZE);
    for x in -WORLD_SIZE..WORLD_SIZE {
        for z in -WORLD_SIZE..WORLD_SIZE {
            assert!(g.contains(c(x, 0, z)));
        }
    }
    for (cell, t) in entries(&g) {
        assert!(cell.y >= 0 && cell.y <= 2 + 7 * 20);
        assert!(cell.x >= -WORLD_SIZE && cell.x < WORLD_SIZE);
        assert!(cell.z >= -WORLD_SIZE && cell.z < WORLD_SIZE);
        if cell.y == 0 {
            assert!(t != BlockType::Wood && t != BlockType::Glass && t != BlockType::Water);
        }
    }
    assert!(g.len() > (2 * WORLD_SIZE * 2 * WORLD_SIZE) as usize);
}

#[test]
fn terrain_columns_are_layered() {
    let mut r = rand::rngs::StdRng::seed_from_u64(11);
    let t = generate_terrain(&mut r, 4);
    for x in -4..4 {
        for z in -4..4 {
            let top = t.column_top(x, z).unwrap();
            assert!(top >= 0 && top < 3);
            for y in 0..=top {
                let b = t.get(c(x, y, z)).unwrap();
                if y == top && top > 0 {
                    assert!(b == BlockType::Grass || b == BlockType::Dirt);
                } else if y == top {
                    assert!(b == BlockType::Sand || b == BlockType::Dirt);
                } else if y == 0 {
                    assert!(b == BlockType::Obsidian || b == BlockType::Stone);
                } else {
                    assert!(b == BlockType::Stone || b == BlockType::Dirt);
                }
            }
        }
    }
    assert!(t.len() >= 64);
}

#[test]
fn walking_moves_at_player_speed() {
    assert_eq!(walk(p(0, 0, 0), p(0, 0, 0), 1000), p(0, 0, 0));
    assert_eq!(walk(p(0, 0, 0), p(1000, 0, 0), 1000), p(5000, 0, 0));
    assert_eq!(walk(p(100, 0, 0), p(0, 0, -2000), 200), p(100, 0, -1000));
    assert_eq!(walk(p(0, 0, 0), p(3000, 4000, 0), 1000), p(3000, 4000, 0));
}

#[test]
fn number_keys_select_block_types() {
    assert_eq!(block_for_digit(1), Some(BlockType::Dirt));
    assert_eq!(block_for_digit(6), Some(BlockType::Glass));
    assert_eq!(block_for_digit(9), Some(BlockType::Water));
    assert_eq!(block_for_digit(0), None);
    assert_eq!(block_for_digit(10), None);
}

#[test]
fn structure_on_empty_column_builds_nothing() {
    let mut g = VoxelGrid::new();
    g.set(c(5, 0, 5), BlockType::Dirt);
    build_structure(&mut g, 0, 0, 3, 0);
    assert_eq!(g.len(), 1);
}

#[test]
fn structure_is_built_on_column_top() {
    let mut g = VoxelGrid::new();
    g.set(c(0, 0, 0), BlockType::Stone);
    g.set(c(0, 2, 0), BlockType::Grass);
    build_structure(&mut g, 0, 0, 7, 5);
    assert_eq!(g.get(c(0, 3, 0)), Some(BlockType::Stone));
    assert_eq!(g.get(c(0, 6, 0)), Some(BlockType::Stone));
    assert_eq!(g.get(c(0, 7, 0)), Some(BlockType::Obsidian));
    assert_eq!(g.get(c(0, 8, 0)), None);
    let mut h = VoxelGrid::new();
    h.set(c(1, 1, 1), BlockType::Sand);
    build_structure(&mut h, 1, 1, 9, 4);
    assert_eq!(h.get(c(1, 4, 1)), Some(BlockType::Glass));
    assert_eq!(h.get(c(1, 5, 1)), None);
    let mut t = VoxelGrid::new();
    t.set(c(0, 1, 0), BlockType::Grass);
    build_structure(&mut t, 0, 0, 0, 0);
    assert_eq!(t.get(c(0, 6, 0)), Some(BlockType::Wood));
    assert_eq!(t.get(c(0, 7, 0)), Some(BlockType::Grass));
}

#[test]
fn layer_rule_from_drawn_values() {
    assert_eq!(terrain_choice(2, 2, false, true, false), BlockType::Grass);
    assert_eq!(terrain_choice(2, 2, false, false, false), BlockType::Dirt);
    assert_eq!(terrain_choice(0, 0, false, true, true), BlockType::Sand);
    assert_eq!(terrain_choice(0, 0, false, false, false), BlockType::Dirt);
    assert_eq!(terrain_choice(2, 0, true, true, false), BlockType::Obsidian);
    assert_eq!(terrain_choice(2, 1, true, true, false), BlockType::Stone);
    assert_eq!(terrain_choice(5, 1, true, true, false), BlockType::Ore);
    assert_eq!(terrain_choice(5, 1, false, false, false), BlockType::Dirt);
}

#[test]
fn cone_is_measured_against_aim_length() {
    let mut g = VoxelGrid::new();
    g.set(c(1, 0, 2), BlockType::Stone);
    assert_eq!(mining_target(&g, p(0, 0, 0), p(0, 0, 1000)), Some(c(1, 0, 2)));
    assert_eq!(mining_target(&g, p(0, 0, 0), p(0, 0, 10)), Some(c(1, 0, 2)));
    assert_eq!(mining_target(&g, p(0, 0, 0), p(1000, 0, 0)), None);
}

#[test]
fn generated_world_cell_count_is_bounded() {
    let g = generate_world(99, WORLD_SIZE);
    let n = g.len();
    assert!(n >= 1600 && n <= 3 * 1600 + 68 * 20);
    for (_, t) in entries(&g) {
        assert!(t != BlockType::Water && t != BlockType::Ore);
    }
}

#[test]
fn long_time_step_is_accepted() {
    let g = VoxelGrid::new();
    let b = Body { position: p(0, 0, 0), velocity: p(0, 0, 0) };
    let r = resolve(&g, b, 2000);
    assert_eq!(r.body.velocity, p(0, -19_600, 0));
    assert_eq!(r.body.position, p(0, -39_200, 0));
    assert_eq!(walk(p(0, 0, 0), p(1000, 0, 0), 3000), p(15_000, 0, 0));
}

#[test]
fn extreme_coordinates_are_distinct_cells() {
    let mut g = VoxelGrid::new();
    g.set(c(i32::MIN, i32::MAX, 0), BlockType::Ore);
    g.set(c(i32::MAX, i32::MIN, 0), BlockType::Sand);
    g.set(c(0, 0, i32::MIN), BlockType::Wood);
    g.set(c(0, 0, i32::MAX), BlockType::Glass);
    assert_eq!(g.len(), 4);
    assert_eq!(g.get(c(i32::MIN, i32::MAX, 0)), Some(BlockType::Ore));
    assert_eq!(g.get(c(i32::MAX, i32::MIN, 0)), Some(BlockType::Sand));
    assert_eq!(g.get(c(0, 0, i32::MIN)), Some(BlockType::Wood));
    assert_eq!(g.get(c(0, 0, i32::MAX)), Some(BlockType::Glass));
    g.remove(c(0, 0, i32::MIN));
    assert_eq!(g.get(c(0, 0, i32::MIN)), None);
    assert_eq!(g.entry(2), (c(0, 0, i32::MAX), BlockType::Glass));
}
