//! Seeded world generation: layered terrain columns, then trees, stone
//! pillars and glass towers on top of them.
use vstd::prelude::*;
use rand::rngs::StdRng;
use crate::grid::{BlockType, Coordinate, VoxelGrid};
use crate::random::{draw_range, draw_ratio, seeded};

verus! {

/// The default half-width of the generated square, in blocks.
pub const WORLD_SIZE: i32 = 20;

/// The largest half-width accepted.
pub const MAX_WORLD_SIZE: i32 = 1_000_000;

/// How many structures generation attempts to build.
pub const STRUCTURE_ATTEMPTS: i32 = 20;

/// The most that one structure rises above the top of its column.
pub const STRUCTURE_RISE: i32 = 7;

/// The block types that the layer rules allow at height `y` of a column
/// whose top is at height `h`.
pub open spec fn layer_allowed(h: int, y: int, t: BlockType) -> bool {
    if y == h && h > 0 {
        t == BlockType::Grass || t == BlockType::Dirt
    } else if y == h && h == 0 {
        t == BlockType::Sand || t == BlockType::Dirt
    } else if y == 0 {
        t == BlockType::Obsidian || t == BlockType::Stone
    } else if y < h - 2 {
        t == BlockType::Ore || t == BlockType::Stone || t == BlockType::Dirt
    } else {
        t == BlockType::Stone || t == BlockType::Dirt
    }
}

/// The block types allowed at height `y` of a terrain column of top `h`:
/// those of the layer rules, or water one above the ground of a flat column.
pub open spec fn terrain_allowed(h: int, y: int, t: BlockType) -> bool {
    (h < 1 && y == 1 && t == BlockType::Water) || layer_allowed(h, y, t)
}

/// The block at height `y` of a column of top `h`, from the drawn values:
/// `ore` for the ore draw of the deep layers, `pick` for the draw of the
/// layer rule that applies, `water` for the draw of the water rule.
pub open spec fn terrain_choice_spec(h: int, y: int, ore: bool, pick: bool, water: bool) -> BlockType {
    if h < 1 && y == 1 && water {
        BlockType::Water
    } else if y == h && h > 0 {
        if pick {
            BlockType::Grass
        } else {
            BlockType::Dirt
        }
    } else if y == h && h == 0 {
        if pick {
            BlockType::Sand
        } else {
            BlockType::Dirt
        }
    } else if y == 0 {
        if pick {
            BlockType::Obsidian
        } else {
            BlockType::Stone
        }
    } else if y < h - 2 && ore {
        BlockType::Ore
    } else if pick {
        BlockType::Stone
    } else {
        BlockType::Dirt
    }
}

/// The block at height `y` of a column of top `h`, from the drawn values.
pub fn terrain_choice(h: i32, y: i32, ore: bool, pick: bool, water: bool) -> (r: BlockType)
    requires
        0 <= y <= h,
    ensures
        r == terrain_choice_spec(h as int, y as int, ore, pick, water),
        terrain_allowed(h as int, y as int, r),
{
    if h < 1 && y == 1 && water {
        BlockType::Water
    } else if y == h && h > 0 {
        if pick {
            BlockType::Grass
        } else {
            BlockType::Dirt
        }
    } else if y == h && h == 0 {
        if pick {
            BlockType::Sand
        } else {
            BlockType::Dirt
        }
    } else if y == 0 {
        if pick {
            BlockType::Obsidian
        } else {
            BlockType::Stone
        }
    } else if y < h - 2 && ore {
        BlockType::Ore
    } else if pick {
        BlockType::Stone
    } else {
        BlockType::Dirt
    }
}

/// Draws the block at height `y` of a column of top `h`, consuming the
/// random stream in the order of the layer rules (the ore draw before the
/// stone draw of a deep layer), then the water rule; each draw is taken only
/// where its rule is reached.
fn terrain_block(rng: &mut StdRng, h: i32, y: i32) -> (r: BlockType)
    requires
        0 <= y <= h,
    ensures
        terrain_allowed(h as int, y as int, r),
        exists|ore: bool, pick: bool, water: bool| r == terrain_choice_spec(h as int, y as int, ore, pick, water),
{
    let deep = !(y == h) && y != 0 && y < h - 2;
    let ore = if deep {
        draw_ratio(rng, 1, 20)
    } else {
        false
    };
    let pick = if y == h && h > 0 {
        draw_ratio(rng, 3, 5)
    } else if y == h && h == 0 {
        draw_ratio(rng, 7, 10)
    } else if y == 0 {
        draw_ratio(rng, 1, 20)
    } else if ore {
        false
    } else {
        draw_ratio(rng, 4, 5)
    };
    let water = if h < 1 && y == 1 {
        draw_ratio(rng, 2, 5)
    } else {
        false
    };
    terrain_choice(h, y, ore, pick, water)
}

/// Two mappings agree at a cell.
pub open spec fn same_at(m1: Map<Coordinate, BlockType>, m2: Map<Coordinate, BlockType>, c: Coordinate) -> bool {
    m1.contains_key(c) == m2.contains_key(c) && (m1.contains_key(c) ==> m1[c] == m2[c])
}

/// The cell lies in the column at `(x, z)` between heights `lo` and `hi`.
pub open spec fn in_run(c: Coordinate, x: int, z: int, lo: int, hi: int) -> bool {
    c.x == x && c.z == z && lo <= c.y <= hi
}

/// Draws the height of the terrain column at `(x, z)` and fills it from
/// the ground up.
fn fill_column(grid: &mut VoxelGrid, rng: &mut StdRng, x: i32, z: i32) -> (h: i32)
    requires
        old(grid).wf(),
    ensures
        final(grid).wf(),
        0 <= h < 3,
        forall|c: Coordinate|
            !in_run(c, x as int, z as int, 0, h as int) ==> #[trigger] same_at(
                old(grid).blocks(),
                final(grid).blocks(),
                c,
            ),
        forall|c: Coordinate|
            #[trigger] in_run(c, x as int, z as int, 0, h as int) ==> final(grid).blocks().contains_key(c)
                && terrain_allowed(h as int, c.y as int, final(grid).blocks()[c]),
        (forall|c: Coordinate| #[trigger] old(grid).blocks().contains_key(c) ==> !(c.x == x && c.z == z))
            ==> final(grid)@.len() == old(grid)@.len() + h + 1,
{
    let h = draw_range(rng, 0, 3);
    let ghost m0 = grid.blocks();
    let ghost n0 = grid@.len();
    let ghost empty_column = forall|c: Coordinate| #[trigger] m0.contains_key(c) ==> !(c.x == x && c.z == z);
    let mut y: i32 = 0;
    while y <= h
        invariant
            grid.wf(),
            0 <= h < 3,
            0 <= y <= h + 1,
            forall|c: Coordinate|
                !in_run(c, x as int, z as int, 0, y - 1) ==> #[trigger] same_at(m0, grid.blocks(), c),
            forall|c: Coordinate|
                #[trigger] in_run(c, x as int, z as int, 0, y - 1) ==> grid.blocks().contains_key(c)
                    && terrain_allowed(h as int, c.y as int, grid.blocks()[c]),
            empty_column == forall|c: Coordinate| #[trigger] m0.contains_key(c) ==> !(c.x == x && c.z == z),
            empty_column ==> grid@.len() == n0 + y,
        decreases h + 1 - y,
    {
        let t = terrain_block(rng, h, y);
        let c = Coordinate { x, y, z };
        let ghost prev = grid.blocks();
        proof {
            if empty_column {
                assert(!in_run(c, x as int, z as int, 0, y - 1));
                assert(same_at(m0, prev, c));
                assert(!m0.contains_key(c));
            }
        }
        grid.set(c, t);
        proof {
            assert forall|d: Coordinate| !in_run(d, x as int, z as int, 0, y as int) implies #[trigger] same_at(
                m0,
                grid.blocks(),
                d,
            ) by {
                assert(!in_run(d, x as int, z as int, 0, y - 1));
                assert(same_at(m0, prev, d));
                assert(d != c);
            }
            assert forall|d: Coordinate| #[trigger] in_run(d, x as int, z as int, 0, y as int) implies grid.blocks().contains_key(d)
                && terrain_allowed(h as int, d.y as int, grid.blocks()[d]) by {
                if d != c {
                    assert(in_run(d, x as int, z as int, 0, y - 1));
                }
            }
        }
        y = y + 1;
    }
    assert forall|c: Coordinate| !in_run(c, x as int, z as int, 0, h as int) implies #[trigger] same_at(
        m0,
        grid.blocks(),
        c,
    ) by {
        assert(!in_run(c, x as int, z as int, 0, y - 1));
    }
    assert forall|c: Coordinate| #[trigger] in_run(c, x as int, z as int, 0, h as int) implies grid.blocks().contains_key(c)
        && terrain_allowed(h as int, c.y as int, grid.blocks()[c]) by {
        assert(in_run(c, x as int, z as int, 0, y - 1));
    }
    h
}

/// The column at `(x, z)` holds exactly the cells from the ground up to
/// height `h`, each of a type that the terrain rules allow.
pub open spec fn column_exact(m: Map<Coordinate, BlockType>, x: i32, z: i32, h: int) -> bool {
    forall|y: i32|
        #![trigger m.contains_key(Coordinate { x, y, z })]
        (m.contains_key(Coordinate { x, y, z }) <==> 0 <= y <= h) && (0 <= y <= h ==> terrain_allowed(
            h,
            y as int,
            m[Coordinate { x, y, z }],
        ))
}

/// The column at `(x, z)` holds a terrain column of some height below three.
pub open spec fn terrain_column(m: Map<Coordinate, BlockType>, x: i32, z: i32) -> bool {
    exists|h: int| 0 <= h < 3 && #[trigger] column_exact(m, x, z, h)
}

/// The column at `(x, z)` is generated before the one at `(cx, cz)`.
pub open spec fn done_before(x: int, z: int, cx: int, cz: int) -> bool {
    x < cx || (x == cx && z < cz)
}

/// The column lies in the generated square of half-width `size`.
pub open spec fn in_square(x: int, z: int, size: int) -> bool {
    -size <= x < size && -size <= z < size
}

/// A terrain column stays so where its cells are unchanged.
proof fn lemma_column_kept(m1: Map<Coordinate, BlockType>, m2: Map<Coordinate, BlockType>, x: i32, z: i32)
    requires
        terrain_column(m1, x, z),
        forall|y: i32| #[trigger] same_at(m1, m2, Coordinate { x, y, z }),
    ensures
        terrain_column(m2, x, z),
{
    let h = choose|h: int| 0 <= h < 3 && #[trigger] column_exact(m1, x, z, h);
    assert forall|y: i32| #![trigger m2.contains_key(Coordinate { x, y, z })]
        (m2.contains_key(Coordinate { x, y, z }) <==> 0 <= y <= h) && (0 <= y <= h ==> terrain_allowed(
            h,
            y as int,
            m2[Coordinate { x, y, z }],
        )) by {
        assert(same_at(m1, m2, Coordinate { x, y, z }));
        assert(m1.contains_key(Coordinate { x, y, z }) <==> 0 <= y <= h);
    }
    assert(column_exact(m2, x, z, h));
}

/// Generates the terrain of the square of half-width `size`: a column of
/// height 0 to 2 at every `(x, z)`, filled by the layer rules.
pub fn generate_terrain(rng: &mut StdRng, size: i32) -> (r: VoxelGrid)
    requires
        3 <= size <= MAX_WORLD_SIZE,
    ensures
        r.wf(),
        forall|x: i32, z: i32| in_square(x as int, z as int, size as int) ==> #[trigger] terrain_column(r.blocks(), x, z),
        forall|c: Coordinate|
            #[trigger] r.blocks().contains_key(c) ==> in_square(c.x as int, c.z as int, size as int) && 0 <= c.y <= 2,
        (2 * size) * (2 * size) <= r@.len() <= 3 * ((2 * size) * (2 * size)),
{
    let mut grid = VoxelGrid::new();
    let mut x: i32 = -size;
    assert((x + size) * (2 * size) == 0) by (nonlinear_arith)
        requires x + size == 0;
    while x < size
        invariant
            grid.wf(),
            3 <= size <= MAX_WORLD_SIZE,
            -size <= x <= size,
            forall|cx: i32, cz: i32|
                in_square(cx as int, cz as int, size as int) && cx < x ==> #[trigger] terrain_column(grid.blocks(), cx, cz),
            forall|c: Coordinate|
                #[trigger] grid.blocks().contains_key(c) ==> in_square(c.x as int, c.z as int, size as int) && c.x < x && 0
                    <= c.y <= 2,
            (x + size) * (2 * size) <= grid@.len() <= 3 * ((x + size) * (2 * size)),
        decreases size - x,
    {
        let mut z: i32 = -size;
        while z < size
            invariant
                grid.wf(),
                3 <= size <= MAX_WORLD_SIZE,
                -size <= x < size,
                -size <= z <= size,
                forall|cx: i32, cz: i32|
                    in_square(cx as int, cz as int, size as int) && done_before(cx as int, cz as int, x as int, z as int)
                        ==> #[trigger] terrain_column(grid.blocks(), cx, cz),
                forall|c: Coordinate|
                    #[trigger] grid.blocks().contains_key(c) ==> in_square(c.x as int, c.z as int, size as int)
                        && done_before(c.x as int, c.z as int, x as int, z as int) && 0 <= c.y <= 2,
                (x + size) * (2 * size) + (z + size) <= grid@.len() <= 3 * ((x + size) * (2 * size) + (z + size)),
            decreases size - z,
        {
            let ghost m0 = grid.blocks();
            let h = fill_column(&mut grid, rng, x, z);
            proof {
                let m1 = grid.blocks();
                assert forall|cx: i32, cz: i32|
                    in_square(cx as int, cz as int, size as int) && done_before(cx as int, cz as int, x as int, z + 1)
                        implies #[trigger] terrain_column(m1, cx, cz) by {
                    if cx == x && cz == z {
                        assert forall|y: i32| #![trigger m1.contains_key(Coordinate { x: cx, y, z: cz })]
                            (m1.contains_key(Coordinate { x: cx, y, z: cz }) <==> 0 <= y <= h) && (0 <= y <= h
                                ==> terrain_allowed(h as int, y as int, m1[Coordinate { x: cx, y, z: cz }])) by {
                            let c = Coordinate { x: cx, y, z: cz };
                            if !in_run(c, x as int, z as int, 0, h as int) {
                                assert(same_at(m0, m1, c));
                            } else {
                                assert(in_run(c, x as int, z as int, 0, h as int));
                            }
                        }
                        assert(column_exact(m1, cx, cz, h as int));
                    } else {
                        assert forall|y: i32| #[trigger] same_at(m0, m1, Coordinate { x: cx, y, z: cz }) by {
                            assert(!in_run(Coordinate { x: cx, y, z: cz }, x as int, z as int, 0, h as int));
                        }
                        lemma_column_kept(m0, m1, cx, cz);
                    }
                }
                assert forall|c: Coordinate| #[trigger] m1.contains_key(c) implies in_square(
                    c.x as int,
                    c.z as int,
                    size as int,
                ) && done_before(c.x as int, c.z as int, x as int, z + 1) && 0 <= c.y <= 2 by {
                    if !in_run(c, x as int, z as int, 0, h as int) {
                        assert(same_at(m0, m1, c));
                    }
                }
            }
            z = z + 1;
        }
        assert((x + size) * (2 * size) + (2 * size) == (x + 1 + size) * (2 * size)) by (nonlinear_arith);
        x = x + 1;
    }
    grid
}

/// Every cell of `m1` is in `m2`, holding the same block.
pub open spec fn extends(m1: Map<Coordinate, BlockType>, m2: Map<Coordinate, BlockType>) -> bool {
    forall|c: Coordinate| #[trigger] m1.contains_key(c) ==> m2.contains_key(c) && m2[c] == m1[c]
}

/// The cells of the column at `(x, z)` from `lo` to `hi` filled with `t`.
pub open spec fn run_spec(m: Map<Coordinate, BlockType>, x: int, z: int, lo: int, hi: int, t: BlockType) -> Map<
    Coordinate,
    BlockType,
> {
    Map::new(
        |c: Coordinate| m.contains_key(c) || in_run(c, x, z, lo, hi),
        |c: Coordinate|
            if in_run(c, x, z, lo, hi) {
                t
            } else {
                m[c]
            },
    )
}

/// The heights and positions that generation works with.
pub open spec fn small(a: int) -> bool {
    -1_000_000 <= a <= 1_000_000
}

/// The heights and positions that the builders of structures work with.
pub open spec fn moderate(a: int) -> bool {
    -2_000_000 <= a <= 2_000_000
}

/// Fills the column at `(x, z)` from `lo` to `hi` with `t`, overwriting.
fn fill_run(grid: &mut VoxelGrid, x: i32, z: i32, lo: i32, hi: i32, t: BlockType)
    requires
        old(grid).wf(),
        moderate(lo as int),
        moderate(hi as int),
    ensures
        final(grid).wf(),
        final(grid).blocks() == run_spec(old(grid).blocks(), x as int, z as int, lo as int, hi as int, t),
        old(grid)@.len() <= final(grid)@.len(),
        lo <= hi ==> final(grid)@.len() <= old(grid)@.len() + (hi - lo + 1),
        hi < lo ==> final(grid)@.len() == old(grid)@.len(),
{
    let ghost m0 = grid.blocks();
    let ghost n0 = grid@.len();
    let mut y: i32 = lo;
    if hi < lo {
        assert(grid.blocks() =~= run_spec(m0, x as int, z as int, lo as int, hi as int, t));
        return;
    }
    while y <= hi
        invariant
            grid.wf(),
            moderate(lo as int),
            moderate(hi as int),
            lo <= y <= hi + 1,
            grid.blocks() == run_spec(m0, x as int, z as int, lo as int, y - 1, t),
            n0 <= grid@.len() <= n0 + (y - lo),
        decreases hi + 1 - y,
    {
        grid.set(Coordinate { x, y, z }, t);
        assert(grid.blocks() =~= run_spec(m0, x as int, z as int, lo as int, y as int, t));
        y = y + 1;
    }
}

/// The cell lies in the canopy of a tree whose trunk tops out at `(x, top, z)`:
/// the five by five square round the trunk without its corners, from one
/// below the top to one above it.
pub open spec fn in_canopy(c: Coordinate, x: int, top: int, z: int) -> bool {
    &&& x - 2 <= c.x <= x + 2
    &&& z - 2 <= c.z <= z + 2
    &&& !((c.x == x - 2 || c.x == x + 2) && (c.z == z - 2 || c.z == z + 2))
    &&& top - 1 <= c.y <= top + 1
}

/// The cell comes before `(lx, ly, lz)` in the order in which the canopy is filled.
pub open spec fn visited_before(c: Coordinate, lx: int, lz: int, ly: int) -> bool {
    c.x < lx || (c.x == lx && (c.z < lz || (c.z == lz && c.y < ly)))
}

/// The empty cells of the canopy filled with grass, up to `(lx, ly, lz)`.
pub open spec fn grass_upto(m: Map<Coordinate, BlockType>, x: int, top: int, z: int, lx: int, lz: int, ly: int) -> Map<
    Coordinate,
    BlockType,
> {
    Map::new(
        |c: Coordinate| m.contains_key(c) || (in_canopy(c, x, top, z) && visited_before(c, lx, lz, ly)),
        |c: Coordinate|
            if m.contains_key(c) {
                m[c]
            } else {
                BlockType::Grass
            },
    )
}

/// The most cells that the canopy fills in its first `d` rows: the two
/// edge rows have three columns, the three middle rows five, each column
/// three cells high.
pub open spec fn canopy_rows_cells(d: int) -> int {
    if d <= 0 {
        0
    } else if d <= 4 {
        9 + 15 * (d - 1)
    } else {
        63
    }
}

/// The most cells that the canopy fills in the first `e` columns of a row.
pub open spec fn canopy_row_cells(edge: bool, e: int) -> int {
    if !edge {
        3 * e
    } else if e <= 0 {
        0
    } else if e <= 4 {
        3 * (e - 1)
    } else {
        9
    }
}

/// The empty cells of the canopy filled with grass.
pub open spec fn canopy_spec(m: Map<Coordinate, BlockType>, x: int, top: int, z: int) -> Map<Coordinate, BlockType> {
    Map::new(
        |c: Coordinate| m.contains_key(c) || in_canopy(c, x, top, z),
        |c: Coordinate|
            if m.contains_key(c) {
                m[c]
            } else {
                BlockType::Grass
            },
    )
}

/// Fills the empty cells of a canopy centred on `(x, top, z)` with grass.
fn fill_canopy(grid: &mut VoxelGrid, x: i32, top: i32, z: i32)
    requires
        old(grid).wf(),
        moderate(x as int),
        moderate(top as int),
        moderate(z as int),
    ensures
        final(grid).wf(),
        final(grid).blocks() == canopy_spec(old(grid).blocks(), x as int, top as int, z as int),
        old(grid)@.len() <= final(grid)@.len() <= old(grid)@.len() + 63,
{
    let ghost m0 = grid.blocks();
    let ghost n0 = grid@.len();
    assert(grid.blocks() =~= grass_upto(m0, x as int, top as int, z as int, x - 2, z - 2, top - 1));
    let mut lx: i32 = x - 2;
    while lx <= x + 2
        invariant
            grid.wf(),
            moderate(x as int),
            moderate(top as int),
            moderate(z as int),
            x - 2 <= lx <= x + 3,
            grid.blocks() == grass_upto(m0, x as int, top as int, z as int, lx as int, z - 2, top - 1),
            n0 <= grid@.len() <= n0 + canopy_rows_cells(lx - (x - 2)),
        decreases x + 3 - lx,
    {
        let mut lz: i32 = z - 2;
        while lz <= z + 2
            invariant
                grid.wf(),
                moderate(x as int),
                moderate(top as int),
                moderate(z as int),
                x - 2 <= lx <= x + 2,
                z - 2 <= lz <= z + 3,
                grid.blocks() == grass_upto(m0, x as int, top as int, z as int, lx as int, lz as int, top - 1),
                n0 <= grid@.len() <= n0 + canopy_rows_cells(lx - (x - 2)) + canopy_row_cells(
                    lx == x - 2 || lx == x + 2,
                    lz - (z - 2),
                ),
            decreases z + 3 - lz,
        {
            let corner = (lx == x - 2 || lx == x + 2) && (lz == z - 2 || lz == z + 2);
            if !corner {
                let mut ly: i32 = top - 1;
                while ly <= top + 1
                    invariant
                        grid.wf(),
                        moderate(x as int),
                        moderate(top as int),
                        moderate(z as int),
                        x - 2 <= lx <= x + 2,
                        z - 2 <= lz <= z + 2,
                        !((lx == x - 2 || lx == x + 2) && (lz == z - 2 || lz == z + 2)),
                        top - 1 <= ly <= top + 2,
                        grid.blocks() == grass_upto(m0, x as int, top as int, z as int, lx as int, lz as int, ly as int),
                        n0 <= grid@.len() <= n0 + canopy_rows_cells(lx - (x - 2)) + canopy_row_cells(
                            lx == x - 2 || lx == x + 2,
                            lz - (z - 2),
                        ) + (ly - (top - 1)),
                    decreases top + 2 - ly,
                {
                    let c = Coordinate { x: lx, y: ly, z: lz };
                    if !grid.contains(c) {
                        grid.set(c, BlockType::Grass);
                    }
                    assert(grid.blocks() =~= grass_upto(
                        m0,
                        x as int,
                        top as int,
                        z as int,
                        lx as int,
                        lz as int,
                        ly + 1,
                    ));
                    ly = ly + 1;
                }
            }
            assert(grid.blocks() =~= grass_upto(m0, x as int, top as int, z as int, lx as int, lz + 1, top - 1));
            lz = lz + 1;
        }
        assert(grid.blocks() =~= grass_upto(m0, x as int, top as int, z as int, lx + 1, z - 2, top - 1));
        lx = lx + 1;
    }
    assert(grid.blocks() =~= canopy_spec(m0, x as int, top as int, z as int));
}

/// A tree standing on `(x, base, z)`: a wooden trunk of five cells, then a
/// canopy round its top that fills only empty cells.
pub open spec fn tree_spec(m: Map<Coordinate, BlockType>, x: int, base: int, z: int) -> Map<Coordinate, BlockType> {
    canopy_spec(run_spec(m, x, z, base + 1, base + 5, BlockType::Wood), x, base + 5, z)
}

/// Builds a tree standing on `(x, base, z)`.
pub fn place_tree(grid: &mut VoxelGrid, x: i32, base: i32, z: i32)
    requires
        old(grid).wf(),
        small(x as int),
        small(base as int),
        small(z as int),
    ensures
        final(grid).wf(),
        final(grid).blocks() == tree_spec(old(grid).blocks(), x as int, base as int, z as int),
        old(grid)@.len() <= final(grid)@.len() <= old(grid)@.len() + 68,
{
    fill_run(grid, x, z, base + 1, base + 5, BlockType::Wood);
    fill_canopy(grid, x, base + 5, z);
}

/// A stone pillar of the given height standing on `(x, base, z)`: stone
/// up to `base + height - 1`, capped with obsidian just above.
pub open spec fn pillar_spec(m: Map<Coordinate, BlockType>, x: int, base: int, z: int, height: int) -> Map<
    Coordinate,
    BlockType,
> {
    run_spec(m, x, z, base + 1, base + height - 1, BlockType::Stone).insert(
        Coordinate { x: x as i32, y: (base + height) as i32, z: z as i32 },
        BlockType::Obsidian,
    )
}

/// Builds a stone pillar standing on `(x, base, z)`.
pub fn place_pillar(grid: &mut VoxelGrid, x: i32, base: i32, z: i32, height: i32)
    requires
        old(grid).wf(),
        small(base as int),
        4 <= height < 8,
    ensures
        final(grid).wf(),
        final(grid).blocks() == pillar_spec(old(grid).blocks(), x as int, base as int, z as int, height as int),
        old(grid)@.len() <= final(grid)@.len() <= old(grid)@.len() + 8,
{
    fill_run(grid, x, z, base + 1, base + height - 1, BlockType::Stone);
    grid.set(Coordinate { x, y: base + height, z }, BlockType::Obsidian);
}

/// A glass tower of the given height standing on `(x, base, z)`: glass up
/// to `base + height - 1`.
pub open spec fn glass_spec(m: Map<Coordinate, BlockType>, x: int, base: int, z: int, height: int) -> Map<
    Coordinate,
    BlockType,
> {
    run_spec(m, x, z, base + 1, base + height - 1, BlockType::Glass)
}

/// Builds a glass tower standing on `(x, base, z)`.
pub fn place_glass_tower(grid: &mut VoxelGrid, x: i32, base: i32, z: i32, height: i32)
    requires
        old(grid).wf(),
        small(base as int),
        3 <= height < 6,
    ensures
        final(grid).wf(),
        final(grid).blocks() == glass_spec(old(grid).blocks(), x as int, base as int, z as int, height as int),
        old(grid)@.len() <= final(grid)@.len() <= old(grid)@.len() + 5,
{
    fill_run(grid, x, z, base + 1, base + height - 1, BlockType::Glass);
}

/// The kinds of structure that generation builds.
#[derive(Clone, Copy, Debug, PartialEq, Eq, Structural)]
pub enum StructureKind {
    Tree,
    StonePillar,
    GlassTower,
}

/// The kind of structure for a bucket drawn from ten: seven buckets make a
/// tree, two a stone pillar, one a glass tower.
pub open spec fn kind_spec(bucket: int) -> StructureKind {
    if bucket <= 6 {
        StructureKind::Tree
    } else if bucket <= 8 {
        StructureKind::StonePillar
    } else {
        StructureKind::GlassTower
    }
}

/// The kind of structure for a bucket drawn from ten.
pub fn structure_kind(bucket: i32) -> (r: StructureKind)
    requires
        0 <= bucket < 10,
    ensures
        r == kind_spec(bucket as int),
{
    if bucket <= 6 {
        StructureKind::Tree
    } else if bucket <= 8 {
        StructureKind::StonePillar
    } else {
        StructureKind::GlassTower
    }
}

/// Every cell lies in the square of half-width `size`, from the ground up
/// to height `ceiling`.
pub open spec fn bounded(m: Map<Coordinate, BlockType>, size: int, ceiling: int) -> bool {
    forall|c: Coordinate|
        #[trigger] m.contains_key(c) ==> in_square(c.x as int, c.z as int, size) && 0 <= c.y <= ceiling
}

/// Filling a run above everything in its column only adds cells.
proof fn lemma_run_extends(m: Map<Coordinate, BlockType>, x: int, z: int, lo: int, hi: int, t: BlockType)
    requires
        forall|c: Coordinate| #[trigger] m.contains_key(c) && c.x == x && c.z == z ==> c.y < lo,
    ensures
        extends(m, run_spec(m, x, z, lo, hi, t)),
{
}

/// `base` is the highest occupied height of the column at `(x, z)`.
pub open spec fn is_top(m: Map<Coordinate, BlockType>, x: i32, z: i32, base: int) -> bool {
    &&& i32::MIN <= base <= i32::MAX
    &&& m.contains_key(Coordinate { x, y: base as i32, z })
    &&& forall|c: Coordinate| #[trigger] m.contains_key(c) && c.x == x && c.z == z ==> c.y <= base
}

/// No cell of the column at `(x, z)` is occupied.
pub open spec fn column_empty(m: Map<Coordinate, BlockType>, x: i32, z: i32) -> bool {
    forall|c: Coordinate| #[trigger] m.contains_key(c) ==> !(c.x == x && c.z == z)
}

/// The structure for `bucket`, with the drawn `height` where the kind has
/// one, built on `(x, base, z)`.
pub open spec fn structure_spec(
    m: Map<Coordinate, BlockType>,
    x: int,
    base: int,
    z: int,
    bucket: int,
    height: int,
) -> Map<Coordinate, BlockType> {
    match kind_spec(bucket) {
        StructureKind::Tree => tree_spec(m, x, base, z),
        StructureKind::StonePillar => pillar_spec(m, x, base, z, height),
        StructureKind::GlassTower => glass_spec(m, x, base, z, height),
    }
}

/// The height drawn for a structure lies in its kind's range: four to seven
/// for a stone pillar, three to five for a glass tower; a tree has none.
pub open spec fn valid_height(bucket: int, height: int) -> bool {
    match kind_spec(bucket) {
        StructureKind::Tree => true,
        StructureKind::StonePillar => 4 <= height < 8,
        StructureKind::GlassTower => 3 <= height < 6,
    }
}

/// The block types that structures are made of.
pub open spec fn structure_block(t: BlockType) -> bool {
    t == BlockType::Wood || t == BlockType::Grass || t == BlockType::Stone || t == BlockType::Obsidian || t
        == BlockType::Glass
}

/// Every cell lies from the ground up to height `ceiling`.
pub open spec fn heights_within(m: Map<Coordinate, BlockType>, ceiling: int) -> bool {
    forall|c: Coordinate| #[trigger] m.contains_key(c) ==> 0 <= c.y <= ceiling
}

/// Builds the structure of the drawn `bucket` (and `height`) on top of the
/// column at `(x, z)`; an empty column gets nothing.
pub fn build_structure(grid: &mut VoxelGrid, x: i32, z: i32, bucket: i32, height: i32)
    requires
        old(grid).wf(),
        small(x as int),
        small(z as int),
        0 <= bucket < 10,
        valid_height(bucket as int, height as int),
        heights_within(old(grid).blocks(), 1_000_000),
    ensures
        final(grid).wf(),
        column_empty(old(grid).blocks(), x, z) ==> final(grid).blocks() == old(grid).blocks(),
        forall|base: int| #[trigger]
            is_top(old(grid).blocks(), x, z, base) ==> {
                &&& final(grid).blocks() == structure_spec(
                    old(grid).blocks(),
                    x as int,
                    base,
                    z as int,
                    bucket as int,
                    height as int,
                )
                &&& forall|c: Coordinate| #[trigger]
                    final(grid).blocks().contains_key(c) && !old(grid).blocks().contains_key(c) ==> x - 2
                        <= c.x <= x + 2 && z - 2 <= c.z <= z + 2 && base < c.y <= base + STRUCTURE_RISE
            },
        extends(old(grid).blocks(), final(grid).blocks()),
        forall|c: Coordinate| #[trigger]
            final(grid).blocks().contains_key(c) ==> old(grid).blocks().contains_key(c) || structure_block(
                final(grid).blocks()[c],
            ),
        old(grid)@.len() <= final(grid)@.len() <= old(grid)@.len() + 68,
{
    let ghost m0 = grid.blocks();
    match grid.column_top(x, z) {
        None => {
            assert(column_empty(m0, x, z));
            assert forall|base: int| #[trigger] is_top(m0, x, z, base) implies false by {
                assert(m0.contains_key(Coordinate { x, y: base as i32, z }));
            }
        },
        Some(base) => {
            proof {
                assert(m0.contains_key(Coordinate { x, y: base, z }));
                assert(!column_empty(m0, x, z));
                assert forall|b: int| #[trigger] is_top(m0, x, z, b) implies b == base by {
                    let cb = Coordinate { x, y: b as i32, z };
                    let ct = Coordinate { x, y: base, z };
                    assert(m0.contains_key(cb) && cb.x == x && cb.z == z);
                    assert(m0.contains_key(ct) && ct.x == x && ct.z == z);
                }
            }
            match structure_kind(bucket) {
                StructureKind::Tree => {
                    proof {
                        lemma_run_extends(m0, x as int, z as int, base + 1, base + 5, BlockType::Wood);
                    }
                    place_tree(grid, x, base, z);
                },
                StructureKind::StonePillar => {
                    proof {
                        lemma_run_extends(m0, x as int, z as int, base + 1, base + height - 1, BlockType::Stone);
                    }
                    place_pillar(grid, x, base, z, height);
                },
                StructureKind::GlassTower => {
                    proof {
                        lemma_run_extends(m0, x as int, z as int, base + 1, base + height - 1, BlockType::Glass);
                    }
                    place_glass_tower(grid, x, base, z, height);
                },
            }
        },
    }
}

/// One structure attempt: a column of the inner band is drawn, and where
/// it holds any block a structure kind is drawn (and a height, for a pillar
/// or a tower) and built on its top.
fn structure_attempt(grid: &mut VoxelGrid, rng: &mut StdRng, size: i32, ceiling: Ghost<int>)
    requires
        old(grid).wf(),
        3 <= size <= MAX_WORLD_SIZE,
        0 <= ceiling@ <= 1_000_000 - STRUCTURE_RISE,
        bounded(old(grid).blocks(), size as int, ceiling@),
    ensures
        final(grid).wf(),
        extends(old(grid).blocks(), final(grid).blocks()),
        bounded(final(grid).blocks(), size as int, ceiling@ + STRUCTURE_RISE),
        forall|c: Coordinate| #[trigger]
            final(grid).blocks().contains_key(c) ==> old(grid).blocks().contains_key(c) || structure_block(
                final(grid).blocks()[c],
            ),
        old(grid)@.len() <= final(grid)@.len() <= old(grid)@.len() + 68,
{
    let ghost m0 = grid.blocks();
    let x = draw_range(rng, -size + 2, size - 2);
    let z = draw_range(rng, -size + 2, size - 2);
    let top_cell = grid.column_top(x, z);
    if top_cell.is_none() {
        assert(extends(m0, grid.blocks()));
        return;
    }
    let ghost top: int = top_cell->Some_0 as int;
    let bucket = draw_range(rng, 0, 10);
    let height = match structure_kind(bucket) {
        StructureKind::Tree => 0,
        StructureKind::StonePillar => draw_range(rng, 4, 8),
        StructureKind::GlassTower => draw_range(rng, 3, 6),
    };
    assert(is_top(m0, x, z, top));
    build_structure(grid, x, z, bucket, height);
    proof {
        let m1 = grid.blocks();
        assert forall|c: Coordinate| #[trigger] m1.contains_key(c) implies in_square(
            c.x as int,
            c.z as int,
            size as int,
        ) && 0 <= c.y <= ceiling@ + STRUCTURE_RISE by {
            if !m0.contains_key(c) {
                assert(is_top(m0, x, z, top));
            }
        }
    }
}

/// The grid holds a terrain of half-width `size`: a terrain column at every
/// `(x, z)` of the square, and nothing else.
pub open spec fn terrain_ok(t: Map<Coordinate, BlockType>, size: int) -> bool {
    &&& forall|x: i32, z: i32| in_square(x as int, z as int, size) ==> #[trigger] terrain_column(t, x, z)
    &&& bounded(t, size, 2)
}

/// Generates a world of half-width `size` from a seed: the terrain, then
/// the structure attempts. The result keeps every terrain cell as it was;
/// every other cell is of a structure's block type; and each attempt adds
/// at most sixty-eight cells.
pub fn generate_world(seed: u64, size: i32) -> (r: VoxelGrid)
    requires
        3 <= size <= MAX_WORLD_SIZE,
    ensures
        r.wf(),
        exists|t: Map<Coordinate, BlockType>|
            #![trigger terrain_ok(t, size as int)]
            {
                &&& terrain_ok(t, size as int)
                &&& extends(t, r.blocks())
                &&& forall|c: Coordinate| #[trigger]
                    r.blocks().contains_key(c) ==> t.contains_key(c) || structure_block(r.blocks()[c])
            },
        bounded(r.blocks(), size as int, 2 + STRUCTURE_RISE * STRUCTURE_ATTEMPTS),
        forall|c: Coordinate| #[trigger]
            r.blocks().contains_key(c) ==> r.blocks()[c] != BlockType::Water && r.blocks()[c] != BlockType::Ore,
        (2 * size) * (2 * size) <= r@.len() <= 3 * ((2 * size) * (2 * size)) + 68 * STRUCTURE_ATTEMPTS,
{
    let mut rng = seeded(seed);
    let mut grid = generate_terrain(&mut rng, size);
    let ghost terrain = grid.blocks();
    let ghost n0 = grid@.len();
    assert(terrain_ok(terrain, size as int));
    let mut i: i32 = 0;
    while i < STRUCTURE_ATTEMPTS
        invariant
            grid.wf(),
            3 <= size <= MAX_WORLD_SIZE,
            0 <= i <= STRUCTURE_ATTEMPTS,
            terrain_ok(terrain, size as int),
            extends(terrain, grid.blocks()),
            forall|c: Coordinate| #[trigger]
                grid.blocks().contains_key(c) ==> terrain.contains_key(c) || structure_block(grid.blocks()[c]),
            bounded(grid.blocks(), size as int, 2 + STRUCTURE_RISE * i),
            (2 * size) * (2 * size) <= n0 <= 3 * ((2 * size) * (2 * size)),
            n0 <= grid@.len() <= n0 + 68 * i,
        decreases STRUCTURE_ATTEMPTS - i,
    {
        let ghost m0 = grid.blocks();
        structure_attempt(&mut grid, &mut rng, size, Ghost(2 + STRUCTURE_RISE * i));
        proof {
            let m1 = grid.blocks();
            assert forall|c: Coordinate| #[trigger] m1.contains_key(c) implies terrain.contains_key(c)
                || structure_block(m1[c]) by {
                if m0.contains_key(c) {
                    assert(m0.contains_key(c));
                }
            }
        }
        i = i + 1;
    }
    proof {
        let m = grid.blocks();
        assert forall|c: Coordinate| #[trigger] m.contains_key(c) implies m[c] != BlockType::Water && m[c]
            != BlockType::Ore by {
            if terrain.contains_key(c) {
                assert(terrain_column(terrain, c.x, c.z));
                let h = choose|h: int| 0 <= h < 3 && #[trigger] column_exact(terrain, c.x, c.z, h);
                assert(terrain.contains_key(Coordinate { x: c.x, y: c.y, z: c.z }));
            }
        }
    }
    grid
}

} // verus!
