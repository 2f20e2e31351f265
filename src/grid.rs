//! The sparse voxel store: a mapping from integer cells to block types.
use vstd::prelude::*;
use std::collections::HashMap;

verus! {

broadcast use vstd::std_specs::hash::group_hash_axioms;

/// The address of one unit cell of the world.
#[derive(Clone, Copy, Debug, PartialEq, Eq, Hash, Structural)]
pub struct Coordinate {
    pub x: i32,
    pub y: i32,
    pub z: i32,
}

/// The material of a block. Every kind is equally solid and opaque.
#[derive(Clone, Copy, Debug, PartialEq, Eq, Hash, Structural)]
pub enum BlockType {
    Dirt,
    Stone,
    Wood,
    Grass,
    Sand,
    Water,
    Ore,
    Glass,
    Obsidian,
}

impl Coordinate {
    pub fn new(x: i32, y: i32, z: i32) -> (r: Coordinate)
        ensures
            r == (Coordinate { x, y, z }),
    {
        Coordinate { x, y, z }
    }
}

/// No coordinate occurs twice among the entries.
pub open spec fn keys_unique(s: Seq<(Coordinate, BlockType)>) -> bool {
    forall|i: int, j: int|
        0 <= i < s.len() && 0 <= j < s.len() && i != j ==> #[trigger] s[i].0 != #[trigger] s[j].0
}

/// Whether some entry holds the coordinate.
pub open spec fn has_key(s: Seq<(Coordinate, BlockType)>, c: Coordinate) -> bool {
    exists|i: int| 0 <= i < s.len() && #[trigger] s[i].0 == c
}

/// The mapping that a sequence of entries with unique keys stands for.
pub open spec fn to_map(s: Seq<(Coordinate, BlockType)>) -> Map<Coordinate, BlockType> {
    Map::new(
        |c: Coordinate| has_key(s, c),
        |c: Coordinate| s[choose|i: int| 0 <= i < s.len() && #[trigger] s[i].0 == c].1,
    )
}

/// An entry of a sequence with unique keys is what the mapping holds there.
pub proof fn lemma_entry_in_map(s: Seq<(Coordinate, BlockType)>, i: int)
    requires
        keys_unique(s),
        0 <= i < s.len(),
    ensures
        to_map(s).contains_key(s[i].0),
        to_map(s)[s[i].0] == s[i].1,
{
    let c = s[i].0;
    assert(has_key(s, c));
    let k = choose|k: int| 0 <= k < s.len() && #[trigger] s[k].0 == c;
    assert(k == i);
}

/// The offset that makes a coordinate component non-negative.
pub const KEY_BIAS: i64 = 0x8000_0000;

/// The integer that a coordinate is stored under: its components, each
/// made non-negative, as the digits of a number in base `2^32`.
pub open spec fn cell_key(c: Coordinate) -> int {
    (c.x + KEY_BIAS) * 0x1_0000_0000_0000_0000 + (c.y + KEY_BIAS) * 0x1_0000_0000 + (c.z + KEY_BIAS)
}

/// The components of a coordinate can be read back from its key.
proof fn lemma_key_digits(c: Coordinate)
    ensures
        0 <= cell_key(c) < 0x1_0000_0000_0000_0000_0000_0000,
        cell_key(c) / 0x1_0000_0000_0000_0000 == c.x + KEY_BIAS,
        (cell_key(c) % 0x1_0000_0000_0000_0000) / 0x1_0000_0000 == c.y + KEY_BIAS,
        (cell_key(c) % 0x1_0000_0000_0000_0000) % 0x1_0000_0000 == c.z + KEY_BIAS,
{
    let b: int = 0x1_0000_0000;
    let a = c.x + KEY_BIAS;
    let y = c.y + KEY_BIAS;
    let z = c.z + KEY_BIAS;
    assert(0 <= a < b && 0 <= y < b && 0 <= z < b);
    let low = y * b + z;
    assert(0 <= low < b * b) by (nonlinear_arith)
        requires 0 <= y < b, 0 <= z < b, low == y * b + z;
    assert(b * b == 0x1_0000_0000_0000_0000);
    assert(cell_key(c) == a * (b * b) + low);
    assert(0 <= a * (b * b) + low < b * b * b) by (nonlinear_arith)
        requires 0 <= a < b, 0 <= low < b * b;
    vstd::arithmetic::div_mod::lemma_fundamental_div_mod_converse(cell_key(c), b * b, a, low);
    vstd::arithmetic::div_mod::lemma_fundamental_div_mod_converse(low, b, y, z);
}

/// Distinct coordinates have distinct keys.
pub proof fn lemma_key_injective(c: Coordinate, d: Coordinate)
    ensures
        cell_key(c) == cell_key(d) ==> c == d,
{
    lemma_key_digits(c);
    lemma_key_digits(d);
}

/// The key that a coordinate is stored under.
fn key_of(c: Coordinate) -> (r: u128)
    ensures
        r == cell_key(c),
{
    proof {
        lemma_key_digits(c);
    }
    let a = (c.x as i64 + KEY_BIAS) as u128;
    let y = (c.y as i64 + KEY_BIAS) as u128;
    let z = (c.z as i64 + KEY_BIAS) as u128;
    assert(a * 0x1_0000_0000_0000_0000 <= 0xFFFF_FFFF_0000_0000_0000_0000_0000_0000) by (nonlinear_arith)
        requires a <= 0xFFFF_FFFF;
    assert(y * 0x1_0000_0000 <= 0xFFFF_FFFF_0000_0000) by (nonlinear_arith)
        requires y <= 0xFFFF_FFFF;
    a * 0x1_0000_0000_0000_0000 + y * 0x1_0000_0000 + z
}

/// The sparse block store: a hash map from the key of each occupied cell
/// to its block, and the occupied cells in the order in which they were
/// first filled. Presence of a coordinate means the cell is occupied;
/// absence means air.
pub struct VoxelGrid {
    blocks: HashMap<u128, BlockType>,
    order: Vec<Coordinate>,
}

impl View for VoxelGrid {
    type V = Seq<(Coordinate, BlockType)>;

    closed spec fn view(&self) -> Seq<(Coordinate, BlockType)> {
        Seq::new(
            self.order@.len(),
            |i: int| (self.order@[i], self.blocks@[cell_key(self.order@[i]) as u128]),
        )
    }
}

impl VoxelGrid {
    /// The map and the order hold the same cells, each once.
    pub closed spec fn inv(&self) -> bool {
        &&& forall|i: int, j: int|
            0 <= i < self.order@.len() && 0 <= j < self.order@.len() && i != j ==> #[trigger] self.order@[i]
                != #[trigger] self.order@[j]
        &&& forall|i: int|
            0 <= i < self.order@.len() ==> #[trigger] self.blocks@.contains_key(
                cell_key(self.order@[i]) as u128,
            )
        &&& forall|k: u128| #[trigger]
            self.blocks@.contains_key(k) ==> exists|i: int|
                0 <= i < self.order@.len() && cell_key(#[trigger] self.order@[i]) == k
    }

    /// The store is well formed: each coordinate occurs at most once.
    pub open spec fn wf(&self) -> bool {
        keys_unique(self@) && self.inv()
    }

    /// The occupancy of the store, as a mapping.
    pub open spec fn blocks(&self) -> Map<Coordinate, BlockType> {
        to_map(self@)
    }

    /// A cell is occupied exactly when the map holds its key, with its block.
    proof fn lemma_lookup(&self, c: Coordinate)
        requires
            self.wf(),
        ensures
            self.blocks().contains_key(c) == self.blocks@.contains_key(cell_key(c) as u128),
            self.blocks().contains_key(c) ==> self.blocks()[c] == self.blocks@[cell_key(c) as u128],
    {
        lemma_key_digits(c);
        if has_key(self@, c) {
            let i = choose|i: int| 0 <= i < self@.len() && #[trigger] self@[i].0 == c;
            lemma_entry_in_map(self@, i);
            assert(self.order@[i] == c);
        }
        if self.blocks@.contains_key(cell_key(c) as u128) {
            let k = cell_key(c) as u128;
            let i = choose|i: int| 0 <= i < self.order@.len() && cell_key(#[trigger] self.order@[i]) == k;
            lemma_key_digits(self.order@[i]);
            lemma_key_injective(self.order@[i], c);
            assert(self@[i].0 == c);
        }
    }

    /// An empty world.
    pub fn new() -> (r: VoxelGrid)
        ensures
            r.wf(),
            r@ == Seq::<(Coordinate, BlockType)>::empty(),
            r.blocks() == Map::<Coordinate, BlockType>::empty(),
    {
        let r = VoxelGrid { blocks: HashMap::new(), order: Vec::new() };
        assert(r@ =~= Seq::<(Coordinate, BlockType)>::empty());
        assert(r.blocks() =~= Map::<Coordinate, BlockType>::empty());
        r
    }

    /// The number of occupied cells.
    pub fn len(&self) -> (r: usize)
        ensures
            r == self@.len(),
    {
        self.order.len()
    }

    /// The entry at a position of the insertion order.
    pub fn entry(&self, i: usize) -> (r: (Coordinate, BlockType))
        requires
            self.wf(),
            i < self@.len(),
        ensures
            r == self@[i as int],
    {
        let c = self.order[i];
        let k = key_of(c);
        proof {
            lemma_key_digits(c);
            assert(self.blocks@.contains_key(cell_key(self.order@[i as int]) as u128));
        }
        match self.blocks.get(&k) {
            Some(v) => (c, *v),
            None => {
                assert(false);
                (c, BlockType::Dirt)
            },
        }
    }

    /// Where the coordinate stands in the insertion order, if it does.
    fn find(&self, c: Coordinate) -> (r: Option<usize>)
        ensures
            match r {
                Some(i) => i < self@.len() && self@[i as int].0 == c,
                None => !has_key(self@, c),
            },
    {
        let mut i: usize = 0;
        while i < self.order.len()
            invariant
                i <= self.order@.len(),
                forall|j: int| 0 <= j < i ==> #[trigger] self.order@[j] != c,
            decreases self.order@.len() - i,
        {
            if self.order[i] == c {
                return Some(i);
            }
            i = i + 1;
        }
        proof {
            assert forall|j: int| 0 <= j < self@.len() implies #[trigger] self@[j].0 != c by {
                assert(self.order@[j] != c);
            }
        }
        None
    }

    /// The block at a coordinate, or `None` for air.
    pub fn get(&self, c: Coordinate) -> (r: Option<BlockType>)
        requires
            self.wf(),
        ensures
            r == (if self.blocks().contains_key(c) {
                Some(self.blocks()[c])
            } else {
                None::<BlockType>
            }),
    {
        proof {
            self.lemma_lookup(c);
        }
        match self.blocks.get(&key_of(c)) {
            Some(v) => Some(*v),
            None => None,
        }
    }

    /// Whether a coordinate is occupied.
    pub fn contains(&self, c: Coordinate) -> (r: bool)
        requires
            self.wf(),
        ensures
            r == self.blocks().contains_key(c),
    {
        proof {
            self.lemma_lookup(c);
        }
        self.blocks.contains_key(&key_of(c))
    }

    /// The highest occupied height of the column at `(x, z)`, if any cell of
    /// it is occupied.
    pub fn column_top(&self, x: i32, z: i32) -> (r: Option<i32>)
        requires
            self.wf(),
        ensures
            match r {
                None => forall|c: Coordinate| #[trigger]
                    self.blocks().contains_key(c) ==> !(c.x == x && c.z == z),
                Some(y) => {
                    &&& self.blocks().contains_key(Coordinate { x, y, z })
                    &&& forall|c: Coordinate| #[trigger]
                        self.blocks().contains_key(c) && c.x == x && c.z == z ==> c.y <= y
                },
            },
    {
        let mut top: Option<i32> = None;
        let mut i: usize = 0;
        while i < self.order.len()
            invariant
                self.wf(),
                i <= self@.len(),
                match top {
                    None => forall|j: int| 0 <= j < i ==> !(#[trigger] self@[j].0.x == x && self@[j].0.z == z),
                    Some(y) => {
                        &&& self.blocks().contains_key(Coordinate { x, y, z })
                        &&& forall|j: int|
                            0 <= j < i && #[trigger] self@[j].0.x == x && self@[j].0.z == z ==> self@[j].0.y <= y
                    },
                },
            decreases self@.len() - i,
        {
            let c = self.order[i];
            if c.x == x && c.z == z {
                let higher = match top {
                    None => true,
                    Some(y) => c.y > y,
                };
                if higher {
                    proof {
                        lemma_entry_in_map(self@, i as int);
                    }
                    top = Some(c.y);
                }
            }
            i = i + 1;
        }
        proof {
            assert forall|c: Coordinate| #[trigger] self.blocks().contains_key(c) implies (match top {
                None => !(c.x == x && c.z == z),
                Some(y) => c.x == x && c.z == z ==> c.y <= y,
            }) by {
                let k = choose|k: int| 0 <= k < self@.len() && #[trigger] self@[k].0 == c;
                assert(self@[k].0.x == c.x);
            }
        }
        top
    }

    /// Fills a cell, replacing whatever block stood there.
    pub fn set(&mut self, c: Coordinate, t: BlockType)
        requires
            old(self).wf(),
        ensures
            final(self).wf(),
            final(self).blocks() == old(self).blocks().insert(c, t),
            old(self).blocks().contains_key(c) ==> final(self)@.len() == old(self)@.len(),
            !old(self).blocks().contains_key(c) ==> final(self)@ == old(self)@.push((c, t)),
    {
        let ghost s = self@;
        let ghost o = self.order@;
        let ghost bm = self.blocks@;
        let k = key_of(c);
        proof {
            self.lemma_lookup(c);
        }
        if self.blocks.contains_key(&k) {
            let ghost i = choose|i: int| 0 <= i < s.len() && #[trigger] s[i].0 == c;
            proof {
                assert(has_key(s, c));
                assert(o[i] == c);
            }
            self.blocks.insert(k, t);
            proof {
                assert forall|j: int| 0 <= j < o.len() && j != i implies cell_key(#[trigger] o[j]) != cell_key(c) by {
                    lemma_key_injective(o[j], c);
                    assert(s[j].0 == o[j]);
                }
                assert(self@ =~= s.update(i, (c, t)));
                lemma_update_map(s, i, t);
                assert forall|kk: u128| #[trigger] self.blocks@.contains_key(kk) implies exists|j: int|
                    0 <= j < self.order@.len() && cell_key(#[trigger] self.order@[j]) == kk by {
                    if kk != k {
                        assert(bm.contains_key(kk));
                    }
                }
            }
        } else {
            proof {
                assert(!has_key(s, c)) by {
                    if has_key(s, c) {
                        let i = choose|i: int| 0 <= i < s.len() && #[trigger] s[i].0 == c;
                        assert(o[i] == c);
                    }
                }
            }
            self.blocks.insert(k, t);
            self.order.push(c);
            proof {
                assert forall|j: int| 0 <= j < o.len() implies cell_key(#[trigger] o[j]) != cell_key(c) by {
                    assert(bm.contains_key(cell_key(o[j]) as u128));
                    lemma_key_digits(o[j]);
                }
                assert(self@ =~= s.push((c, t)));
                lemma_push_map(s, c, t);
                assert forall|a: int, b: int|
                    0 <= a < self.order@.len() && 0 <= b < self.order@.len() && a != b implies #[trigger] self.order@[a]
                    != #[trigger] self.order@[b] by {
                    assert(self@[a].0 == self.order@[a] && self@[b].0 == self.order@[b]);
                }
                assert forall|kk: u128| #[trigger] self.blocks@.contains_key(kk) implies exists|j: int|
                    0 <= j < self.order@.len() && cell_key(#[trigger] self.order@[j]) == kk by {
                    if kk != k {
                        assert(bm.contains_key(kk));
                        let j = choose|j: int| 0 <= j < o.len() && cell_key(#[trigger] o[j]) == kk;
                        assert(self.order@[j] == o[j]);
                    } else {
                        assert(self.order@[o.len() as int] == c);
                    }
                }
            }
        }
    }

    /// Empties a cell; nothing changes where it was empty already.
    pub fn remove(&mut self, c: Coordinate)
        requires
            old(self).wf(),
        ensures
            final(self).wf(),
            final(self).blocks() == old(self).blocks().remove(c),
            !old(self).blocks().contains_key(c) ==> final(self)@ == old(self)@,
    {
        let ghost s = self@;
        let ghost o = self.order@;
        let ghost bm = self.blocks@;
        let k = key_of(c);
        proof {
            self.lemma_lookup(c);
        }
        match self.find(c) {
            Some(i) => {
                self.blocks.remove(&k);
                self.order.remove(i);
                proof {
                    assert(o[i as int] == c);
                    assert forall|j: int| 0 <= j < o.len() && j != i implies cell_key(#[trigger] o[j]) != cell_key(
                        c,
                    ) by {
                        lemma_key_injective(o[j], c);
                        assert(s[j].0 == o[j] && s[i as int].0 == o[i as int]);
                    }
                    assert forall|j: int| 0 <= j < self.order@.len() implies #[trigger] self.order@[j] == o[if j < i {
                        j
                    } else {
                        j + 1
                    }] by {}
                    assert(self@ =~= s.remove(i as int));
                    lemma_remove_map(s, i as int);
                    assert forall|a: int, b: int|
                        0 <= a < self.order@.len() && 0 <= b < self.order@.len() && a != b implies #[trigger] self.order@[a]
                        != #[trigger] self.order@[b] by {
                        assert(self@[a].0 == self.order@[a] && self@[b].0 == self.order@[b]);
                    }
                    assert forall|kk: u128| #[trigger] self.blocks@.contains_key(kk) implies exists|j: int|
                        0 <= j < self.order@.len() && cell_key(#[trigger] self.order@[j]) == kk by {
                        assert(bm.contains_key(kk));
                        let j = choose|j: int| 0 <= j < o.len() && cell_key(#[trigger] o[j]) == kk;
                        assert(j != i);
                        let nj = if j < i { j } else { j - 1 };
                        assert(self.order@[nj] == o[j]);
                    }
                }
            },
            None => {
                proof {
                    assert(!to_map(s).contains_key(c));
                    assert(to_map(s).remove(c) =~= to_map(s));
                }
            },
        }
    }
}

/// Replacing the block of an entry in place replaces it in the mapping.
proof fn lemma_update_map(s: Seq<(Coordinate, BlockType)>, i: int, t: BlockType)
    requires
        keys_unique(s),
        0 <= i < s.len(),
    ensures
        keys_unique(s.update(i, (s[i].0, t))),
        to_map(s.update(i, (s[i].0, t))) == to_map(s).insert(s[i].0, t),
{
    let c = s[i].0;
    let n = s.update(i, (c, t));
    assert(keys_unique(n)) by {
        assert forall|a: int, b: int|
            0 <= a < n.len() && 0 <= b < n.len() && a != b implies #[trigger] n[a].0
            != #[trigger] n[b].0 by {
            assert(n[a].0 == s[a].0 && n[b].0 == s[b].0);
        }
    }
    assert forall|d: Coordinate|
        #[trigger] to_map(n).contains_key(d) == to_map(s).insert(c, t).contains_key(d) by {
        if has_key(s, d) {
            let k = choose|k: int| 0 <= k < s.len() && #[trigger] s[k].0 == d;
            assert(n[k].0 == d);
        }
        if has_key(n, d) {
            let k = choose|k: int| 0 <= k < n.len() && #[trigger] n[k].0 == d;
            assert(s[k].0 == d);
        }
    }
    assert forall|d: Coordinate| #[trigger] to_map(n).contains_key(d) implies to_map(n)[d]
        == to_map(s).insert(c, t)[d] by {
        let k = choose|k: int| 0 <= k < n.len() && #[trigger] n[k].0 == d;
        lemma_entry_in_map(n, k);
        if k != i {
            assert(s[k] == n[k]);
            lemma_entry_in_map(s, k);
        }
    }
    assert(to_map(n) =~= to_map(s).insert(c, t));
}

/// Appending an entry of a new coordinate adds it to the mapping.
proof fn lemma_push_map(s: Seq<(Coordinate, BlockType)>, c: Coordinate, t: BlockType)
    requires
        keys_unique(s),
        !has_key(s, c),
    ensures
        keys_unique(s.push((c, t))),
        to_map(s.push((c, t))) == to_map(s).insert(c, t),
{
    let n = s.push((c, t));
    assert(keys_unique(n)) by {
        assert forall|a: int, b: int|
            0 <= a < n.len() && 0 <= b < n.len() && a != b implies #[trigger] n[a].0
            != #[trigger] n[b].0 by {
            if a == s.len() {
                assert(s[b].0 == n[b].0);
            } else if b == s.len() {
                assert(s[a].0 == n[a].0);
            } else {
                assert(s[a].0 == n[a].0 && s[b].0 == n[b].0);
            }
        }
    }
    assert forall|d: Coordinate|
        #[trigger] to_map(n).contains_key(d) == to_map(s).insert(c, t).contains_key(d) by {
        if has_key(s, d) {
            let k = choose|k: int| 0 <= k < s.len() && #[trigger] s[k].0 == d;
            assert(n[k].0 == d);
        }
        if has_key(n, d) {
            let k = choose|k: int| 0 <= k < n.len() && #[trigger] n[k].0 == d;
            if k < s.len() {
                assert(s[k].0 == d);
            }
        }
        if d == c {
            assert(n[s.len() as int].0 == c);
        }
    }
    assert forall|d: Coordinate| #[trigger] to_map(n).contains_key(d) implies to_map(n)[d]
        == to_map(s).insert(c, t)[d] by {
        let k = choose|k: int| 0 <= k < n.len() && #[trigger] n[k].0 == d;
        lemma_entry_in_map(n, k);
        if k < s.len() {
            assert(s[k] == n[k]);
            lemma_entry_in_map(s, k);
        }
    }
    assert(to_map(n) =~= to_map(s).insert(c, t));
}

/// Taking an entry out removes its coordinate from the mapping.
proof fn lemma_remove_map(s: Seq<(Coordinate, BlockType)>, i: int)
    requires
        keys_unique(s),
        0 <= i < s.len(),
    ensures
        keys_unique(s.remove(i)),
        to_map(s.remove(i)) == to_map(s).remove(s[i].0),
{
    let c = s[i].0;
    let n = s.remove(i);
    assert forall|k: int| 0 <= k < n.len() implies #[trigger] n[k] == s[if k < i {
        k
    } else {
        k + 1
    }] by {}
    assert(keys_unique(n)) by {
        assert forall|a: int, b: int|
            0 <= a < n.len() && 0 <= b < n.len() && a != b implies #[trigger] n[a].0
            != #[trigger] n[b].0 by {
            let sa = if a < i { a } else { a + 1 };
            let sb = if b < i { b } else { b + 1 };
            assert(n[a] == s[sa] && n[b] == s[sb]);
        }
    }
    assert forall|d: Coordinate|
        #[trigger] to_map(n).contains_key(d) == to_map(s).remove(c).contains_key(d) by {
        if has_key(s, d) && d != c {
            let k = choose|k: int| 0 <= k < s.len() && #[trigger] s[k].0 == d;
            assert(k != i);
            let nk = if k < i { k } else { k - 1 };
            assert(n[nk] == s[k]);
        }
        if has_key(n, d) {
            let k = choose|k: int| 0 <= k < n.len() && #[trigger] n[k].0 == d;
            let sk = if k < i { k } else { k + 1 };
            assert(n[k] == s[sk]);
            assert(s[sk].0 == d);
        }
    }
    assert forall|d: Coordinate| #[trigger] to_map(n).contains_key(d) implies to_map(n)[d]
        == to_map(s).remove(c)[d] by {
        let k = choose|k: int| 0 <= k < n.len() && #[trigger] n[k].0 == d;
        lemma_entry_in_map(n, k);
        let sk = if k < i { k } else { k + 1 };
        assert(n[k] == s[sk]);
        lemma_entry_in_map(s, sk);
    }
    assert(to_map(n) =~= to_map(s).remove(c));
}

} // verus!
