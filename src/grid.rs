//! The grid indexer and the adjacency resolver: which grid cells each block
//! covers, the map from cells to the block that occupies them, and the
//! pairs of blocks that share an edge.

use vstd::prelude::*;
use crate::cell_map::{cell_map_contents, cell_map_entries, cell_map_get, cell_map_insert, cell_map_new, CellMap};

verus! {

/// Width of one grid cell, in world units.
pub const GRID_SIZE: u32 = 16;

/// Top-left grid coordinate of a block, as stored in level data.
#[derive(Clone, Copy, Debug, PartialEq, Eq, Structural)]
pub struct GridCoords {
    pub x: i32,
    pub y: i32,
}

/// Footprint of a block, in world units.
#[derive(Clone, Copy, Debug, PartialEq, Eq, Structural)]
pub struct BlockSize {
    pub width: u32,
    pub height: u32,
}

impl Default for BlockSize {
    /// One cell by one cell.
    fn default() -> (r: BlockSize)
        ensures
            r.width == GRID_SIZE && r.height == GRID_SIZE,
    {
        BlockSize { width: GRID_SIZE, height: GRID_SIZE }
    }
}

/// One grid cell. Cells of a block may lie past the 32-bit range of the
/// coordinates it was placed at, so cells use 64-bit coordinates.
#[derive(Clone, Copy, Debug, PartialEq, Eq, Structural)]
pub struct Cell {
    pub x: i64,
    pub y: i64,
}

/// Number of whole cells a length covers (truncating division).
pub open spec fn cell_count(len: u32) -> int {
    (len / GRID_SIZE) as int
}

/// Whether cell `c` lies in the rectangle of a block placed at `origin`:
/// columns `origin.x ..= origin.x + w - 1`, rows `origin.y - h + 1 ..= origin.y`.
pub open spec fn in_block_rect(origin: GridCoords, size: BlockSize, c: Cell) -> bool {
    &&& origin.x <= c.x < origin.x + cell_count(size.width)
    &&& origin.y - cell_count(size.height) < c.y <= origin.y
}

/// Bound on the coordinates of every cell that a block can cover.
pub open spec fn cell_in_range(c: Cell) -> bool {
    &&& -0x4_0000_0000 <= c.x <= 0x4_0000_0000
    &&& -0x4_0000_0000 <= c.y <= 0x4_0000_0000
}

/// A block as the grid sees it: its identity, footprint and center point.
/// The center is kept doubled (in half grid cells) so that it is exact.
#[derive(Clone, Copy, Debug, PartialEq, Eq, Structural)]
pub struct BlockComposite {
    pub entity: usize,
    pub block_size: BlockSize,
    pub center_x2: i64,
    pub center_y2: i64,
}

/// Doubled center of a block placed at `origin`: `origin.x + w / 2` across,
/// `origin.y - h / 2` down, both times two.
pub open spec fn center_x2_of(origin: GridCoords, size: BlockSize) -> int {
    2 * origin.x + cell_count(size.width)
}

pub open spec fn center_y2_of(origin: GridCoords, size: BlockSize) -> int {
    2 * origin.y - cell_count(size.height)
}

/// The grid's record of block `entity` placed at `origin` with footprint `size`.
pub open spec fn composite_of(entity: usize, origin: GridCoords, size: BlockSize) -> BlockComposite {
    BlockComposite {
        entity,
        block_size: size,
        center_x2: center_x2_of(origin, size) as i64,
        center_y2: center_y2_of(origin, size) as i64,
    }
}

impl BlockComposite {
    pub fn new(entity: usize, origin: GridCoords, size: BlockSize) -> (r: BlockComposite)
        ensures
            r == composite_of(entity, origin, size),
            r.center_x2 == center_x2_of(origin, size),
            r.center_y2 == center_y2_of(origin, size),
    {
        let w = (size.width / GRID_SIZE) as i64;
        let h = (size.height / GRID_SIZE) as i64;
        BlockComposite {
            entity,
            block_size: size,
            center_x2: 2 * (origin.x as i64) + w,
            center_y2: 2 * (origin.y as i64) - h,
        }
    }
}

/// One occupied cell and its occupant.
#[derive(Clone, Copy, Debug)]
pub struct GridCell {
    pub coords: Cell,
    pub block: BlockComposite,
}

/// Map from occupied cells to the block that holds each of them.
pub struct CastleGrid {
    cells: CellMap,
}

/// Key of a cell in the cell map.
pub open spec fn key_of(c: Cell) -> (i64, i64) {
    (c.x, c.y)
}

impl View for CastleGrid {
    type V = Map<Cell, BlockComposite>;

    closed spec fn view(&self) -> Map<Cell, BlockComposite> {
        let contents = cell_map_contents(self.cells);
        Map::new(|c: Cell| contents.contains_key(key_of(c)), |c: Cell| contents[key_of(c)])
    }
}

impl CastleGrid {
    pub closed spec fn wf(&self) -> bool {
        forall|key: (i64, i64)| #[trigger]
            cell_map_contents(self.cells).contains_key(key) ==> cell_in_range(Cell { x: key.0, y: key.1 })
    }

    pub fn new() -> (r: CastleGrid)
        ensures
            r.wf(),
            r@ == Map::<Cell, BlockComposite>::empty(),
    {
        let r = CastleGrid { cells: cell_map_new() };
        assert(r@ =~= Map::<Cell, BlockComposite>::empty());
        r
    }

    /// The block that occupies `c`, if any.
    pub fn get(&self, c: Cell) -> (r: Option<BlockComposite>)
        requires
            self.wf(),
        ensures
            r == (if self@.contains_key(c) { Some(self@[c]) } else { None::<BlockComposite> }),
    {
        cell_map_get(&self.cells, (c.x, c.y))
    }

    /// Puts `block` at `c` unless a different block already occupies `c`;
    /// returns whether it was put there.
    fn occupy(&mut self, c: Cell, block: BlockComposite) -> (placed: bool)
        requires
            old(self).wf(),
            cell_in_range(c),
        ensures
            final(self).wf(),
            placed == !held_by_other(old(self)@, c, block.entity),
            final(self)@ == (if placed { old(self)@.insert(c, block) } else { old(self)@ }),
    {
        if let Some(held) = self.get(c) {
            if held.entity != block.entity {
                return false;
            }
        }
        cell_map_insert(&mut self.cells, (c.x, c.y), block);
        proof {
            assert forall|c2: Cell| #[trigger] self@.contains_key(c2) == old(self)@.insert(c, block).contains_key(c2) by {
                if key_of(c2) == key_of(c) {
                    assert(c2 == c);
                }
            }
            assert(self@ =~= old(self)@.insert(c, block));
        }
        true
    }
}

/// Cell `c` of `m` is held by a block other than `entity`.
pub open spec fn held_by_other(m: Map<Cell, BlockComposite>, c: Cell, entity: usize) -> bool {
    m.contains_key(c) && m[c].entity != entity
}

/// Grid `m` after registering `block`, placed at `origin` with footprint
/// `size`: each cell of its rectangle maps to `block`, except a cell that a
/// different block already holds, which keeps that occupant. Other cells
/// are as in `m`.
pub open spec fn register_block(
    m: Map<Cell, BlockComposite>,
    origin: GridCoords,
    size: BlockSize,
    block: BlockComposite,
) -> Map<Cell, BlockComposite> {
    Map::new(
        |c: Cell| m.contains_key(c) || in_block_rect(origin, size, c),
        |c: Cell|
            if in_block_rect(origin, size, c) && !held_by_other(m, c, block.entity) {
                block
            } else {
                m[c]
            },
    )
}

/// `register_block` restricted to the cells of the rectangle that come
/// before column `cx`, row `cy` in the order in which they are registered.
spec fn registered_before(
    m: Map<Cell, BlockComposite>,
    origin: GridCoords,
    size: BlockSize,
    block: BlockComposite,
    cx: int,
    cy: int,
) -> Map<Cell, BlockComposite> {
    Map::new(
        |c: Cell|
            m.contains_key(c) || (in_block_rect(origin, size, c) && (c.x < cx || (c.x == cx && c.y
                < cy))),
        |c: Cell|
            if in_block_rect(origin, size, c) && (c.x < cx || (c.x == cx && c.y < cy))
                && !held_by_other(m, c, block.entity) {
                block
            } else {
                m[c]
            },
    )
}

/// Registers every cell that the block `entity` covers, with this call's
/// record of the block. A cell that another block already holds keeps its
/// earlier occupant and is reported in the result; a cell that the same
/// block already holds takes the new record.
pub fn register_all_blocks_for_castle_section(
    global_grid: &mut CastleGrid,
    top_left: &GridCoords,
    entity: usize,
    block_size: &BlockSize,
) -> (conflicts: Vec<Cell>)
    requires
        old(global_grid).wf(),
    ensures
        final(global_grid).wf(),
        final(global_grid)@ == register_block(
            old(global_grid)@,
            *top_left,
            *block_size,
            composite_of(entity, *top_left, *block_size),
        ),
        forall|c: Cell|
            conflicts@.contains(c) <==> {
                &&& in_block_rect(*top_left, *block_size, c)
                &&& old(global_grid)@.contains_key(c)
                &&& old(global_grid)@[c].entity != entity
            },
{
    let ghost start = global_grid@;
    let block = BlockComposite::new(entity, *top_left, *block_size);
    let width = (block_size.width / GRID_SIZE) as i64;
    let depth = (block_size.height / GRID_SIZE) as i64;
    let shape_end_x = top_left.x as i64 + width;
    let top_y = top_left.y as i64;
    let bottom_y = top_y - depth + 1;
    let mut conflicts: Vec<Cell> = Vec::new();
    let mut x = top_left.x as i64;
    while x < shape_end_x
        invariant
            global_grid.wf(),
            top_left.x <= x <= shape_end_x,
            shape_end_x == top_left.x + cell_count(block_size.width),
            top_y == top_left.y,
            bottom_y == top_left.y - cell_count(block_size.height) + 1,
            block == composite_of(entity, *top_left, *block_size),
            global_grid@ == registered_before(start, *top_left, *block_size, block, x as int, bottom_y as int),
            forall|c: Cell|
                conflicts@.contains(c) <==> {
                    &&& in_block_rect(*top_left, *block_size, c)
                    &&& (c.x < x || (c.x == x && c.y < bottom_y))
                    &&& start.contains_key(c)
                    &&& start[c].entity != entity
                },
        decreases shape_end_x - x,
    {
        let mut y = bottom_y;
        while y <= top_y
            invariant
                global_grid.wf(),
                top_left.x <= x < shape_end_x,
                shape_end_x == top_left.x + cell_count(block_size.width),
                top_y == top_left.y,
                bottom_y == top_left.y - cell_count(block_size.height) + 1,
                bottom_y <= y <= top_y + 1,
                block == composite_of(entity, *top_left, *block_size),
                global_grid@ == registered_before(start, *top_left, *block_size, block, x as int, y as int),
                forall|c: Cell|
                    conflicts@.contains(c) <==> {
                        &&& in_block_rect(*top_left, *block_size, c)
                        &&& (c.x < x || (c.x == x && c.y < y))
                        &&& start.contains_key(c)
                        &&& start[c].entity != entity
                    },
            decreases top_y + 1 - y,
        {
            let c = Cell { x, y };
            let ghost before = global_grid@;
            let ghost earlier = conflicts@;
            assert(in_block_rect(*top_left, *block_size, c));
            assert(before.contains_key(c) == start.contains_key(c));
            assert(before.contains_key(c) ==> before[c] == start[c]);
            let placed = global_grid.occupy(c, block);
            if !placed {
                conflicts.push(c);
            }
            proof {
                assert forall|c2: Cell| conflicts@.contains(c2) <==> (earlier.contains(c2) || (c2
                    == c && start.contains_key(c) && start[c].entity != entity)) by {
                    if conflicts@.len() > earlier.len() {
                        assert(conflicts@ == earlier.push(c));
                        if c2 == c {
                            assert(conflicts@[earlier.len() as int] == c2);
                        }
                        if earlier.contains(c2) {
                            let k = choose|k: int| 0 <= k < earlier.len() && earlier[k] == c2;
                            assert(conflicts@[k] == c2);
                        }
                    }
                }
                assert forall|c2: Cell|
                    conflicts@.contains(c2) <==> {
                        &&& in_block_rect(*top_left, *block_size, c2)
                        &&& (c2.x < x || (c2.x == x && c2.y < y + 1))
                        &&& start.contains_key(c2)
                        &&& start[c2].entity != entity
                    } by {
                    if c2.x == x && c2.y == y {
                        assert(c2 == c);
                    }
                }
                assert(global_grid@ =~= registered_before(start, *top_left, *block_size, block, x as int, y + 1));
            }
            y = y + 1;
        }
        proof {
            assert(global_grid@ =~= registered_before(start, *top_left, *block_size, block, x + 1, bottom_y as int));
        }
        x = x + 1;
    }
    proof {
        assert(global_grid@ =~= register_block(start, *top_left, *block_size, block));
    }
    conflicts
}

/// The neighbour probed from cell `c`: one to the right, or one down.
pub open spec fn probe(c: Cell, down: bool) -> Cell {
    if down {
        Cell { x: c.x, y: (c.y - 1) as i64 }
    } else {
        Cell { x: (c.x + 1) as i64, y: c.y }
    }
}

/// Block `a` holds cell `c` and a different block `b` holds the cell probed
/// from it.
pub open spec fn touches_at(
    m: Map<Cell, BlockComposite>,
    c: Cell,
    down: bool,
    a: BlockComposite,
    b: BlockComposite,
) -> bool {
    &&& m.contains_key(c)
    &&& m.contains_key(probe(c, down))
    &&& m[c] == a
    &&& m[probe(c, down)] == b
    &&& a.entity != b.entity
}

/// Blocks `a` and `b` share an edge in the grid, `b` right of or below `a`.
pub open spec fn adjacent(m: Map<Cell, BlockComposite>, a: BlockComposite, b: BlockComposite) -> bool {
    exists|c: Cell, down: bool| #[trigger] touches_at(m, c, down, a, b)
}

/// Two blocks found next to each other.
#[derive(Clone, Copy, Debug)]
pub struct AdjacentPair {
    pub first: BlockComposite,
    pub second: BlockComposite,
}

/// Whether `p` joins the blocks `e1` and `e2`, in either order.
pub open spec fn joins(p: AdjacentPair, e1: usize, e2: usize) -> bool {
    (p.first.entity == e1 && p.second.entity == e2) || (p.first.entity == e2 && p.second.entity
        == e1)
}

/// Some pair of `pairs` joins `e1` and `e2`.
pub open spec fn has_pair(pairs: Seq<AdjacentPair>, e1: usize, e2: usize) -> bool {
    exists|k: int| 0 <= k < pairs.len() && #[trigger] joins(pairs[k], e1, e2)
}

/// Every pair of `pairs` is adjacent in `m`, and no two join the same blocks.
pub open spec fn pairs_sound(m: Map<Cell, BlockComposite>, pairs: Seq<AdjacentPair>) -> bool {
    &&& forall|k: int| 0 <= k < pairs.len() ==> adjacent(m, #[trigger] pairs[k].first, pairs[k].second)
    &&& forall|k: int, l: int|
        0 <= k < l < pairs.len() ==> !joins(#[trigger] pairs[k], #[trigger] pairs[l].first.entity, pairs[l].second.entity)
}

/// The edge probed from `c` is covered: if a different block lies there,
/// some pair joins the two blocks.
pub open spec fn probe_covered(
    m: Map<Cell, BlockComposite>,
    pairs: Seq<AdjacentPair>,
    c: Cell,
    down: bool,
) -> bool {
    (m.contains_key(c) && m.contains_key(probe(c, down)) && m[c].entity != m[probe(c, down)].entity)
        ==> has_pair(pairs, m[c].entity, m[probe(c, down)].entity)
}

/// `pairs` holds exactly one pair for each two blocks that share an edge in `m`.
pub open spec fn adjacency_of(m: Map<Cell, BlockComposite>, pairs: Seq<AdjacentPair>) -> bool {
    &&& pairs_sound(m, pairs)
    &&& forall|c: Cell, down: bool| #[trigger] probe_covered(m, pairs, c, down)
}

/// No block is ever paired with itself: every pair found joins two
/// different blocks, so a castle of one block, however many cells it
/// covers, has no pair at all.
pub proof fn no_self_adjacency(m: Map<Cell, BlockComposite>, pairs: Seq<AdjacentPair>, entity: usize)
    requires
        adjacency_of(m, pairs),
    ensures
        forall|k: int| 0 <= k < pairs.len() ==> #[trigger] pairs[k].first.entity != pairs[k].second.entity,
        (forall|c: Cell| #[trigger] m.contains_key(c) ==> m[c].entity == entity) ==> pairs.len() == 0,
{
    assert forall|k: int| 0 <= k < pairs.len() implies #[trigger] pairs[k].first.entity != pairs[k].second.entity by {
        assert(adjacent(m, pairs[k].first, pairs[k].second));
    }
    if (forall|c: Cell| #[trigger] m.contains_key(c) ==> m[c].entity == entity) && pairs.len() > 0 {
        assert(adjacent(m, pairs[0].first, pairs[0].second));
        let (c, down) = choose|c: Cell, down: bool| #[trigger] touches_at(m, c, down, pairs[0].first, pairs[0].second);
        assert(m.contains_key(probe(c, down)));
    }
}

fn contains_pair(pairs: &Vec<AdjacentPair>, e1: usize, e2: usize) -> (r: bool)
    ensures
        r == has_pair(pairs@, e1, e2),
{
    let mut k: usize = 0;
    while k < pairs.len()
        invariant
            k <= pairs.len(),
            forall|j: int| 0 <= j < k ==> !joins(#[trigger] pairs@[j], e1, e2),
        decreases pairs.len() - k,
    {
        let p = pairs[k];
        if (p.first.entity == e1 && p.second.entity == e2) || (p.first.entity == e2
            && p.second.entity == e1) {
            assert(joins(pairs@[k as int], e1, e2));
            return true;
        }
        k = k + 1;
    }
    false
}

/// Looks at the neighbour of `cell` in one direction and records a new pair
/// if a different block is there and no pair joins the two yet.
fn probe_neighbour(grid: &CastleGrid, pairs: &mut Vec<AdjacentPair>, cell: GridCell, down: bool)
    requires
        grid.wf(),
        grid@.contains_key(cell.coords),
        grid@[cell.coords] == cell.block,
        pairs_sound(grid@, old(pairs)@),
    ensures
        pairs_sound(grid@, final(pairs)@),
        old(pairs)@.len() <= final(pairs)@.len(),
        forall|k: int| 0 <= k < old(pairs)@.len() ==> final(pairs)@[k] == old(pairs)@[k],
        probe_covered(grid@, final(pairs)@, cell.coords, down),
{
    let c = cell.coords;
    let n = if down {
        Cell { x: c.x, y: c.y - 1 }
    } else {
        Cell { x: c.x + 1, y: c.y }
    };
    assert(n == probe(c, down));
    match grid.get(n) {
        None => {},
        Some(candidate) => {
            if candidate.entity != cell.block.entity && !contains_pair(
                pairs,
                cell.block.entity,
                candidate.entity,
            ) {
                let ghost before = pairs@;
                pairs.push(AdjacentPair { first: cell.block, second: candidate });
                proof {
                    let last = before.len() as int;
                    assert(touches_at(grid@, c, down, cell.block, candidate));
                    assert(joins(pairs@[last], cell.block.entity, candidate.entity));
                    assert forall|k: int| 0 <= k < pairs@.len() implies adjacent(
                        grid@,
                        #[trigger] pairs@[k].first,
                        pairs@[k].second,
                    ) by {
                        if k < last {
                            assert(pairs@[k] == before[k]);
                        }
                    }
                    assert forall|k: int, l: int|
                        0 <= k < l < pairs@.len() implies !joins(
                        #[trigger] pairs@[k],
                        #[trigger] pairs@[l].first.entity,
                        pairs@[l].second.entity,
                    ) by {
                        assert(pairs@[k] == before[k]);
                        if l < last {
                            assert(pairs@[l] == before[l]);
                        } else {
                            assert(!joins(before[k], cell.block.entity, candidate.entity));
                        }
                    }
                }
            }
        },
    }
}

/// All pairs of blocks that share an edge in the grid, each pair once.
/// Every occupied cell is probed to the right and downwards, and cells of
/// one block never pair with each other.
pub fn find_adjacent_pairs(grid: &CastleGrid) -> (pairs: Vec<AdjacentPair>)
    requires
        grid.wf(),
    ensures
        adjacency_of(grid@, pairs@),
{
    let entries = cell_map_entries(&grid.cells);
    let mut pairs: Vec<AdjacentPair> = Vec::new();
    let mut i: usize = 0;
    while i < entries.len()
        invariant
            grid.wf(),
            i <= entries.len(),
            forall|j: int|
                0 <= j < entries@.len() ==> {
                    &&& #[trigger] cell_map_contents(grid.cells).contains_key(entries@[j].0)
                    &&& cell_map_contents(grid.cells)[entries@[j].0] == entries@[j].1
                },
            pairs_sound(grid@, pairs@),
            forall|j: int, down: bool|
                0 <= j < i ==> #[trigger] probe_covered(
                    grid@,
                    pairs@,
                    Cell { x: entries@[j].0.0, y: entries@[j].0.1 },
                    down,
                ),
        decreases entries.len() - i,
    {
        let (key, block) = entries[i];
        let cell = GridCell { coords: Cell { x: key.0, y: key.1 }, block };
        assert(cell_map_contents(grid.cells).contains_key(entries@[i as int].0));
        assert(key_of(cell.coords) == key);
        assert(grid@.contains_key(cell.coords));
        assert(grid@[cell.coords] == cell.block);
        let ghost p0 = pairs@;
        probe_neighbour(grid, &mut pairs, cell, false);
        let ghost p1 = pairs@;
        probe_neighbour(grid, &mut pairs, cell, true);
        proof {
            assert forall|j: int, down: bool|
                0 <= j < i + 1 implies #[trigger] probe_covered(
                grid@,
                pairs@,
                Cell { x: entries@[j].0.0, y: entries@[j].0.1 },
                down,
            ) by {
                let cj = Cell { x: entries@[j].0.0, y: entries@[j].0.1 };
                if j < i || !down {
                    if grid@.contains_key(cj) && grid@.contains_key(probe(cj, down))
                        && grid@[cj].entity != grid@[probe(cj, down)].entity {
                        let e1 = grid@[cj].entity;
                        let e2 = grid@[probe(cj, down)].entity;
                        let q = if j < i { p0 } else { p1 };
                        if j < i {
                            assert(probe_covered(grid@, p0, cj, down));
                        } else {
                            assert(cj == cell.coords);
                            assert(probe_covered(grid@, p1, cj, down));
                        }
                        assert(has_pair(q, e1, e2));
                        let k = choose|k: int| 0 <= k < q.len() && #[trigger] joins(q[k], e1, e2);
                        assert(pairs@[k] == q[k]);
                    }
                }
            }
        }
        i = i + 1;
    }
    proof {
        assert forall|c: Cell, down: bool| #[trigger] probe_covered(grid@, pairs@, c, down) by {
            if grid@.contains_key(c) {
                assert(cell_map_contents(grid.cells).contains_key(key_of(c)));
                let j = choose|j: int| 0 <= j < entries@.len() && entries@[j].0 == key_of(c);
                assert(Cell { x: entries@[j].0.0, y: entries@[j].0.1 } == c);
                assert(probe_covered(grid@, pairs@, Cell { x: entries@[j].0.0, y: entries@[j].0.1 }, down));
            }
        }
    }
    pairs
}

} // verus!
