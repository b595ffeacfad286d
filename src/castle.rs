//! A castle: its blocks, the grid they are indexed in, the mortar joints
//! between them, and the one-time initialisation that builds those joints.

use vstd::prelude::*;
use crate::fracture::{breaks, is_breaking_impulse, ShockwaveHit};
use crate::grid::{
    adjacency_of, composite_of, register_block, find_adjacent_pairs, in_block_rect,
    register_all_blocks_for_castle_section, AdjacentPair, BlockComposite, BlockSize, CastleGrid,
    Cell, GridCoords,
};
use crate::joint::{create_joint, joint_between, MortarJoint};
use crate::mass::{block_mass_milli, is_mass_milli};

verus! {

/// How far a castle's one-time initialisation has gone.
#[derive(Clone, Copy, Debug, PartialEq, Eq, Structural)]
pub enum CastleStage {
    Uninitialized,
    Indexed,
    JointsBuilt,
}

/// One block of a castle: where it was placed, its footprint and mass, and
/// the joints attached to it.
pub struct CastleBlock {
    pub origin: GridCoords,
    pub block_size: BlockSize,
    pub mass_milli: u64,
    /// Identifiers of the joints attached to this block.
    pub joints: Vec<usize>,
}

/// Joint `j` of table `t` still exists and is attached to block `k`.
pub open spec fn live_touching(t: Seq<Option<MortarJoint>>, j: int, k: usize) -> bool {
    &&& 0 <= j < t.len()
    &&& t[j] is Some
    &&& t[j].unwrap().touches(k)
}

/// The grid of the blocks placed at `placements`, indexed in order: block
/// `i` is the one at position `i`, and a cell keeps its first occupant.
pub open spec fn indexed_grid(placements: Seq<(GridCoords, BlockSize)>) -> Map<Cell, BlockComposite>
    decreases placements.len(),
{
    if placements.len() == 0 {
        Map::empty()
    } else {
        let i = placements.len() - 1;
        register_block(
            indexed_grid(placements.drop_last()),
            placements[i].0,
            placements[i].1,
            composite_of(i as usize, placements[i].0, placements[i].1),
        )
    }
}

/// Cell `c` was claimed by block `i` while a different block already held it.
pub open spec fn conflict_at(placements: Seq<(GridCoords, BlockSize)>, i: int, c: Cell) -> bool {
    let before = indexed_grid(placements.take(i));
    &&& 0 <= i < placements.len()
    &&& in_block_rect(placements[i].0, placements[i].1, c)
    &&& before.contains_key(c)
    &&& before[c].entity != i
}

/// The joint table built from `pairs`, one joint per pair, in order.
pub open spec fn joints_of_pairs(pairs: Seq<AdjacentPair>) -> Seq<Option<MortarJoint>> {
    pairs.map_values(|p: AdjacentPair| Some(joint_between(p.first, p.second)))
}

/// The joints of `t` are exactly one per pair of blocks that share an edge in `grid`.
pub open spec fn joints_match_grid(grid: Map<Cell, BlockComposite>, t: Seq<Option<MortarJoint>>) -> bool {
    exists|pairs: Seq<AdjacentPair>| adjacency_of(grid, pairs) && t == joints_of_pairs(pairs)
}

/// What the one-time initialisation leaves behind: the castle is indexed
/// and joined, with its blocks as they were. If it was not joined yet, its
/// joints are exactly one per pair of blocks that share an edge; if it was,
/// nothing changed.
pub open spec fn initialized_from(before: Castle, after: Castle) -> bool {
    &&& after.stage_of() == CastleStage::JointsBuilt
    &&& after.placements() == before.placements()
    &&& after.masses() == before.masses()
    &&& after.grid_view() == indexed_grid(after.placements())
    &&& before.stage_of() != CastleStage::JointsBuilt ==> joints_match_grid(
        after.grid_view(),
        after.joint_table(),
    )
    &&& before.stage_of() == CastleStage::JointsBuilt ==> {
        &&& after.joint_table() == before.joint_table()
        &&& after.grid_view() == before.grid_view()
    }
}

/// Running the initialisation twice leaves the same grid and the same
/// joints as running it once: no joint is duplicated.
pub proof fn initialization_idempotent(first: Castle, once: Castle, twice: Castle)
    requires
        initialized_from(first, once),
        initialized_from(once, twice),
    ensures
        twice.joint_table() == once.joint_table(),
        twice.grid_view() == once.grid_view(),
        twice.placements() == once.placements(),
{
}

/// A castle and its structure. Joints are identified by their index in the
/// joint table; a broken joint leaves `None` behind.
pub struct Castle {
    blocks: Vec<CastleBlock>,
    grid: CastleGrid,
    joints: Vec<Option<MortarJoint>>,
    stage: CastleStage,
}

impl Castle {
    /// How far initialisation has gone.
    pub closed spec fn stage_of(&self) -> CastleStage {
        self.stage
    }

    /// Where each block was placed, and its footprint.
    pub closed spec fn placements(&self) -> Seq<(GridCoords, BlockSize)> {
        self.blocks@.map_values(|b: CastleBlock| (b.origin, b.block_size))
    }

    /// The mass of each block, in thousandths.
    pub closed spec fn masses(&self) -> Seq<u64> {
        self.blocks@.map_values(|b: CastleBlock| b.mass_milli)
    }

    /// Occupant of each indexed cell.
    pub closed spec fn grid_view(&self) -> Map<Cell, BlockComposite> {
        self.grid@
    }

    /// Every joint ever built, by identifier; `None` once broken.
    pub closed spec fn joint_table(&self) -> Seq<Option<MortarJoint>> {
        self.joints@
    }

    /// Joints attached to block `k`.
    pub closed spec fn attached_to(&self, k: int) -> Seq<usize> {
        self.blocks@[k].joints@
    }

    closed spec fn attachments_match(&self, k: usize) -> bool {
        forall|j: usize|
            #![trigger self.blocks@[k as int].joints@.contains(j)]
            self.blocks@[k as int].joints@.contains(j) <==> live_touching(self.joints@, j as int, k)
    }

    /// Well-formed, except that the attachment list of block `k` may be stale.
    closed spec fn wf_except(&self, k: usize) -> bool {
        &&& self.grid.wf()
        &&& self.stage == CastleStage::Uninitialized ==> self.grid@ == Map::<Cell, BlockComposite>::empty()
        &&& self.stage != CastleStage::Uninitialized ==> self.grid@ == indexed_grid(self.placements())
        &&& self.stage != CastleStage::JointsBuilt ==> self.joints.len() == 0
        &&& forall|c: Cell| #[trigger]
            self.grid@.contains_key(c) ==> self.grid@[c].entity < self.blocks.len()
        &&& forall|j: int|
            0 <= j < self.joints.len() && (#[trigger] self.joints@[j]) is Some ==> {
                &&& self.joints@[j].unwrap().entity1 < self.blocks.len()
                &&& self.joints@[j].unwrap().entity2 < self.blocks.len()
                &&& self.joints@[j].unwrap().entity1 != self.joints@[j].unwrap().entity2
            }
        &&& forall|b: usize| 0 <= b < self.blocks.len() && b != k ==> #[trigger] self.attachments_match(b)
        &&& forall|q: int| 0 <= q < self.blocks.len() ==> is_mass_milli(#[trigger] self.blocks@[q].mass_milli as int, self.blocks@[q].block_size)
    }

    pub closed spec fn wf(&self) -> bool {
        &&& self.grid.wf()
        &&& self.stage == CastleStage::Uninitialized ==> self.grid@ == Map::<Cell, BlockComposite>::empty()
        &&& self.stage != CastleStage::Uninitialized ==> self.grid@ == indexed_grid(self.placements())
        &&& self.stage != CastleStage::JointsBuilt ==> self.joints.len() == 0
        &&& forall|c: Cell| #[trigger]
            self.grid@.contains_key(c) ==> self.grid@[c].entity < self.blocks.len()
        &&& forall|j: int|
            0 <= j < self.joints.len() && (#[trigger] self.joints@[j]) is Some ==> {
                &&& self.joints@[j].unwrap().entity1 < self.blocks.len()
                &&& self.joints@[j].unwrap().entity2 < self.blocks.len()
                &&& self.joints@[j].unwrap().entity1 != self.joints@[j].unwrap().entity2
            }
        &&& forall|k: usize| 0 <= k < self.blocks.len() ==> #[trigger] self.attachments_match(k)
        &&& forall|k: int| 0 <= k < self.blocks.len() ==> is_mass_milli(#[trigger] self.blocks@[k].mass_milli as int, self.blocks@[k].block_size)
    }

    /// The joints attached to a block are exactly the joints that still
    /// exist and join it; every joint that exists joins two different
    /// blocks of the castle.
    pub proof fn attachments_exact(&self, k: usize)
        requires
            self.wf(),
            k < self.placements().len(),
        ensures
            forall|j: usize|
                #[trigger] self.attached_to(k as int).contains(j) <==> live_touching(self.joint_table(), j as int, k),
            forall|j: int|
                0 <= j < self.joint_table().len() && (#[trigger] self.joint_table()[j]) is Some ==> {
                    &&& self.joint_table()[j].unwrap().entity1 < self.placements().len()
                    &&& self.joint_table()[j].unwrap().entity2 < self.placements().len()
                    &&& self.joint_table()[j].unwrap().entity1 != self.joint_table()[j].unwrap().entity2
                },
    {
        assert(self.attachments_match(k));
    }

    /// An empty castle, not yet initialised.
    pub fn new() -> (r: Castle)
        ensures
            r.wf(),
            r.stage_of() == CastleStage::Uninitialized,
            r.placements() == Seq::<(GridCoords, BlockSize)>::empty(),
            r.joint_table() == Seq::<Option<MortarJoint>>::empty(),
    {
        let r = Castle {
            blocks: Vec::new(),
            grid: CastleGrid::new(),
            joints: Vec::new(),
            stage: CastleStage::Uninitialized,
        };
        assert(r.placements() =~= Seq::<(GridCoords, BlockSize)>::empty());
        r
    }

    pub fn stage(&self) -> (r: CastleStage)
        ensures
            r == self.stage_of(),
    {
        self.stage
    }

    pub fn block_count(&self) -> (r: usize)
        ensures
            r == self.placements().len(),
    {
        self.blocks.len()
    }

    pub fn block(&self, k: usize) -> (r: &CastleBlock)
        requires
            k < self.placements().len(),
        ensures
            (r.origin, r.block_size) == self.placements()[k as int],
            r.mass_milli == self.masses()[k as int],
            r.joints@ == self.attached_to(k as int),
    {
        &self.blocks[k]
    }

    pub fn joint_count(&self) -> (r: usize)
        ensures
            r == self.joint_table().len(),
    {
        self.joints.len()
    }

    /// Joint `id`, or `None` if there is no such joint or it was broken.
    pub fn joint(&self, id: usize) -> (r: Option<MortarJoint>)
        ensures
            r == (if id < self.joint_table().len() { self.joint_table()[id as int] } else { None }),
    {
        if id < self.joints.len() {
            self.joints[id]
        } else {
            None
        }
    }

    /// The occupant of a grid cell.
    pub fn occupant(&self, c: Cell) -> (r: Option<BlockComposite>)
        requires
            self.wf(),
        ensures
            r == (if self.grid_view().contains_key(c) { Some(self.grid_view()[c]) } else { None::<BlockComposite> }),
    {
        self.grid.get(c)
    }

    /// Adds a block from level data and returns its index, with its mass
    /// derived from its area. Blocks can only be added before the castle is
    /// initialised; afterwards nothing changes and `None` comes back.
    pub fn add_block(&mut self, origin: GridCoords, block_size: BlockSize) -> (r: Option<usize>)
        requires
            old(self).wf(),
        ensures
            final(self).wf(),
            final(self).stage_of() == old(self).stage_of(),
            final(self).joint_table() == old(self).joint_table(),
            final(self).grid_view() == old(self).grid_view(),
            old(self).stage_of() == CastleStage::Uninitialized && old(self).placements().len() < usize::MAX ==> {
                &&& final(self).masses().drop_last() == old(self).masses()
                &&& r == Some(old(self).placements().len() as usize)
                &&& final(self).placements() == old(self).placements().push((origin, block_size))
                &&& is_mass_milli(final(self).masses().last() as int, block_size)
            },
            !(old(self).stage_of() == CastleStage::Uninitialized && old(self).placements().len() < usize::MAX) ==> {
                &&& r is None
                &&& final(self).placements() == old(self).placements()
                &&& final(self).masses() == old(self).masses()
            },
    {
        if self.stage != CastleStage::Uninitialized || self.blocks.len() == usize::MAX {
            return None;
        }
        let id = self.blocks.len();
        let mass_milli = block_mass_milli(block_size);
        self.blocks.push(CastleBlock { origin, block_size, mass_milli, joints: Vec::new() });
        proof {
            assert(self.placements() =~= old(self).placements().push((origin, block_size)));
            assert forall|k: usize| 0 <= k < self.blocks.len() implies #[trigger] self.attachments_match(k) by {
                if k < id {
                    assert(old(self).attachments_match(k));
                    assert(self.blocks@[k as int] == old(self).blocks@[k as int]);
                }
            }
            assert forall|k: int| 0 <= k < self.blocks.len() implies is_mass_milli(#[trigger] self.blocks@[k].mass_milli as int, self.blocks@[k].block_size) by {
                if k < id {
                    assert(self.blocks@[k] == old(self).blocks@[k]);
                }
            }
        }
        Some(id)
    }

    /// Indexes every block in the grid, in the order they were added: the
    /// first step of initialisation. Cells claimed by two blocks keep the
    /// earlier one and are reported. Once the castle is indexed this does
    /// nothing and reports no cell.
    pub fn index_blocks(&mut self) -> (conflicts: Vec<Cell>)
        requires
            old(self).wf(),
        ensures
            final(self).wf(),
            final(self).placements() == old(self).placements(),
            final(self).masses() == old(self).masses(),
            final(self).joint_table() == old(self).joint_table(),
            old(self).stage_of() == CastleStage::Uninitialized ==> {
                &&& final(self).stage_of() == CastleStage::Indexed
                &&& final(self).grid_view() == indexed_grid(final(self).placements())
                &&& forall|c: Cell|
                    conflicts@.contains(c) <==> exists|i: int| conflict_at(final(self).placements(), i, c)
            },
            old(self).stage_of() != CastleStage::Uninitialized ==> {
                &&& final(self).stage_of() == old(self).stage_of()
                &&& final(self).grid_view() == old(self).grid_view()
                &&& conflicts@.len() == 0
            },
    {
        let mut conflicts: Vec<Cell> = Vec::new();
        if self.stage != CastleStage::Uninitialized {
            return conflicts;
        }
        let ghost p = self.placements();
        let mut i: usize = 0;
        while i < self.blocks.len()
            invariant
                self.grid.wf(),
                self.blocks@ == old(self).blocks@,
                self.joints@ == old(self).joints@,
                self.stage == old(self).stage,
                p == self.placements(),
                i <= self.blocks.len(),
                self.grid@ == indexed_grid(p.take(i as int)),
                forall|c: Cell| #[trigger] self.grid@.contains_key(c) ==> self.grid@[c].entity < i,
                forall|c: Cell|
                    conflicts@.contains(c) <==> exists|k: int| 0 <= k < i && conflict_at(p, k, c),
            decreases self.blocks.len() - i,
        {
            let origin = self.blocks[i].origin;
            let size = self.blocks[i].block_size;
            assert(p[i as int] == (origin, size));
            let ghost before = self.grid@;
            let ghost earlier = conflicts@;
            let mut found = register_all_blocks_for_castle_section(&mut self.grid, &origin, i, &size);
            let ghost found_view = found@;
            conflicts.append(&mut found);
            proof {
                assert(p.take(i + 1).drop_last() =~= p.take(i as int));
                assert(p.take(i + 1).len() == i + 1);
                assert(p.take(i + 1)[i as int] == (origin, size));
                assert(self.grid@ == indexed_grid(p.take(i + 1)));
                assert(conflicts@ == earlier + found_view);
                assert forall|c: Cell|
                    conflicts@.contains(c) <==> exists|k: int| 0 <= k < i + 1 && conflict_at(p, k, c) by {
                    if conflicts@.contains(c) {
                        let t = choose|t: int| 0 <= t < conflicts@.len() && conflicts@[t] == c;
                        if t < earlier.len() {
                            assert(earlier[t] == c);
                            assert(earlier.contains(c));
                        } else {
                            assert(found_view[t - earlier.len()] == c);
                            assert(found_view.contains(c));
                            assert(conflict_at(p, i as int, c));
                        }
                    }
                    if exists|k: int| 0 <= k < i + 1 && conflict_at(p, k, c) {
                        let k = choose|k: int| 0 <= k < i + 1 && conflict_at(p, k, c);
                        if k < i {
                            assert(earlier.contains(c));
                            let t = choose|t: int| 0 <= t < earlier.len() && earlier[t] == c;
                            assert(conflicts@[t] == c);
                        } else {
                            assert(k == i);
                            assert(found_view.contains(c));
                            let t = choose|t: int| 0 <= t < found_view.len() && found_view[t] == c;
                            assert(conflicts@[earlier.len() + t] == c);
                        }
                    }
                }
            }
            i = i + 1;
        }
        self.stage = CastleStage::Indexed;
        proof {
            assert(p.take(p.len() as int) =~= p);
            assert forall|k: usize| 0 <= k < self.blocks.len() implies #[trigger] self.attachments_match(k) by {
                assert(old(self).attachments_match(k));
            }
            assert forall|c: Cell|
                conflicts@.contains(c) <==> exists|k: int| conflict_at(p, k, c) by {
                if exists|k: int| conflict_at(p, k, c) {
                    let k = choose|k: int| conflict_at(p, k, c);
                    assert(0 <= k < i && conflict_at(p, k, c));
                }
            }
        }
        conflicts
    }

    /// Replaces the list of joints attached to block `k`.
    fn set_attached(&mut self, k: usize, list: Vec<usize>)
        requires
            k < old(self).blocks.len(),
        ensures
            final(self).blocks@ == old(self).blocks@.update(
                k as int,
                CastleBlock {
                    origin: old(self).blocks@[k as int].origin,
                    block_size: old(self).blocks@[k as int].block_size,
                    mass_milli: old(self).blocks@[k as int].mass_milli,
                    joints: list,
                },
            ),
            final(self).grid == old(self).grid,
            final(self).joints == old(self).joints,
            final(self).stage == old(self).stage,
            final(self).placements() == old(self).placements(),
            final(self).masses() == old(self).masses(),
    {
        let b = CastleBlock {
            origin: self.blocks[k].origin,
            block_size: self.blocks[k].block_size,
            mass_milli: self.blocks[k].mass_milli,
            joints: list,
        };
        self.blocks.set(k, b);
        assert(self.placements() =~= old(self).placements());
        assert(self.masses() =~= old(self).masses());
    }

    /// Adds the joint between `a` and `b` and attaches it to both blocks.
    fn add_joint(&mut self, a: BlockComposite, b: BlockComposite)
        requires
            old(self).wf(),
            old(self).stage == CastleStage::JointsBuilt,
            a.entity != b.entity,
            a.entity < old(self).blocks.len(),
            b.entity < old(self).blocks.len(),
            old(self).joints.len() < usize::MAX,
        ensures
            final(self).wf(),
            final(self).joint_table() == old(self).joint_table().push(Some(joint_between(a, b))),
            final(self).placements() == old(self).placements(),
            final(self).masses() == old(self).masses(),
            final(self).grid == old(self).grid,
            final(self).stage == old(self).stage,
    {
        let id = self.joints.len();
        let joint = create_joint(a, b);
        self.joints.push(Some(joint));
        let mut la = copy_ids(&self.blocks[a.entity].joints);
        la.push(id);
        self.set_attached(a.entity, la);
        let mut lb = copy_ids(&self.blocks[b.entity].joints);
        lb.push(id);
        self.set_attached(b.entity, lb);
        proof {
            let t0 = old(self).joints@;
            let t = self.joints@;
            assert(t == t0.push(Some(joint)));
            assert forall|j: int|
                0 <= j < self.joints.len() && (#[trigger] self.joints@[j]) is Some implies {
                    &&& self.joints@[j].unwrap().entity1 < self.blocks.len()
                    &&& self.joints@[j].unwrap().entity2 < self.blocks.len()
                    &&& self.joints@[j].unwrap().entity1 != self.joints@[j].unwrap().entity2
                } by {
                if j < id {
                    assert(t[j] == t0[j]);
                }
            }
            assert forall|k: usize| 0 <= k < self.blocks.len() implies #[trigger] self.attachments_match(k) by {
                assert(old(self).attachments_match(k));
                assert forall|j: usize|
                    self.blocks@[k as int].joints@.contains(j) <==> live_touching(t, j as int, k) by {
                    assert(old(self).blocks@[k as int].joints@.contains(j) <==> live_touching(t0, j as int, k));
                    if j < id {
                        assert(t[j as int] == t0[j as int]);
                    }
                    if k == a.entity || k == b.entity {
                        let l = self.blocks@[k as int].joints@;
                        let l0 = old(self).blocks@[k as int].joints@;
                        assert(l == l0.push(id));
                        if l.contains(j) && j != id {
                            let q = choose|q: int| 0 <= q < l.len() && l[q] == j;
                            assert(l0[q] == j);
                        }
                        if l0.contains(j) {
                            let q = choose|q: int| 0 <= q < l0.len() && l0[q] == j;
                            assert(l[q] == j);
                        }
                        if j == id {
                            assert(l[l0.len() as int] == j);
                        }
                    } else {
                        assert(self.blocks@[k as int] == old(self).blocks@[k as int]);
                    }
                }
            }
            assert forall|k: int| 0 <= k < self.blocks.len() implies is_mass_milli(#[trigger] self.blocks@[k].mass_milli as int, self.blocks@[k].block_size) by {
                assert(self.masses()[k] == old(self).masses()[k]);
                assert(self.placements()[k] == old(self).placements()[k]);
            }
        }
    }

    /// The one-time initialisation: indexes the blocks if that has not been
    /// done, then finds every pair of blocks that share an edge and builds
    /// one mortar joint between each, attached to both. Once the joints are
    /// built, calling it again changes nothing.
    pub fn create_mortar_joints(&mut self) -> (conflicts: Vec<Cell>)
        requires
            old(self).wf(),
        ensures
            final(self).wf(),
            initialized_from(*old(self), *final(self)),
            old(self).stage_of() == CastleStage::Uninitialized ==> forall|c: Cell|
                conflicts@.contains(c) <==> exists|i: int| conflict_at(final(self).placements(), i, c),
            old(self).stage_of() != CastleStage::Uninitialized ==> conflicts@.len() == 0,
    {
        let conflicts = self.index_blocks();
        if self.stage == CastleStage::Indexed {
            let pairs = find_adjacent_pairs(&self.grid);
            let ghost pre = *self;
            self.stage = CastleStage::JointsBuilt;
            proof {
                assert forall|k: usize| 0 <= k < self.blocks.len() implies #[trigger] self.attachments_match(k) by {
                    assert(pre.attachments_match(k));
                }
            }
            let ghost start = self.joints@;
            assert(start.len() == 0);
            let mut i: usize = 0;
            while i < pairs.len()
                invariant
                    self.wf(),
                    self.stage == CastleStage::JointsBuilt,
                    self.placements() == old(self).placements(),
                    self.masses() == old(self).masses(),
                    self.grid@ == indexed_grid(self.placements()),
                    adjacency_of(self.grid@, pairs@),
                    i <= pairs.len(),
                    self.joints@ == joints_of_pairs(pairs@.take(i as int)),
                decreases pairs.len() - i,
            {
                let p = pairs[i];
                proof {
                    assert(crate::grid::adjacent(self.grid@, pairs@[i as int].first, pairs@[i as int].second));
                    let (c, down) = choose|c: Cell, down: bool| #[trigger] crate::grid::touches_at(self.grid@, c, down, p.first, p.second);
                    assert(self.grid@.contains_key(c));
                    assert(self.grid@.contains_key(crate::grid::probe(c, down)));
                }
                let ghost before = self.joints@;
                self.add_joint(p.first, p.second);
                proof {
                    assert(pairs@.take(i + 1) =~= pairs@.take(i as int).push(p));
                    assert(self.joints@ =~= joints_of_pairs(pairs@.take(i + 1)));
                }
                i = i + 1;
            }
            proof {
                assert(pairs@.take(pairs@.len() as int) =~= pairs@);
            }
        }
        conflicts
    }

    /// Detaches and removes joint `id` if it still exists and is attached to
    /// block `k`.
    fn break_joint(&mut self, k: usize, id: usize)
        requires
            old(self).wf_except(k),
            k < old(self).blocks.len(),
            old(self).blocks@[k as int].joints@.len() == 0,
        ensures
            final(self).wf_except(k),
            final(self).blocks.len() == old(self).blocks.len(),
            final(self).blocks@[k as int].joints@.len() == 0,
            final(self).placements() == old(self).placements(),
            final(self).masses() == old(self).masses(),
            final(self).grid == old(self).grid,
            final(self).stage == old(self).stage,
            final(self).joints@ == (if live_touching(old(self).joints@, id as int, k) {
                old(self).joints@.update(id as int, None)
            } else {
                old(self).joints@
            }),
    {
        if id >= self.joints.len() {
            return;
        }
        let joint = match self.joints[id] {
            Some(joint) => joint,
            None => {
                return;
            },
        };
        if joint.entity1 != k && joint.entity2 != k {
            return;
        }
        let other = if joint.entity1 == k {
            joint.entity2
        } else {
            joint.entity1
        };
        let list = ids_without(&self.blocks[other].joints, id);
        self.set_attached(other, list);
        self.joints.set(id, None);
        proof {
            let t0 = old(self).joints@;
            let t = self.joints@;
            assert forall|j: int|
                0 <= j < self.joints.len() && (#[trigger] self.joints@[j]) is Some implies {
                    &&& self.joints@[j].unwrap().entity1 < self.blocks.len()
                    &&& self.joints@[j].unwrap().entity2 < self.blocks.len()
                    &&& self.joints@[j].unwrap().entity1 != self.joints@[j].unwrap().entity2
                } by {
                assert(t[j] == t0[j]);
            }
            assert forall|b: usize| 0 <= b < self.blocks.len() && b != k implies #[trigger] self.attachments_match(b) by {
                assert(old(self).attachments_match(b));
                assert forall|j: usize|
                    self.blocks@[b as int].joints@.contains(j) <==> live_touching(t, j as int, b) by {
                    assert(old(self).blocks@[b as int].joints@.contains(j) <==> live_touching(t0, j as int, b));
                    if j != id {
                        assert(live_touching(t, j as int, b) == live_touching(t0, j as int, b));
                    }
                    if b != other {
                        assert(self.blocks@[b as int] == old(self).blocks@[b as int]);
                    }
                }
            }
            assert forall|q: int| 0 <= q < self.blocks.len() implies is_mass_milli(#[trigger] self.blocks@[q].mass_milli as int, self.blocks@[q].block_size) by {
                assert(self.masses()[q] == old(self).masses()[q]);
                assert(self.placements()[q] == old(self).placements()[q]);
            }
        }
    }

    /// Handles an impulse that hit block `block`. When its magnitude reaches
    /// `threshold`, every joint attached to the block is removed, from the
    /// joint table and from the attachment lists of both its blocks; other
    /// joints are left alone. A weaker impulse changes nothing. Joints
    /// already removed are skipped. Returns whether the impulse broke.
    pub fn handle_castle_impulses(&mut self, block: usize, hit: &ShockwaveHit, threshold: u64) -> (broke: bool)
        requires
            old(self).wf(),
        ensures
            final(self).wf(),
            broke == breaks(*hit, threshold),
            final(self).stage_of() == old(self).stage_of(),
            final(self).placements() == old(self).placements(),
            final(self).masses() == old(self).masses(),
            final(self).grid_view() == old(self).grid_view(),
            final(self).joint_table().len() == old(self).joint_table().len(),
            broke ==> forall|j: int|
                0 <= j < final(self).joint_table().len() ==> #[trigger] final(self).joint_table()[j] == (
                if live_touching(old(self).joint_table(), j, block) {
                    None
                } else {
                    old(self).joint_table()[j]
                }),
            !broke ==> final(self).joint_table() == old(self).joint_table(),
    {
        if !is_breaking_impulse(hit, threshold) {
            return false;
        }
        if block >= self.blocks.len() {
            proof {
                assert forall|j: int|
                    0 <= j < self.joints@.len() implies !live_touching(self.joints@, j, block) by {
                    if self.joints@[j] is Some {
                        assert(self.joints@[j].unwrap().entity1 < self.blocks.len());
                    }
                }
            }
            return true;
        }
        let ids = copy_ids(&self.blocks[block].joints);
        proof {
            assert(self.attachments_match(block));
        }
        let ghost pre = *self;
        self.set_attached(block, Vec::new());
        let ghost t0 = self.joints@;
        proof {
            assert forall|b: usize| 0 <= b < self.blocks.len() && b != block implies #[trigger] self.attachments_match(b) by {
                assert(pre.attachments_match(b));
                assert(self.blocks@[b as int] == pre.blocks@[b as int]);
            }
            assert forall|q: int| 0 <= q < self.blocks.len() implies is_mass_milli(#[trigger] self.blocks@[q].mass_milli as int, self.blocks@[q].block_size) by {
                assert(self.masses()[q] == pre.masses()[q]);
                assert(self.placements()[q] == pre.placements()[q]);
            }
            assert forall|j: int|
                #[trigger] live_touching(self.joints@, j, block) implies exists|q: int|
                    0 <= q < ids.len() && ids@[q] == j by {
                assert(ids@.contains(j as usize));
            }
        }
        let mut i: usize = 0;
        while i < ids.len()
            invariant
                self.wf_except(block),
                block < self.blocks.len(),
                self.blocks@[block as int].joints@.len() == 0,
                self.placements() == old(self).placements(),
                self.masses() == old(self).masses(),
                self.grid == old(self).grid,
                self.stage == old(self).stage,
                t0 == old(self).joints@,
                self.joints@.len() == t0.len(),
                i <= ids.len(),
                forall|j: usize| ids@.contains(j) <==> live_touching(t0, j as int, block),
                forall|j: int|
                    0 <= j < t0.len() ==> #[trigger] self.joints@[j] == t0[j] || (
                    self.joints@[j] is None && live_touching(t0, j, block)),
                forall|j: int|
                    #[trigger] live_touching(self.joints@, j, block) ==> exists|q: int|
                        i <= q < ids.len() && ids@[q] == j,
            decreases ids.len() - i,
        {
            let id = ids[i];
            let ghost before = self.joints@;
            self.break_joint(block, id);
            proof {
                assert forall|j: int|
                    #[trigger] live_touching(self.joints@, j, block) implies exists|q: int|
                        i + 1 <= q < ids.len() && ids@[q] == j by {
                    assert(live_touching(before, j, block));
                    let q = choose|q: int| i <= q < ids.len() && ids@[q] == j;
                    assert(q != i);
                }
                assert forall|j: int|
                    0 <= j < t0.len() implies #[trigger] self.joints@[j] == t0[j] || (
                    self.joints@[j] is None && live_touching(t0, j, block)) by {
                    assert(before[j] == t0[j] || (before[j] is None && live_touching(t0, j, block)));
                    if j == id && live_touching(before, j, block) {
                        assert(before[j] == t0[j]);
                    }
                }
            }
            i = i + 1;
        }
        proof {
            let t = self.joints@;
            assert forall|j: int|
                0 <= j < t.len() implies #[trigger] t[j] == (if live_touching(t0, j, block) {
                    None
                } else {
                    t0[j]
                }) by {
                if live_touching(t0, j, block) && t[j] is Some {
                    assert(t[j] == t0[j]);
                    assert(live_touching(t, j, block));
                }
            }
            assert(self.attachments_match(block));
        }
        true
    }
}

fn copy_ids(v: &Vec<usize>) -> (r: Vec<usize>)
    ensures
        r@ == v@,
{
    let mut r: Vec<usize> = Vec::new();
    let mut i: usize = 0;
    while i < v.len()
        invariant
            i <= v.len(),
            r@ == v@.take(i as int),
        decreases v.len() - i,
    {
        r.push(v[i]);
        assert(v@.take(i + 1) =~= v@.take(i as int).push(v@[i as int]));
        i = i + 1;
    }
    assert(v@.take(v.len() as int) =~= v@);
    r
}

/// The entries of `v` other than `x`.
fn ids_without(v: &Vec<usize>, x: usize) -> (r: Vec<usize>)
    ensures
        forall|j: usize| r@.contains(j) <==> (v@.contains(j) && j != x),
{
    let mut r: Vec<usize> = Vec::new();
    let mut i: usize = 0;
    while i < v.len()
        invariant
            i <= v.len(),
            forall|j: usize| r@.contains(j) <==> (v@.take(i as int).contains(j) && j != x),
        decreases v.len() - i,
    {
        let ghost r0 = r@;
        let ghost t0 = v@.take(i as int);
        let ghost t1 = v@.take(i + 1);
        assert(t1 =~= t0.push(v@[i as int]));
        if v[i] != x {
            r.push(v[i]);
        }
        assert forall|j: usize| r@.contains(j) <==> (t1.contains(j) && j != x) by {
            if r@.contains(j) {
                let q = choose|q: int| 0 <= q < r@.len() && r@[q] == j;
                if q < r0.len() {
                    assert(r0[q] == j);
                    assert(r0.contains(j));
                    let q2 = choose|q2: int| 0 <= q2 < t0.len() && t0[q2] == j;
                    assert(t1[q2] == j);
                } else {
                    assert(t1[i as int] == j);
                }
            }
            if t1.contains(j) && j != x {
                let q = choose|q: int| 0 <= q < t1.len() && t1[q] == j;
                if q < i {
                    assert(t0[q] == j);
                    assert(r0.contains(j));
                    let q2 = choose|q2: int| 0 <= q2 < r0.len() && r0[q2] == j;
                    assert(r@[q2] == j);
                } else {
                    assert(r@[r0.len() as int] == j);
                }
            }
        }
        i = i + 1;
    }
    assert(v@.take(v.len() as int) =~= v@);
    r
}

} // verus!
