use castle_mortar::anchor::{calculate_anchor, Anchor};
use castle_mortar::block::Block;
use castle_mortar::castle::{Castle, CastleStage};
use castle_mortar::fracture::{is_breaking_impulse, ShockwaveHit, BREAKING_IMPULSE_THRESHOLD};
use castle_mortar::grid::{
    find_adjacent_pairs, register_all_blocks_for_castle_section, BlockComposite, BlockSize,
    CastleGrid, Cell, GridCoords,
};
use castle_mortar::joint::create_joint;
use castle_mortar::mass::block_mass_milli;

fn size(width: u32, height: u32) -> BlockSize {
    BlockSize { width, height }
}

fn at(x: i32, y: i32) -> GridCoords {
    GridCoords { x, y }
}

fn unit() -> BlockSize {
    size(16, 16)
}

/// Unordered pairs of block indices joined by the castle's live joints.
fn joined_pairs(castle: &Castle) -> Vec<(usize, usize)> {
    let mut pairs = Vec::new();
    for id in 0..castle.joint_count() {
        if let Some(j) = castle.joint(id) {
            pairs.push((j.entity1.min(j.entity2), j.entity1.max(j.entity2)));
        }
    }
    pairs.sort();
    pairs
}

fn built(placements: &[(GridCoords, BlockSize)]) -> Castle {
    let mut castle = Castle::new();
    for (origin, block_size) in placements {
        castle.add_block(*origin, *block_size).unwrap();
    }
    let conflicts = castle.create_mortar_joints();
    assert!(conflicts.is_empty());
    castle
}

#[test]
fn are_blocks_neighbours_horizontal() {
    let block1 = Block {
        top_left_corner: (0, 1),
        normalised_block_size_x: 1,
        normalised_block_size_y: 1,
        grid_cell_size: 16,
    };
    let block2 = Block {
        top_left_corner: (1, 1),
        normalised_block_size_x: 1,
        normalised_block_size_y: 1,
        grid_cell_size: 16,
    };
    let block3 = Block {
        top_left_corner: (1, 2),
        normalised_block_size_x: 1,
        normalised_block_size_y: 1,
        grid_cell_size: 16,
    };
    assert!(block1.is_neighbour(&block2));
    assert!(!block1.is_neighbour(&block3));
}

#[test]
fn are_blocks_neighbours_vertical() {
    let block1 = Block {
        top_left_corner: (0, 1),
        normalised_block_size_x: 1,
        normalised_block_size_y: 1,
        grid_cell_size: 16,
    };
    let block2 = Block {
        top_left_corner: (0, 2),
        normalised_block_size_x: 1,
        normalised_block_size_y: 1,
        grid_cell_size: 16,
    };
    assert!(block1.is_neighbour(&block2));
}

#[test]
fn blocks_one_height_apart_are_vertical_neighbours() {
    let block1 = Block {
        top_left_corner: (0, 1),
        normalised_block_size_x: 1,
        normalised_block_size_y: 1,
        grid_cell_size: 16,
    };
    let below = Block { top_left_corner: (0, 0), ..block1 };
    let two_below = Block { top_left_corner: (0, -1), ..block1 };
    let same_place = block1;
    assert!(block1.is_neighbour(&below));
    assert!(!block1.is_neighbour(&two_below));
    assert!(!block1.is_neighbour(&same_place));
}

#[test]
fn grid_coverage_of_two_by_one_block() {
    let mut grid = CastleGrid::new();
    let conflicts = register_all_blocks_for_castle_section(&mut grid, &at(0, 0), 0, &size(32, 16));
    assert!(conflicts.is_empty());
    let block = grid.get(Cell { x: 0, y: 0 }).unwrap();
    assert_eq!(block.entity, 0);
    assert_eq!((block.center_x2, block.center_y2), (2, -1));
    assert!(grid.get(Cell { x: 1, y: 0 }).is_some());
    for (x, y) in [(2, 0), (-1, 0), (0, 1), (0, -1), (1, -1), (1, 1)] {
        assert!(grid.get(Cell { x, y }).is_none(), "cell {:?} should be empty", (x, y));
    }
}

#[test]
fn tall_block_grows_downward() {
    let mut grid = CastleGrid::new();
    register_all_blocks_for_castle_section(&mut grid, &at(3, 5), 7, &size(16, 48));
    for y in 3..=5 {
        assert_eq!(grid.get(Cell { x: 3, y }).unwrap().entity, 7);
    }
    assert!(grid.get(Cell { x: 3, y: 2 }).is_none());
    assert!(grid.get(Cell { x: 3, y: 6 }).is_none());
    assert!(grid.get(Cell { x: 4, y: 5 }).is_none());
}

#[test]
fn partial_cells_are_truncated() {
    let mut grid = CastleGrid::new();
    register_all_blocks_for_castle_section(&mut grid, &at(0, 0), 0, &size(31, 15));
    assert!(grid.get(Cell { x: 0, y: 0 }).is_none());
    register_all_blocks_for_castle_section(&mut grid, &at(0, 0), 1, &size(31, 16));
    assert_eq!(grid.get(Cell { x: 0, y: 0 }).unwrap().entity, 1);
    assert!(grid.get(Cell { x: 1, y: 0 }).is_none());
}

#[test]
fn overlapping_cell_keeps_first_block_and_is_reported() {
    let mut grid = CastleGrid::new();
    register_all_blocks_for_castle_section(&mut grid, &at(0, 0), 0, &size(32, 16));
    let conflicts = register_all_blocks_for_castle_section(&mut grid, &at(1, 0), 1, &size(32, 16));
    assert_eq!(conflicts, vec![Cell { x: 1, y: 0 }]);
    assert_eq!(grid.get(Cell { x: 1, y: 0 }).unwrap().entity, 0);
    assert_eq!(grid.get(Cell { x: 2, y: 0 }).unwrap().entity, 1);
}

#[test]
fn registering_the_same_block_twice_reports_nothing() {
    let mut grid = CastleGrid::new();
    register_all_blocks_for_castle_section(&mut grid, &at(0, 0), 4, &size(32, 32));
    let again = register_all_blocks_for_castle_section(&mut grid, &at(0, 0), 4, &size(32, 32));
    assert!(again.is_empty());
    assert_eq!(grid.get(Cell { x: 1, y: -1 }).unwrap().entity, 4);
}

#[test]
fn registering_a_block_again_replaces_its_record() {
    let mut grid = CastleGrid::new();
    register_all_blocks_for_castle_section(&mut grid, &at(0, 0), 0, &unit());
    let conflicts = register_all_blocks_for_castle_section(&mut grid, &at(0, 0), 0, &size(32, 16));
    assert!(conflicts.is_empty());
    let first = grid.get(Cell { x: 0, y: 0 }).unwrap();
    let second = grid.get(Cell { x: 1, y: 0 }).unwrap();
    assert_eq!(first, second);
    assert_eq!(first.block_size, size(32, 16));
    assert_eq!((first.center_x2, first.center_y2), (2, -1));
}

#[test]
fn castle_reports_overlapping_blocks() {
    let mut castle = Castle::new();
    castle.add_block(at(0, 0), size(32, 16));
    castle.add_block(at(1, 0), unit());
    let conflicts = castle.create_mortar_joints();
    assert_eq!(conflicts, vec![Cell { x: 1, y: 0 }]);
    assert_eq!(castle.occupant(Cell { x: 1, y: 0 }).unwrap().entity, 0);
    assert_eq!(castle.joint_count(), 0);
}

#[test]
fn single_multi_cell_block_has_no_self_pair() {
    let mut grid = CastleGrid::new();
    register_all_blocks_for_castle_section(&mut grid, &at(0, 0), 0, &size(48, 32));
    assert!(find_adjacent_pairs(&grid).is_empty());
    let castle = built(&[(at(0, 0), size(48, 32))]);
    assert_eq!(castle.joint_count(), 0);
}

#[test]
fn wide_block_above_wide_block_is_paired_once() {
    let mut grid = CastleGrid::new();
    register_all_blocks_for_castle_section(&mut grid, &at(0, 1), 0, &size(32, 16));
    register_all_blocks_for_castle_section(&mut grid, &at(0, 0), 1, &size(32, 16));
    let pairs = find_adjacent_pairs(&grid);
    assert_eq!(pairs.len(), 1);
    assert_eq!((pairs[0].first.entity, pairs[0].second.entity), (0, 1));
}

#[test]
fn equal_blocks_anchor_on_shared_edge() {
    let a = BlockComposite::new(0, at(0, 0), unit());
    let b = BlockComposite::new(1, at(1, 0), unit());
    assert_eq!(calculate_anchor(a, b), Anchor { x2: 16, y2: 0 });
    assert_eq!(calculate_anchor(b, a), Anchor { x2: -16, y2: 0 });
    let below = BlockComposite::new(2, at(0, -1), unit());
    assert_eq!(calculate_anchor(a, below), Anchor { x2: 0, y2: -16 });
    assert_eq!(calculate_anchor(below, a), Anchor { x2: 0, y2: 16 });
}

#[test]
fn larger_block_anchor_is_clamped_to_its_extent() {
    let big = BlockComposite::new(0, at(0, 0), size(32, 32));
    let small = BlockComposite::new(1, at(2, 0), unit());
    assert_eq!(calculate_anchor(big, small), Anchor { x2: 32, y2: 16 });
    assert_eq!(calculate_anchor(small, big), Anchor { x2: -16, y2: 0 });
}

#[test]
fn corner_anchor_moves_to_edge_middle() {
    let big = BlockComposite::new(0, at(0, 0), size(32, 32));
    let corner = BlockComposite::new(1, at(2, 1), unit());
    assert_eq!(calculate_anchor(big, corner), Anchor { x2: 0, y2: 32 });
    let wide = BlockComposite::new(2, at(0, 0), size(64, 16));
    let off_corner = BlockComposite::new(3, at(4, 1), unit());
    assert_eq!(calculate_anchor(wide, off_corner), Anchor { x2: 0, y2: 16 });
}

#[test]
fn anchors_stay_within_half_extents() {
    let sizes = [size(16, 16), size(32, 16), size(16, 48), size(64, 32)];
    let origins = [at(0, 0), at(1, 0), at(0, -1), at(3, 2), at(-2, -3)];
    for (i, sa) in sizes.iter().enumerate() {
        for sb in sizes.iter() {
            for oa in origins.iter() {
                for ob in origins.iter() {
                    let a = BlockComposite::new(i, *oa, *sa);
                    let b = BlockComposite::new(9, *ob, *sb);
                    let j = create_joint(a, b);
                    assert!(j.local_anchor_1.x2.unsigned_abs() <= sa.width as u64);
                    assert!(j.local_anchor_1.y2.unsigned_abs() <= sa.height as u64);
                    assert!(j.local_anchor_2.x2.unsigned_abs() <= sb.width as u64);
                    assert!(j.local_anchor_2.y2.unsigned_abs() <= sb.height as u64);
                }
            }
        }
    }
}

#[test]
fn threshold_boundary() {
    let t = BREAKING_IMPULSE_THRESHOLD;
    assert!(is_breaking_impulse(&ShockwaveHit { impulse_x: 0, impulse_y: 5000 }, t));
    assert!(is_breaking_impulse(&ShockwaveHit { impulse_x: 3000, impulse_y: -4000 }, t));
    assert!(!is_breaking_impulse(&ShockwaveHit { impulse_x: 4999, impulse_y: 0 }, t));
    assert!(is_breaking_impulse(&ShockwaveHit { impulse_x: -5001, impulse_y: 0 }, t));
    assert!(!is_breaking_impulse(&ShockwaveHit { impulse_x: 3000, impulse_y: 3999 }, t));
    let extreme = ShockwaveHit { impulse_x: i64::MIN, impulse_y: i64::MIN };
    assert!(!is_breaking_impulse(&extreme, u64::MAX));
    assert!(is_breaking_impulse(&extreme, 1 << 63));
    assert!(!is_breaking_impulse(&ShockwaveHit { impulse_x: 1, impulse_y: 1 }, u64::MAX));
}

#[test]
fn initialization_twice_builds_the_same_joints() {
    let placements = [(at(0, 0), unit()), (at(1, 0), unit()), (at(0, -1), size(32, 16))];
    let mut castle = built(&placements);
    let first = joined_pairs(&castle);
    let count = castle.joint_count();
    assert!(castle.create_mortar_joints().is_empty());
    assert_eq!(joined_pairs(&castle), first);
    assert_eq!(castle.joint_count(), count);
    assert!(castle.index_blocks().is_empty());
    assert_eq!(castle.joint_count(), count);
    assert_eq!(first, vec![(0, 1), (0, 2), (1, 2)]);
}

#[test]
fn stages_advance_once() {
    let mut castle = Castle::new();
    assert_eq!(castle.stage(), CastleStage::Uninitialized);
    assert_eq!(castle.add_block(at(0, 0), unit()), Some(0));
    assert!(castle.index_blocks().is_empty());
    assert_eq!(castle.stage(), CastleStage::Indexed);
    assert_eq!(castle.add_block(at(1, 0), unit()), None);
    assert_eq!(castle.block_count(), 1);
    castle.create_mortar_joints();
    assert_eq!(castle.stage(), CastleStage::JointsBuilt);
}

#[test]
fn cascade_breaks_only_joints_of_hit_block() {
    let mut castle = built(&[(at(0, 0), unit()), (at(1, 0), unit()), (at(2, 0), unit())]);
    assert_eq!(joined_pairs(&castle), vec![(0, 1), (1, 2)]);
    let hit = ShockwaveHit { impulse_x: 6000, impulse_y: 0 };
    assert!(castle.handle_castle_impulses(0, &hit, BREAKING_IMPULSE_THRESHOLD));
    assert_eq!(joined_pairs(&castle), vec![(1, 2)]);
    assert!(castle.block(0).joints.is_empty());
    assert_eq!(castle.block(1).joints.len(), 1);
    assert_eq!(castle.block(2).joints.len(), 1);
    assert_eq!(castle.block(1).joints, castle.block(2).joints);
}

#[test]
fn weak_impulse_changes_nothing() {
    let mut castle = built(&[(at(0, 0), unit()), (at(1, 0), unit())]);
    let hit = ShockwaveHit { impulse_x: 0, impulse_y: -4999 };
    assert!(!castle.handle_castle_impulses(1, &hit, BREAKING_IMPULSE_THRESHOLD));
    assert_eq!(joined_pairs(&castle), vec![(0, 1)]);
    assert_eq!(castle.block(1).joints.len(), 1);
}

#[test]
fn breaking_twice_is_a_no_op() {
    let mut castle = built(&[(at(0, 0), unit()), (at(1, 0), unit()), (at(0, -1), unit())]);
    let hit = ShockwaveHit { impulse_x: 0, impulse_y: 9000 };
    assert!(castle.handle_castle_impulses(0, &hit, BREAKING_IMPULSE_THRESHOLD));
    assert!(joined_pairs(&castle).is_empty());
    assert!(castle.handle_castle_impulses(0, &hit, BREAKING_IMPULSE_THRESHOLD));
    assert!(castle.handle_castle_impulses(17, &hit, BREAKING_IMPULSE_THRESHOLD));
    assert_eq!(castle.joint_count(), 2);
    assert!(castle.joint(0).is_none() && castle.joint(1).is_none());
}

#[test]
fn two_by_two_grid_yields_four_joints() {
    // top-left, top-right, bottom-left, bottom-right
    let castle = built(&[
        (at(0, 1), unit()),
        (at(1, 1), unit()),
        (at(0, 0), unit()),
        (at(1, 0), unit()),
    ]);
    assert_eq!(castle.joint_count(), 4);
    assert_eq!(joined_pairs(&castle), vec![(0, 1), (0, 2), (1, 3), (2, 3)]);
    for id in 0..4 {
        let j = castle.joint(id).unwrap();
        assert!(castle.block(j.entity1).joints.contains(&id));
        assert!(castle.block(j.entity2).joints.contains(&id));
    }
}

#[test]
fn joint_between_stacked_blocks_has_exact_anchors() {
    let castle = built(&[(at(0, 1), unit()), (at(0, 0), size(32, 16))]);
    let j = castle.joint(0).unwrap();
    assert_eq!((j.entity1, j.entity2), (0, 1));
    assert_eq!(j.local_anchor_1, Anchor { x2: 0, y2: -16 });
    assert_eq!(j.local_anchor_2, Anchor { x2: -16, y2: 16 });
}

#[test]
fn mass_follows_square_root_of_area() {
    assert_eq!(block_mass_milli(unit()), 100_000);
    assert_eq!(block_mass_milli(size(32, 32)), 200_000);
    assert_eq!(block_mass_milli(size(32, 16)), 141_421);
    assert_eq!(block_mass_milli(size(0, 16)), 0);
    assert_eq!(block_mass_milli(size(u32::MAX, u32::MAX)), 26_843_545_593_750);
    let mut castle = Castle::new();
    castle.add_block(at(0, 0), size(64, 16));
    assert_eq!(castle.block(0).mass_milli, 200_000);
}

#[test]
fn default_block_is_one_cell() {
    assert_eq!(BlockSize::default(), unit());
}
