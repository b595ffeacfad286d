//! Anchor points of a mortar joint, in the local frame of each block.

use vstd::prelude::*;
use crate::grid::{BlockComposite, GRID_SIZE};

verus! {

/// Offset of a joint's anchor from a block's center, in half world units:
/// `x2` and `y2` are twice the offset, so that a half-extent is always a
/// whole number.
#[derive(Clone, Copy, Debug, PartialEq, Eq, Structural)]
pub struct Anchor {
    pub x2: i64,
    pub y2: i64,
}

pub open spec fn abs(v: int) -> int {
    if v < 0 {
        -v
    } else {
        v
    }
}

/// `v` clamped to `-limit ..= limit`.
pub open spec fn clamp(v: int, limit: int) -> int {
    if v < -limit {
        -limit
    } else if v > limit {
        limit
    } else {
        v
    }
}

/// Doubled world-space offset from the center of `bk1` to the center of `bk2`.
pub open spec fn offset_x2(bk1: BlockComposite, bk2: BlockComposite) -> int {
    (bk2.center_x2 - bk1.center_x2) * GRID_SIZE
}

pub open spec fn offset_y2(bk1: BlockComposite, bk2: BlockComposite) -> int {
    (bk2.center_y2 - bk1.center_y2) * GRID_SIZE
}

/// Whether `bk1` is strictly larger than `bk2` along at least one axis.
pub open spec fn larger_somewhere(bk1: BlockComposite, bk2: BlockComposite) -> bool {
    bk1.block_size.width > bk2.block_size.width || bk1.block_size.height > bk2.block_size.height
}

/// The anchor on `bk1` of a joint between `bk1` and `bk2`, doubled.
///
/// When `bk1` is larger along some axis, the offset towards `bk2` is clamped
/// to `bk1`'s half-extents; if that puts it on a corner, the axis of larger
/// magnitude is zeroed so that the anchor sits on the middle of an edge.
/// Otherwise the axis of smaller offset is zeroed first, and the other is
/// clamped. In both cases a tie zeroes the horizontal axis.
pub open spec fn anchor_of(bk1: BlockComposite, bk2: BlockComposite) -> (int, int) {
    let tx = offset_x2(bk1, bk2);
    let ty = offset_y2(bk1, bk2);
    let x_max = bk1.block_size.width as int;
    let y_max = bk1.block_size.height as int;
    if larger_somewhere(bk1, bk2) {
        let x = clamp(tx, x_max);
        let y = clamp(ty, y_max);
        if abs(x) == x_max && abs(y) == y_max {
            if abs(x) >= abs(y) {
                (0, y)
            } else {
                (x, 0)
            }
        } else {
            (x, y)
        }
    } else if abs(tx) > abs(ty) {
        (clamp(tx, x_max), 0)
    } else {
        (0, clamp(ty, y_max))
    }
}

/// Whether an anchor lies within the half-extent box of a block.
pub open spec fn within_half_extents(a: Anchor, bk: BlockComposite) -> bool {
    abs(a.x2 as int) <= bk.block_size.width && abs(a.y2 as int) <= bk.block_size.height
}

/// Both anchors of a joint lie within their own block's half-extent box:
/// `anchor(A, B)` within A's and `anchor(B, A)` within B's, for blocks of
/// equal sizes and for either one larger.
pub proof fn anchors_within_own_blocks(a: BlockComposite, b: BlockComposite)
    ensures
        abs(anchor_of(a, b).0) <= a.block_size.width,
        abs(anchor_of(a, b).1) <= a.block_size.height,
        abs(anchor_of(b, a).0) <= b.block_size.width,
        abs(anchor_of(b, a).1) <= b.block_size.height,
{
}

fn clamp_exec(v: i128, limit: u32) -> (r: i128)
    ensures
        r == clamp(v as int, limit as int),
{
    let l = limit as i128;
    if v < -l {
        -l
    } else if v > l {
        l
    } else {
        v
    }
}

fn abs_exec(v: i128) -> (r: i128)
    requires
        v > i128::MIN,
    ensures
        r == abs(v as int),
{
    if v < 0 {
        -v
    } else {
        v
    }
}

/// The anchor on `bk1` of a joint between `bk1` and `bk2`.
pub fn calculate_anchor(bk1: BlockComposite, bk2: BlockComposite) -> (r: Anchor)
    ensures
        (r.x2 as int, r.y2 as int) == anchor_of(bk1, bk2),
        within_half_extents(r, bk1),
{
    let grid = GRID_SIZE as i128;
    let tx = (bk2.center_x2 as i128 - bk1.center_x2 as i128) * grid;
    let ty = (bk2.center_y2 as i128 - bk1.center_y2 as i128) * grid;
    let x_max = bk1.block_size.width as i128;
    let y_max = bk1.block_size.height as i128;
    let larger = bk1.block_size.width > bk2.block_size.width || bk1.block_size.height
        > bk2.block_size.height;
    let (x, y) = if larger {
        let x = clamp_exec(tx, bk1.block_size.width);
        let y = clamp_exec(ty, bk1.block_size.height);
        if abs_exec(x) == x_max && abs_exec(y) == y_max {
            if abs_exec(x) >= abs_exec(y) {
                (0i128, y)
            } else {
                (x, 0i128)
            }
        } else {
            (x, y)
        }
    } else if abs_exec(tx) > abs_exec(ty) {
        (clamp_exec(tx, bk1.block_size.width), 0i128)
    } else {
        (0i128, clamp_exec(ty, bk1.block_size.height))
    };
    Anchor { x2: x as i64, y2: y as i64 }
}

} // verus!
