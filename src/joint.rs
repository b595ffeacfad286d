//! The mortar joint that holds two adjacent blocks together.

use vstd::prelude::*;
use crate::anchor::{anchor_of, calculate_anchor, within_half_extents, Anchor};
use crate::grid::BlockComposite;

verus! {

/// A joint between two blocks, with its anchor in each block's local frame.
/// Stiffness and damping are tuning values applied where the joint is
/// handed to the physics engine.
#[derive(Clone, Copy, Debug, PartialEq, Eq, Structural)]
pub struct MortarJoint {
    pub entity1: usize,
    pub entity2: usize,
    pub local_anchor_1: Anchor,
    pub local_anchor_2: Anchor,
}

/// The joint between `bk1` and `bk2`: each anchor is computed from its own
/// block's point of view.
pub open spec fn joint_between(bk1: BlockComposite, bk2: BlockComposite) -> MortarJoint {
    MortarJoint {
        entity1: bk1.entity,
        entity2: bk2.entity,
        local_anchor_1: Anchor {
            x2: anchor_of(bk1, bk2).0 as i64,
            y2: anchor_of(bk1, bk2).1 as i64,
        },
        local_anchor_2: Anchor {
            x2: anchor_of(bk2, bk1).0 as i64,
            y2: anchor_of(bk2, bk1).1 as i64,
        },
    }
}

impl MortarJoint {
    /// Whether the joint is attached to block `entity`.
    pub open spec fn touches(self, entity: usize) -> bool {
        self.entity1 == entity || self.entity2 == entity
    }
}

pub fn create_joint(bk1: BlockComposite, bk2: BlockComposite) -> (joint: MortarJoint)
    ensures
        joint == joint_between(bk1, bk2),
        within_half_extents(joint.local_anchor_1, bk1),
        within_half_extents(joint.local_anchor_2, bk2),
{
    let anchor1 = calculate_anchor(bk1, bk2);
    let anchor2 = calculate_anchor(bk2, bk1);
    MortarJoint {
        entity1: bk1.entity,
        entity2: bk2.entity,
        local_anchor_1: anchor1,
        local_anchor_2: anchor2,
    }
}

} // verus!
