//! Structural integrity of block castles: grid indexing of placed blocks,
//! adjacency between them, anchors of the mortar joints that hold them
//! together, and fracture of those joints under large impulses.

pub mod anchor;
pub mod block;
pub mod castle;
pub mod cell_map;
pub mod fracture;
pub mod grid;
pub mod joint;
pub mod mass;
