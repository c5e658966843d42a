//! Chain-following state: positions in a chain, anchors, and the checkpoint
//! ring of restore points.

pub mod anchor;
pub mod checkpoint;
pub mod position;
pub mod source;
