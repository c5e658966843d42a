//! How far back an event source can replay.

use vstd::prelude::*;

verus! {

/// Oldest position a source can replay from.
#[derive(Debug, Clone, Copy, PartialEq, Eq, Structural)]
pub enum ReplayHorizon {
    /// Source replays the whole chain.
    Genesis,
    /// Source replays only from this block upward.
    FromBlock(u64),
}

} // verus!
