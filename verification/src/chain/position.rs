//! Positions of events in a chain and references to blocks.

use core::cmp::Ordering;

use vstd::prelude::*;
use vstd::std_specs::cmp::PartialOrdSpecImpl;

verus! {

/// Total order over chain events: block number, then log index within the block.
#[derive(Clone, Copy, PartialEq, Eq, Ord, Hash, Debug, Structural)]
pub struct Position {
    /// Block number the event belongs to.
    pub block: u64,
    /// Index of the log within its block.
    pub log_index: u64,
}

impl Position {
    /// Builds a position from a block number and its log index.
    pub fn new(block: u64, log_index: u64) -> (p: Self)
        ensures
            p.block == block,
            p.log_index == log_index,
    {
        Self { block, log_index }
    }
}

/// Chain order on positions: block number first, log index to break ties.
pub open spec fn chain_order(a: Position, b: Position) -> Ordering {
    if a.block < b.block {
        Ordering::Less
    } else if a.block > b.block {
        Ordering::Greater
    } else if a.log_index < b.log_index {
        Ordering::Less
    } else if a.log_index > b.log_index {
        Ordering::Greater
    } else {
        Ordering::Equal
    }
}

impl PartialOrd for Position {
    fn partial_cmp(&self, other: &Position) -> (r: Option<Ordering>) {
        if self.block < other.block {
            Some(Ordering::Less)
        } else if self.block > other.block {
            Some(Ordering::Greater)
        } else if self.log_index < other.log_index {
            Some(Ordering::Less)
        } else if self.log_index > other.log_index {
            Some(Ordering::Greater)
        } else {
            Some(Ordering::Equal)
        }
    }
}

impl PartialOrdSpecImpl for Position {
    open spec fn obeys_partial_cmp_spec() -> bool {
        true
    }

    open spec fn partial_cmp_spec(&self, other: &Position) -> Option<Ordering> {
        Some(chain_order(*self, *other))
    }
}

/// Chain order is a total order that agrees with equality: two positions
/// compare equal exactly when they are the same, and swapping the operands
/// reverses the comparison.
pub proof fn lemma_chain_order_total(a: Position, b: Position, c: Position)
    ensures
        (chain_order(a, b) == Ordering::Equal) <==> a == b,
        chain_order(a, b) == Ordering::Less <==> chain_order(b, a) == Ordering::Greater,
        chain_order(a, b) == Ordering::Less && chain_order(b, c) == Ordering::Less ==> chain_order(
            a,
            c,
        ) == Ordering::Less,
{
}

/// A position as one number: the block number in the high 64 bits, the log
/// index in the low 64 bits.
pub open spec fn position_key(p: Position) -> int {
    (p.block as int) * 0x1_0000_0000_0000_0000 + (p.log_index as int)
}

/// Positions compare as the numbers `block · 2^64 + log_index`: block number
/// first, log index within the block only between positions of one block.
/// In particular an earlier block precedes every position of a later one.
pub proof fn lemma_partial_cmp_is_block_then_log(a: Position, b: Position)
    ensures
        vstd::std_specs::cmp::PartialOrdSpec::partial_cmp_spec(&a, &b) == Some(Ordering::Less) <==> position_key(a) < position_key(b),
        vstd::std_specs::cmp::PartialOrdSpec::partial_cmp_spec(&a, &b) == Some(Ordering::Equal) <==> position_key(a) == position_key(b),
        vstd::std_specs::cmp::PartialOrdSpec::partial_cmp_spec(&a, &b) == Some(Ordering::Greater) <==> position_key(a) > position_key(b),
        a.block < b.block ==> vstd::std_specs::cmp::PartialOrdSpec::partial_cmp_spec(&a, &b) == Some(Ordering::Less),
{
    let ka = position_key(a);
    let kb = position_key(b);
    assert(a.block < b.block ==> ka < kb) by (nonlinear_arith)
        requires
            ka == a.block * 0x1_0000_0000_0000_0000 + a.log_index,
            kb == b.block * 0x1_0000_0000_0000_0000 + b.log_index,
            a.log_index < 0x1_0000_0000_0000_0000,
            b.log_index < 0x1_0000_0000_0000_0000,
    ;
    assert(a.block > b.block ==> ka > kb) by (nonlinear_arith)
        requires
            ka == a.block * 0x1_0000_0000_0000_0000 + a.log_index,
            kb == b.block * 0x1_0000_0000_0000_0000 + b.log_index,
            a.log_index < 0x1_0000_0000_0000_0000,
            b.log_index < 0x1_0000_0000_0000_0000,
    ;
}

/// A block identified by number and hash; the hash commits to the full ancestry.
#[derive(Clone, Copy, PartialEq, Eq, Hash, Debug)]
pub struct BlockRef {
    /// Block number.
    pub number: u64,
    /// Block hash, committing to the full ancestry.
    pub hash: [u8; 32],
}

} // verus!
