//! Expiration markers and the logical clock they are measured against.
//!
//! An approval or operator grant either never expires or expires at a point of
//! logical time: a block height or a block timestamp (in nanoseconds). A
//! marker whose point equals the current one counts as already expired.

use vstd::prelude::*;

verus! {

/// The point of logical time at which a query runs: the committed block's
/// height and timestamp.
#[derive(Clone, Copy, PartialEq, Eq, Structural, Debug)]
pub struct BlockInfo {
    pub height: u64,
    pub time: u64,
}

/// When a grant stops being valid.
#[derive(Clone, Copy, PartialEq, Eq, Structural, Debug)]
pub enum Expiration {
    /// Expired once the block height is `>=` the given height.
    AtHeight(u64),
    /// Expired once the block timestamp is `>=` the given timestamp.
    AtTime(u64),
    /// Never expires.
    Never,
}

/// Whether `e` has expired at block `block`. A marker equal to the current
/// height or time is already expired.
pub open spec fn spec_is_expired(e: Expiration, block: BlockInfo) -> bool {
    match e {
        Expiration::AtHeight(h) => block.height >= h,
        Expiration::AtTime(t) => block.time >= t,
        Expiration::Never => false,
    }
}

impl Expiration {
    /// Has this marker expired at `block`?
    pub fn is_expired(&self, block: &BlockInfo) -> (r: bool)
        ensures
            r == spec_is_expired(*self, *block),
    {
        match self {
            Expiration::AtHeight(h) => block.height >= *h,
            Expiration::AtTime(t) => block.time >= *t,
            Expiration::Never => false,
        }
    }
}

} // verus!
