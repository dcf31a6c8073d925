//! Per-block metadata the pruner reads: the locator tying a block back to its
//! storage position, and the per-column summary statistics.

use std::collections::HashMap;
use std::ops::Range;
use vstd::prelude::*;

verus! {

/// Locator of a storage block: the segment it lives in, its position within
/// the segment, and an optional half-open sub-range of row offsets. When the
/// range is absent the locator refers to the whole block. The pruner carries
/// locators through unchanged and never interprets them.
#[derive(Clone, Debug)]
pub struct BlockMetaIndex {
    pub segment_idx: usize,
    pub block_idx: usize,
    pub range: Option<Range<usize>>,
}

/// Summary statistics of one column within one block: minimum value, maximum
/// value and the number of null entries. Supplied by the storage layer and
/// read-only here.
#[derive(Clone, Copy, Debug)]
pub struct ColumnStatistics {
    pub min: i64,
    pub max: i64,
    pub null_count: u64,
}

/// Metadata of one block: for each column identifier, that column's summary
/// statistics in this block.
#[derive(Debug)]
pub struct BlockMeta {
    pub col_stats: HashMap<usize, ColumnStatistics>,
}

impl BlockMeta {
    /// Whether this block carries statistics for column `id`.
    pub open spec fn has_stats(&self, id: int) -> bool {
        self.col_stats@.contains_key(id as usize)
    }

    /// The statistics this block carries for column `id`.
    pub open spec fn stats_of(&self, id: int) -> ColumnStatistics {
        self.col_stats@[id as usize]
    }

    /// Look up the statistics entry for column `id`.
    pub fn get_stats(&self, id: usize) -> (r: Option<ColumnStatistics>)
        ensures
            r matches Some(s) ==> self.has_stats(id as int) && s == self.stats_of(id as int),
            r is None ==> !self.has_stats(id as int),
    {
        broadcast use vstd::std_specs::hash::group_hash_axioms;

        match self.col_stats.get(&id) {
            Some(s) => Some(*s),
            None => None,
        }
    }
}

} // verus!
