//! A bounded-growth history of a mergeable value.
//!
//! Recent state is kept at full resolution, older state is compacted by the
//! value's own merge operation, and the number of retained layers grows only
//! logarithmically with the number of insertions.
use vstd::prelude::*;

mod chain;
pub mod laws;
mod snapshots;

pub use chain::{cascade, counters_below, weight};
pub use snapshots::{LayerIterator, Snapshots};

verus! {

/// A value kept in a snapshot chain: it reports its tick and can be merged
/// with a newer value of its own kind.
///
/// The chain never inspects the tick; it is there for the merge policy of the
/// implementing type. By convention `merge` takes the older value as `self`
/// and the newer one as `other`.
pub trait Layer: Sized {
    /// What a merge hands back beside the merged value.
    type Extra;

    fn get_tick(&self) -> u64;

    /// Merges `self` (the older value) with `other` (the newer one).
    fn merge(self, other: Self) -> (Self, Self::Extra);
}

} // verus!
