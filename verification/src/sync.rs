//! The atomically swappable reference that holds the cache tree root.
//!
//! The tree behind it is immutable; replacing the root reference is the only
//! mutation. Readers take the current root and work on that tree; writers
//! build a new tree and install it, either unconditionally (reset) or with a
//! compare-and-swap that is allowed to lose silently (cache population).
//!
//! The cell is shared and concurrently updated, so its momentary contents are
//! not a function of the reference alone; none of the contracts here claims
//! anything about which tree an operation sees or leaves behind. Everything
//! the bridge guarantees is stated over the trees themselves, which the
//! verified cache module covers.

use vstd::prelude::*;
use std::sync::Arc;
use crate::cache::CacheNode;

verus! {

/// The cell itself. It wraps an `arc_swap::ArcSwap` whole: that type's
/// strategy parameter defaults to a type private to its crate, so the cell
/// cannot be declared to the verifier directly.
#[verifier::external_body]
pub struct CacheCell {
    inner: arc_swap::ArcSwap<CacheNode>,
}

/// Relies on `ArcSwap::from_pointee`: a fresh cell holding `root`.
#[verifier::external_body]
pub(crate) fn new_cache_cell(root: CacheNode) -> Arc<CacheCell> {
    Arc::new(CacheCell { inner: arc_swap::ArcSwap::from_pointee(root) })
}

/// Relies on `ArcSwapAny::load_full`: returns the tree the cell currently
/// holds. Under concurrency any complete update may have put it there, so
/// nothing is promised of its shape.
#[verifier::external_body]
pub(crate) fn load_cache(cell: &CacheCell) -> Arc<CacheNode> {
    cell.inner.load_full()
}

/// Relies on `ArcSwapAny::store`: unconditionally replaces the held tree,
/// winning over any concurrent compare-and-swap.
#[verifier::external_body]
pub(crate) fn store_cache(cell: &CacheCell, root: Arc<CacheNode>) {
    cell.inner.store(root);
}

/// Relies on `ArcSwapAny::compare_and_swap`: installs `new` only if the cell
/// still holds exactly `current`; a lost race is silently discarded.
#[verifier::external_body]
pub(crate) fn compare_and_swap_cache(cell: &CacheCell, current: &Arc<CacheNode>, new: Arc<CacheNode>) {
    cell.inner.compare_and_swap(current, new);
}

/// Relies on `Arc::clone`: returns a second handle to the same cell.
#[verifier::external_body]
pub(crate) fn share_cell(cell: &Arc<CacheCell>) -> (r: Arc<CacheCell>)
    ensures
        r == *cell,
{
    Arc::clone(cell)
}

} // verus!
