//! Memory fences, by the order they impose.

use std::sync::atomic::fence;
use std::sync::atomic::Ordering;
use vstd::prelude::*;

verus! {

/// `std::sync::atomic::fence`: orders the memory accesses of the calling
/// thread. It panics when the order is `Relaxed`, which callers must not
/// pass; it returns nothing.
pub assume_specification[ fence ](order: Ordering)
    requires
        order != Ordering::Relaxed,
;

/// Reads and writes after this point stay behind the reads before it.
pub fn acquire_fence() {
    fence(Ordering::Acquire);
}

/// Reads and writes before this point stay before the writes after it.
pub fn release_fence() {
    fence(Ordering::Release);
}

/// No read or write moves across this point.
pub fn full_fence() {
    fence(Ordering::SeqCst);
}

} // verus!
