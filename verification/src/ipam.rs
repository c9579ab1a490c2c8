//! Overlay address management.
//!
//! Each tenant owns the whole `100.64.0.0/10` CGNAT range; a new device gets
//! the lowest address of the range that no device of its tenant holds.

use vstd::prelude::*;
use std::collections::HashSet;

verus! {

broadcast use vstd::std_specs::hash::group_hash_axioms;

/// First assignable address: 100.64.0.1 (`.0` is the network's anchor).
pub const BASE: u32 = 0x6440_0001;

/// Last address inside 100.64.0.0/10: 100.127.255.254.
pub const LAST: u32 = 0x647F_FFFE;

/// `x` is the lowest address of the range that `used` does not hold.
pub open spec fn lowest_free(used: Set<u32>, x: u32) -> bool {
    &&& BASE <= x <= LAST
    &&& !used.contains(x)
    &&& forall|y: u32| BASE <= y < x ==> used.contains(y)
}

/// The lowest free overlay address, given the addresses in use (as `u32`);
/// `None` when the whole range is taken.
pub fn next_free_v4(used: &HashSet<u32>) -> (r: Option<u32>)
    ensures
        r matches Some(x) ==> lowest_free(used@, x),
        r is None <==> forall|y: u32| BASE <= y <= LAST ==> used@.contains(y),
{
    let mut candidate: u32 = BASE;
    loop
        invariant
            BASE <= candidate <= LAST,
            forall|y: u32| BASE <= y < candidate ==> used@.contains(y),
        decreases LAST - candidate,
    {
        if !used.contains(&candidate) {
            return Some(candidate);
        }
        if candidate == LAST {
            return None;
        }
        candidate = candidate + 1;
    }
}

} // verus!
