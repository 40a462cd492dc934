//! How the shape renderer's instance buffer grows: reallocated only when a
//! frame has more instances than it holds, and then at least doubled, so a
//! frame that grows by one does not pay for a reallocation every time.

use vstd::prelude::*;

verus! {

/// The capacity the instance buffer should have to hold `count` instances,
/// given that it holds `capacity` now: unchanged when they fit, else the
/// larger of twice the capacity and `count`.
pub fn instance_capacity(capacity: usize, count: usize) -> (c: usize)
    requires
        count > capacity ==> 2 * capacity <= usize::MAX,
    ensures
        c == (if count <= capacity {
            capacity as int
        } else if 2 * capacity >= count {
            2 * capacity
        } else {
            count as int
        }),
        c >= count,
        c >= capacity,
{
    if count > capacity {
        let doubled = capacity * 2;
        if doubled >= count {
            doubled
        } else {
            count
        }
    } else {
        capacity
    }
}

} // verus!
