//! Capacity planning for the executable-memory manager.
//!
//! The manager itself owns a raw read/write/execute mapping and lives with
//! the rest of the unverified plumbing; the page arithmetic that decides how
//! large that mapping must be is ordinary logic and is verified here.

use vstd::prelude::*;

verus! {

/// Rounds `size` up to the smallest multiple of `page` that is greater than
/// or equal to `size`: the capacity an executable region of `size` bytes is
/// allocated with.
pub fn ceil(size: usize, page: usize) -> (r: usize)
    requires
        page > 0,
        size + page - 1 <= usize::MAX,
    ensures
        r % page == 0,
        size <= r,
        r < size + page,
{
    let rem = size % page;
    if rem == 0 {
        size
    } else {
        proof {
            let s = size as int;
            let p = page as int;
            assert((s - s % p) % p == 0 && (s - s % p + p) % p == 0) by (nonlinear_arith)
                requires
                    p > 0,
            ;
            assert(0 <= s % p <= s && s % p < p) by (nonlinear_arith)
                requires
                    p > 0 && s >= 0,
            ;
        }
        size - rem + page
    }
}

} // verus!
