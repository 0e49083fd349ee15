//! Page arithmetic for the allocation tracker: which 4096-byte page a
//! pointer belongs to.

use vstd::prelude::*;
use vstd::arithmetic::div_mod::lemma_fundamental_div_mod;

verus! {

/// The page size the tracker works with.
pub open spec fn page_size() -> int {
    4096
}

/// The half-open range of the page containing `ptr`.
pub fn get_memory_page_range(ptr: u64) -> (r: core::ops::Range<u64>)
    requires
        ptr <= u64::MAX - 4096,
    ensures
        r.start == (ptr as int / page_size()) * page_size(),
        r.end == r.start + page_size(),
        r.start <= ptr < r.end,
{
    let nth_page = ptr / 4096;
    proof {
        lemma_fundamental_div_mod(ptr as int, 4096);
    }
    let lower = nth_page * 4096;
    let upper = lower + 4096;
    lower..upper
}

} // verus!
