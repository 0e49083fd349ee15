//! Scanners for AOB patterns: the sequential matcher, the multi-pattern
//! group matcher, and the chunked variants.

pub mod simple;
pub mod threaded;

use vstd::prelude::*;

use crate::aob::pattern::{bool_mask, Pattern};
use crate::matching;

verus! {

/// One match occurrence: where the pattern begins and the bytes of each
/// capture group, in declaration order.
#[derive(Debug, PartialEq)]
pub struct ScanResult {
    pub location: usize,
    pub captures: Vec<Vec<u8>>,
}

/// The AOB pattern matches `buf` at offset `o`.
#[verifier::inline]
pub open spec fn aob_matches_at(buf: Seq<u8>, p: Pattern, o: int) -> bool {
    matching::matches_at(buf, p.bytes@, bool_mask(p.mask@), o)
}

/// The captures of a match of `p` at offset `o`: an owned copy of each
/// capture group's span.
pub open spec fn aob_captures_model(buf: Seq<u8>, p: Pattern, o: int, caps: Seq<Vec<u8>>) -> bool {
    &&& caps.len() == p.capture_groups@.len()
    &&& forall|i: int|
        0 <= i < caps.len() ==> (#[trigger] caps[i])@ == buf.subrange(
            o + p.capture_groups@[i].start,
            o + p.capture_groups@[i].end,
        )
}

/// The locations of a sequence of AOB results, as mathematical integers.
pub open spec fn aob_locations_of(rs: Seq<ScanResult>) -> Seq<int> {
    rs.map(|i: int, r: ScanResult| r.location as int)
}

} // verus!
