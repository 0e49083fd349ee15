//! Scanners over byte buffers: one match occurrence, its captured spans, and
//! the sequential and chunked search strategies.

pub mod result;
pub mod simple;
pub mod threaded;

use vstd::prelude::*;

use crate::matching;
use crate::pattern::Pattern;
use crate::scanner::result::ScanResultCapture;

verus! {

/// One match occurrence: where the pattern begins in the scanned buffer and
/// the bytes of each capture group, in declaration order.
#[derive(Debug, PartialEq)]
pub struct ScanResult {
    pub location: usize,
    pub captures: Vec<ScanResultCapture>,
}

/// The pattern matches `buf` at offset `o`.
#[verifier::inline]
pub open spec fn pattern_matches_at(buf: Seq<u8>, p: Pattern, o: int) -> bool {
    matching::matches_at(buf, p.bytes@, p.mask@, o)
}

/// The captures belonging to a match of `p` at offset `o` of `buf`: one per
/// capture group, reporting the group's absolute start and an owned copy of
/// the matched span.
pub open spec fn captures_model(buf: Seq<u8>, p: Pattern, o: int, caps: Seq<ScanResultCapture>) -> bool {
    &&& caps.len() == p.capture_groups@.len()
    &&& forall|i: int|
        0 <= i < caps.len() ==> (#[trigger] caps[i]).location == o
            + p.capture_groups@[i].start && caps[i].bytes@ == buf.subrange(
            o + p.capture_groups@[i].start,
            o + p.capture_groups@[i].end,
        )
}

/// A full scan result models a match of `p` at offset `o`.
pub open spec fn result_models(buf: Seq<u8>, p: Pattern, o: int, r: ScanResult) -> bool {
    &&& r.location == o
    &&& captures_model(buf, p, o, r.captures@)
}

} // verus!
