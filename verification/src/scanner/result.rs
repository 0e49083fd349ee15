//! Captured spans of a match and the rebasing of chunk-local results to
//! buffer-absolute offsets.

use vstd::prelude::*;

use crate::pattern::CaptureGroup;
use crate::scanner::ScanResult;

verus! {

/// The bytes one capture group matched, and the absolute offset of the span.
#[derive(Debug, PartialEq)]
pub struct ScanResultCapture {
    pub location: usize,
    pub bytes: Vec<u8>,
}

/// Copies the span of `bytes` that each group selects; locations are
/// reported relative to `bytes` itself.
pub fn grab_captures(bytes: &[u8], groups: &[CaptureGroup]) -> (r: Vec<ScanResultCapture>)
    requires
        forall|i: int|
            0 <= i < groups@.len() ==> (#[trigger] groups@[i]).start <= groups@[i].end
                && groups@[i].end <= bytes@.len(),
    ensures
        r@.len() == groups@.len(),
        forall|i: int|
            0 <= i < groups@.len() ==> (#[trigger] r@[i]).location == groups@[i].start
                && r@[i].bytes@ == bytes@.subrange(
                groups@[i].start as int,
                groups@[i].end as int,
            ),
{
    let mut out: Vec<ScanResultCapture> = Vec::new();
    let mut i: usize = 0;
    while i < groups.len()
        invariant
            i <= groups@.len(),
            out@.len() == i,
            forall|k: int|
                0 <= k < groups@.len() ==> (#[trigger] groups@[k]).start <= groups@[k].end
                    && groups@[k].end <= bytes@.len(),
            forall|k: int|
                0 <= k < i ==> (#[trigger] out@[k]).location == groups@[k].start
                    && out@[k].bytes@ == bytes@.subrange(
                    groups@[k].start as int,
                    groups@[k].end as int,
                ),
        decreases groups@.len() - i,
    {
        let g = groups[i];
        let span = vstd::slice::slice_subrange(bytes, g.start, g.end);
        out.push(ScanResultCapture { location: g.start, bytes: vstd::slice::slice_to_vec(span) });
        i = i + 1;
    }
    out
}

/// Moves one capture from chunk-local to buffer-absolute coordinates.
pub fn rebase_capture(input: ScanResultCapture, offset: usize) -> (r: ScanResultCapture)
    requires
        input.location + offset <= usize::MAX,
    ensures
        r.location == input.location + offset,
        r.bytes@ == input.bytes@,
{
    ScanResultCapture { location: input.location + offset, bytes: input.bytes }
}

/// Moves a whole result, captures included, from chunk-local to
/// buffer-absolute coordinates.
pub fn rebase_result(input: ScanResult, offset: usize) -> (r: ScanResult)
    requires
        input.location + offset <= usize::MAX,
        forall|i: int|
            0 <= i < input.captures@.len() ==> (#[trigger] input.captures@[i]).location + offset
                <= usize::MAX,
    ensures
        r.location == input.location + offset,
        r.captures@.len() == input.captures@.len(),
        forall|i: int|
            0 <= i < input.captures@.len() ==> (#[trigger] r.captures@[i]).location
                == input.captures@[i].location + offset && r.captures@[i].bytes@
                == input.captures@[i].bytes@,
{
    let ScanResult { location, captures } = input;
    let ghost orig = captures@;
    let mut remaining = captures;
    let mut rebased: Vec<ScanResultCapture> = Vec::new();
    while remaining.len() > 0
        invariant
            rebased@.len() + remaining@.len() == orig.len(),
            remaining@ == orig.subrange(rebased@.len() as int, orig.len() as int),
            forall|i: int|
                0 <= i < orig.len() ==> (#[trigger] orig[i]).location + offset <= usize::MAX,
            forall|i: int|
                0 <= i < rebased@.len() ==> (#[trigger] rebased@[i]).location == orig[i].location
                    + offset && rebased@[i].bytes@ == orig[i].bytes@,
        decreases remaining@.len(),
    {
        proof {
            assert(remaining@[0] == orig[rebased@.len() as int]);
        }
        let c = remaining.remove(0);
        rebased.push(rebase_capture(c, offset));
        proof {
            assert(remaining@ =~= orig.subrange(rebased@.len() as int, orig.len() as int));
        }
    }
    ScanResult { location: location + offset, captures: rebased }
}

} // verus!
