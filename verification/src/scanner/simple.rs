//! Sequential matcher: finds the leftmost occurrence of a pattern in one
//! contiguous byte slice, or every occurrence in turn.

use vstd::prelude::*;

use crate::matching::{
    byte_matches, first_match_from, lemma_first_match_none, lemma_first_match_value,
    lemma_matches_subrange, matches_at, spec_scan_all,
};
use crate::pattern::Pattern;
use crate::scanner::result::{grab_captures, rebase_result};
use crate::scanner::{captures_model, pattern_matches_at, ScanResult};

verus! {

/// The locations of a sequence of results, as mathematical integers.
pub open spec fn locations_of(rs: Seq<ScanResult>) -> Seq<int> {
    rs.map(|i: int, r: ScanResult| r.location as int)
}

/// Whether the whole pattern matches `bytes` at offset `o`.
fn match_at(bytes: &[u8], pattern: &Pattern, o: usize) -> (r: bool)
    requires
        pattern.wf(),
        o + pattern.length <= bytes@.len(),
    ensures
        r == matches_at(bytes@, pattern.bytes@, pattern.mask@, o as int),
{
    let m = pattern.length;
    let n = bytes.len();
    let mut i: usize = 0;
    while i < m
        invariant
            pattern.wf(),
            m == pattern.length,
            i <= m,
            n == bytes@.len(),
            o + m <= n,
            forall|j: int|
                0 <= j < i ==> byte_matches(
                    bytes@[o + j],
                    #[trigger] pattern.bytes@[j],
                    pattern.mask@[j],
                ),
        decreases m - i,
    {
        if (bytes[o + i] & pattern.mask[i]) != (pattern.bytes[i] & pattern.mask[i]) {
            proof {
                assert(!byte_matches(bytes@[o + i], pattern.bytes@[i as int], pattern.mask@[i as int]));
            }
            return false;
        }
        i = i + 1;
    }
    true
}

/// Collects the capture groups of a match at offset `o` and rebases them to
/// buffer-absolute locations.
fn collect_match(bytes: &[u8], pattern: &Pattern, o: usize) -> (r: ScanResult)
    requires
        pattern.wf(),
        o + pattern.length <= bytes@.len(),
    ensures
        r.location == o,
        captures_model(bytes@, *pattern, o as int, r.captures@),
{
    let m = pattern.length;
    let n = bytes.len();
    let window = vstd::slice::slice_subrange(bytes, o, o + m);
    let caps = grab_captures(window, pattern.capture_groups.as_slice());
    let res = rebase_result(ScanResult { location: 0, captures: caps }, o);
    proof {
        assert forall|i: int| 0 <= i < res.captures@.len() implies (#[trigger] res.captures@[i]).location
            == o + pattern.capture_groups@[i].start && res.captures@[i].bytes@ == bytes@.subrange(
            o + pattern.capture_groups@[i].start,
            o + pattern.capture_groups@[i].end,
        ) by {
            let gs = pattern.capture_groups@[i].start as int;
            let ge = pattern.capture_groups@[i].end as int;
            assert(window@.subrange(gs, ge) =~= bytes@.subrange(o + gs, o + ge));
        }
    }
    res
}

/// Returns the leftmost occurrence of `pattern` in `bytes`, with its
/// captures, or `None` when no offset matches at all.
pub fn scan(bytes: &[u8], pattern: &Pattern) -> (r: Option<ScanResult>)
    requires
        pattern.wf(),
        pattern.length >= 1,
    ensures
        match r {
            Some(res) => {
                &&& pattern_matches_at(bytes@, *pattern, res.location as int)
                &&& forall|q: int| 0 <= q < res.location ==> !pattern_matches_at(bytes@, *pattern, q)
                &&& first_match_from(bytes@, pattern.bytes@, pattern.mask@, 0) == Some(
                    res.location as int,
                )
                &&& captures_model(bytes@, *pattern, res.location as int, res.captures@)
            },
            None => {
                &&& forall|q: int| !pattern_matches_at(bytes@, *pattern, q)
                &&& first_match_from(bytes@, pattern.bytes@, pattern.mask@, 0) is None
            },
        },
{
    let n = bytes.len();
    let m = pattern.length;
    if m > n {
        proof {
            lemma_first_match_none(bytes@, pattern.bytes@, pattern.mask@, 0);
        }
        return None;
    }
    let mut o: usize = 0;
    while o <= n - m
        invariant
            pattern.wf(),
            pattern.length >= 1,
            m == pattern.length,
            n == bytes@.len(),
            m <= n,
            o <= n - m + 1,
            forall|q: int| 0 <= q < o ==> !pattern_matches_at(bytes@, *pattern, q),
        decreases n - o,
    {
        if match_at(bytes, pattern, o) {
            let res = collect_match(bytes, pattern, o);
            proof {
                lemma_first_match_value(bytes@, pattern.bytes@, pattern.mask@, 0, o as int);
            }
            return Some(res);
        }
        o = o + 1;
    }
    proof {
        assert forall|q: int| !pattern_matches_at(bytes@, *pattern, q) by {
            if 0 <= q && q + m <= n {
                assert(q < o);
            }
        }
        lemma_first_match_none(bytes@, pattern.bytes@, pattern.mask@, 0);
    }
    None
}

/// Finds every occurrence of `pattern` in `bytes`, resuming each search
/// immediately after the end of the previous match, so reported matches
/// never overlap.
pub fn scan_all(bytes: &[u8], pattern: &Pattern) -> (r: Vec<ScanResult>)
    requires
        pattern.wf(),
        pattern.length >= 1,
    ensures
        locations_of(r@) == spec_scan_all(bytes@, pattern.bytes@, pattern.mask@, 0),
        forall|i: int|
            0 <= i < r@.len() ==> captures_model(
                bytes@,
                *pattern,
                (#[trigger] r@[i]).location as int,
                r@[i].captures@,
            ),
{
    let n = bytes.len();
    let m = pattern.length;
    let mut results: Vec<ScanResult> = Vec::new();
    let mut current: usize = 0;
    loop
        invariant
            pattern.wf(),
            pattern.length >= 1,
            m == pattern.length,
            n == bytes@.len(),
            current <= n,
            spec_scan_all(bytes@, pattern.bytes@, pattern.mask@, 0) == locations_of(results@)
                + spec_scan_all(bytes@, pattern.bytes@, pattern.mask@, current as int),
            forall|i: int|
                0 <= i < results@.len() ==> captures_model(
                    bytes@,
                    *pattern,
                    (#[trigger] results@[i]).location as int,
                    results@[i].captures@,
                ),
        ensures
            locations_of(results@) == spec_scan_all(bytes@, pattern.bytes@, pattern.mask@, 0),
            forall|i: int|
                0 <= i < results@.len() ==> captures_model(
                    bytes@,
                    *pattern,
                    (#[trigger] results@[i]).location as int,
                    results@[i].captures@,
                ),
        decreases n - current,
    {
        let suffix = vstd::slice::slice_subrange(bytes, current, n);
        match scan(suffix, pattern) {
            Some(found) => {
                let loc = found.location;
                proof {
                    lemma_matches_subrange(
                        bytes@,
                        pattern.bytes@,
                        pattern.mask@,
                        current as int,
                        n as int,
                        loc as int,
                    );
                    assert forall|q: int| current <= q < current + loc implies !matches_at(
                        bytes@,
                        pattern.bytes@,
                        pattern.mask@,
                        q,
                    ) by {
                        lemma_matches_subrange(
                            bytes@,
                            pattern.bytes@,
                            pattern.mask@,
                            current as int,
                            n as int,
                            q - current,
                        );
                        assert(!pattern_matches_at(suffix@, *pattern, q - current));
                    }
                    lemma_first_match_value(
                        bytes@,
                        pattern.bytes@,
                        pattern.mask@,
                        current as int,
                        current + loc,
                    );
                }
                let rebased = rebase_result(found, current);
                proof {
                    let ghost cl = current + loc;
                    let ghost rest = spec_scan_all(
                        bytes@,
                        pattern.bytes@,
                        pattern.mask@,
                        cl + m,
                    );
                    assert(spec_scan_all(bytes@, pattern.bytes@, pattern.mask@, current as int)
                        == seq![cl] + rest);
                    assert(locations_of(results@.push(rebased)) =~= locations_of(results@)
                        + seq![cl]);
                    assert((locations_of(results@) + seq![cl]) + rest =~= locations_of(results@)
                        + (seq![cl] + rest));
                    assert forall|i: int| 0 <= i < rebased.captures@.len() implies (
                    #[trigger] rebased.captures@[i]).location == cl
                        + pattern.capture_groups@[i].start && rebased.captures@[i].bytes@
                        == bytes@.subrange(
                        cl + pattern.capture_groups@[i].start,
                        cl + pattern.capture_groups@[i].end,
                    ) by {
                        let gs = pattern.capture_groups@[i].start as int;
                        let ge = pattern.capture_groups@[i].end as int;
                        assert(suffix@.subrange(loc + gs, loc + ge) =~= bytes@.subrange(
                            cl + gs,
                            cl + ge,
                        ));
                    }
                    assert forall|i: int| 0 <= i < results@.push(rebased).len() implies captures_model(
                        bytes@,
                        *pattern,
                        (#[trigger] results@.push(rebased)[i]).location as int,
                        results@.push(rebased)[i].captures@,
                    ) by {
                        if i < results@.len() {
                            assert(results@.push(rebased)[i] == results@[i]);
                        } else {
                            assert(results@.push(rebased)[i] == rebased);
                        }
                    }
                }
                results.push(rebased);
                current = current + loc + m;
            },
            None => {
                proof {
                    assert forall|q: int| current <= q implies !matches_at(
                        bytes@,
                        pattern.bytes@,
                        pattern.mask@,
                        q,
                    ) by {
                        if matches_at(bytes@, pattern.bytes@, pattern.mask@, q) {
                            lemma_matches_subrange(
                                bytes@,
                                pattern.bytes@,
                                pattern.mask@,
                                current as int,
                                n as int,
                                q - current,
                            );
                            assert(pattern_matches_at(suffix@, *pattern, q - current));
                        }
                    }
                    lemma_first_match_none(
                        bytes@,
                        pattern.bytes@,
                        pattern.mask@,
                        current as int,
                    );
                    assert(locations_of(results@) + Seq::<int>::empty() =~= locations_of(
                        results@,
                    ));
                }
                break;
            },
        }
    }
    results
}

} // verus!
