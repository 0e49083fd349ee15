//! Chunked matcher: partitions the buffer into contiguous base regions, scans
//! each region's slice — extended by pattern-length-minus-one overlap bytes so
//! boundary-spanning matches stay visible — and merges results in region
//! order. The "find first" merge provably returns exactly what the sequential
//! matcher would on the whole buffer.

use vstd::prelude::*;

use crate::matching::{
    first_match_from, lemma_concat_contains, lemma_first_match_none, lemma_first_match_value,
    lemma_matches_subrange, lemma_scan_all_gap_membership, matches_at, no_overlapping_matches,
    spec_scan_all,
};
use crate::pattern::Pattern;
use crate::scanner::result::rebase_result;
use crate::scanner::simple;
use crate::scanner::simple::locations_of;
use crate::scanner::{captures_model, pattern_matches_at, ScanResult};

verus! {

pub open spec fn min_int(a: int, b: int) -> int {
    if a < b {
        a
    } else {
        b
    }
}

/// The number of base regions a scan uses: the requested count, or one
/// region when none is requested.
pub open spec fn thread_count_of(parallelism: Option<usize>) -> int {
    match parallelism {
        Some(t) => t as int,
        None => 1,
    }
}

/// The offsets the chunked "find all" reports: for each of `chunks_left`
/// regions, starting at `start` and `per` bytes wide (the last absorbs the
/// remainder), every match of the sequential scan over the region's slice
/// (the region plus `bytes.len() - 1` overlap bytes, clamped to the buffer),
/// rebased to buffer-absolute offsets, in region order.
pub open spec fn spec_chunked_scan_all(
    buf: Seq<u8>,
    bytes: Seq<u8>,
    mask: Seq<u8>,
    per: int,
    start: int,
    chunks_left: int,
) -> Seq<int>
    decreases chunks_left,
        when 1 <= bytes.len() && 0 <= start <= buf.len() && 0 <= per
{
    if chunks_left <= 0 {
        Seq::empty()
    } else {
        let base_end = if chunks_left == 1 {
            buf.len() as int
        } else {
            min_int(start + per, buf.len() as int)
        };
        let slice_end = min_int(base_end + bytes.len() - 1, buf.len() as int);
        spec_scan_all(buf.subrange(start, slice_end), bytes, mask, 0).map(
            |i: int, o: int| start + o,
        ) + spec_chunked_scan_all(buf, bytes, mask, per, base_end, chunks_left - 1)
    }
}

/// Chunked "find first": splits the buffer into `parallelism` base regions
/// (one region when `None`), scans each region's overlap-extended slice in
/// region order, and returns the first hit rebased to absolute offsets.
/// The result is exactly the sequential matcher's: the leftmost match of the
/// whole buffer, whatever the region count.
pub fn scan(bytes: &[u8], pattern: &Pattern, parallelism: Option<usize>) -> (r: Option<ScanResult>)
    requires
        pattern.wf(),
        pattern.length >= 1,
        parallelism matches Some(t) ==> t >= 1,
    ensures
        match r {
            Some(res) => {
                &&& pattern_matches_at(bytes@, *pattern, res.location as int)
                &&& forall|q: int| 0 <= q < res.location ==> !pattern_matches_at(bytes@, *pattern, q)
                &&& first_match_from(bytes@, pattern.bytes@, pattern.mask@, 0) == Some(
                    res.location as int,
                )
                &&& captures_model(bytes@, *pattern, res.location as int, res.captures@)
            },
            None => {
                &&& forall|q: int| !pattern_matches_at(bytes@, *pattern, q)
                &&& first_match_from(bytes@, pattern.bytes@, pattern.mask@, 0) is None
            },
        },
{
    let thread_count = match parallelism {
        Some(t) => t,
        None => 1,
    };
    let n = bytes.len();
    let m = pattern.length;
    let overlap = m - 1;
    let per = n / thread_count;
    let mut k: usize = 0;
    let mut start: usize = 0;
    while k < thread_count
        invariant
            pattern.wf(),
            pattern.length >= 1,
            m == pattern.length,
            n == bytes@.len(),
            overlap == m - 1,
            thread_count >= 1,
            k <= thread_count,
            start <= n,
            k == thread_count ==> start == n,
            forall|q: int| 0 <= q < start ==> !pattern_matches_at(bytes@, *pattern, q),
        decreases thread_count - k,
    {
        let base_end = if k == thread_count - 1 {
            n
        } else {
            if per >= n - start {
                n
            } else {
                start + per
            }
        };
        let slice_end = if overlap >= n - base_end {
            n
        } else {
            base_end + overlap
        };
        let chunk = vstd::slice::slice_subrange(bytes, start, slice_end);
        match simple::scan(chunk, pattern) {
            Some(found) => {
                let loc = found.location;
                proof {
                    lemma_matches_subrange(
                        bytes@,
                        pattern.bytes@,
                        pattern.mask@,
                        start as int,
                        slice_end as int,
                        loc as int,
                    );
                    assert forall|q: int| 0 <= q < start + loc implies !pattern_matches_at(
                        bytes@,
                        *pattern,
                        q,
                    ) by {
                        if start <= q && matches_at(bytes@, pattern.bytes@, pattern.mask@, q) {
                            lemma_matches_subrange(
                                bytes@,
                                pattern.bytes@,
                                pattern.mask@,
                                start as int,
                                slice_end as int,
                                q - start,
                            );
                            assert(pattern_matches_at(chunk@, *pattern, q - start));
                        }
                    }
                    lemma_first_match_value(
                        bytes@,
                        pattern.bytes@,
                        pattern.mask@,
                        0,
                        start + loc,
                    );
                }
                let rebased = rebase_result(found, start);
                proof {
                    assert forall|i: int| 0 <= i < rebased.captures@.len() implies (
                    #[trigger] rebased.captures@[i]).location == start + loc
                        + pattern.capture_groups@[i].start && rebased.captures@[i].bytes@
                        == bytes@.subrange(
                        start + loc + pattern.capture_groups@[i].start,
                        start + loc + pattern.capture_groups@[i].end,
                    ) by {
                        let gs = pattern.capture_groups@[i].start as int;
                        let ge = pattern.capture_groups@[i].end as int;
                        assert(chunk@.subrange(loc + gs, loc + ge) =~= bytes@.subrange(
                            start + loc + gs,
                            start + loc + ge,
                        ));
                    }
                }
                return Some(rebased);
            },
            None => {
                proof {
                    assert forall|q: int| 0 <= q < base_end implies !pattern_matches_at(
                        bytes@,
                        *pattern,
                        q,
                    ) by {
                        if start <= q && matches_at(bytes@, pattern.bytes@, pattern.mask@, q) {
                            lemma_matches_subrange(
                                bytes@,
                                pattern.bytes@,
                                pattern.mask@,
                                start as int,
                                slice_end as int,
                                q - start,
                            );
                            assert(pattern_matches_at(chunk@, *pattern, q - start));
                        }
                    }
                }
            },
        }
        start = base_end;
        k = k + 1;
    }
    proof {
        assert forall|q: int| !pattern_matches_at(bytes@, *pattern, q) by {
            if 0 <= q && q + m <= n {
                assert(q < start);
            }
        }
        lemma_first_match_none(bytes@, pattern.bytes@, pattern.mask@, 0);
    }
    None
}

/// Chunked "find all": runs the sequential `scan_all` over every region's
/// overlap-extended slice and concatenates the rebased results in region
/// order.
pub fn scan_all(bytes: &[u8], pattern: &Pattern, parallelism: Option<usize>) -> (r: Vec<ScanResult>)
    requires
        pattern.wf(),
        pattern.length >= 1,
        parallelism matches Some(t) ==> t >= 1,
    ensures
        locations_of(r@) == spec_chunked_scan_all(
            bytes@,
            pattern.bytes@,
            pattern.mask@,
            bytes@.len() as int / thread_count_of(parallelism),
            0,
            thread_count_of(parallelism),
        ),
        forall|i: int|
            0 <= i < r@.len() ==> captures_model(
                bytes@,
                *pattern,
                (#[trigger] r@[i]).location as int,
                r@[i].captures@,
            ),
{
    let thread_count = match parallelism {
        Some(t) => t,
        None => 1,
    };
    let n = bytes.len();
    let m = pattern.length;
    let overlap = m - 1;
    let per = n / thread_count;
    let ghost total = spec_chunked_scan_all(
        bytes@,
        pattern.bytes@,
        pattern.mask@,
        per as int,
        0,
        thread_count as int,
    );
    let mut results: Vec<ScanResult> = Vec::new();
    let mut k: usize = 0;
    let mut start: usize = 0;
    while k < thread_count
        invariant
            pattern.wf(),
            pattern.length >= 1,
            m == pattern.length,
            n == bytes@.len(),
            overlap == m - 1,
            thread_count >= 1,
            per == n as int / thread_count as int,
            k <= thread_count,
            start <= n,
            total == spec_chunked_scan_all(
                bytes@,
                pattern.bytes@,
                pattern.mask@,
                per as int,
                0,
                thread_count as int,
            ),
            total == locations_of(results@) + spec_chunked_scan_all(
                bytes@,
                pattern.bytes@,
                pattern.mask@,
                per as int,
                start as int,
                thread_count - k,
            ),
            forall|i: int|
                0 <= i < results@.len() ==> captures_model(
                    bytes@,
                    *pattern,
                    (#[trigger] results@[i]).location as int,
                    results@[i].captures@,
                ),
        decreases thread_count - k,
    {
        let base_end = if k == thread_count - 1 {
            n
        } else {
            if per >= n - start {
                n
            } else {
                start + per
            }
        };
        let slice_end = if overlap >= n - base_end {
            n
        } else {
            base_end + overlap
        };
        let chunk = vstd::slice::slice_subrange(bytes, start, slice_end);
        let mut found = simple::scan_all(chunk, pattern);
        let total = found.len();
        let ghost orig = found@;
        let ghost shifted = locations_of(orig).map(|i: int, o: int| start as int + o);
        let ghost before = results@;
        proof {
            crate::matching::lemma_scan_all_no_overlap(chunk@, pattern.bytes@, pattern.mask@, 0);
            assert forall|i: int| 0 <= i < orig.len() implies (#[trigger] orig[i]).location + m
                <= slice_end - start by {
                assert(locations_of(orig)[i] == orig[i].location as int);
                assert(matches_at(chunk@, pattern.bytes@, pattern.mask@, orig[i].location as int));
            }
        }
        let mut idx: usize = 0;
        while found.len() > 0
            invariant
                pattern.wf(),
                m == pattern.length,
                n == bytes@.len(),
                start <= slice_end <= n,
                chunk@ == bytes@.subrange(start as int, slice_end as int),
                total == orig.len(),
                idx + found@.len() == orig.len(),
                forall|i: int|
                    0 <= i < before.len() ==> captures_model(
                        bytes@,
                        *pattern,
                        (#[trigger] before[i]).location as int,
                        before[i].captures@,
                    ),
                found@ == orig.subrange(idx as int, orig.len() as int),
                forall|i: int|
                    0 <= i < orig.len() ==> captures_model(
                        chunk@,
                        *pattern,
                        (#[trigger] orig[i]).location as int,
                        orig[i].captures@,
                    ),
                forall|i: int|
                    0 <= i < orig.len() ==> (#[trigger] orig[i]).location + m <= slice_end - start,
                results@.len() == before.len() + idx,
                forall|i: int| 0 <= i < before.len() ==> #[trigger] results@[i] == before[i],
                forall|i: int|
                    0 <= i < idx ==> (#[trigger] results@[before.len() + i]).location == start
                        + orig[i].location && captures_model(
                        bytes@,
                        *pattern,
                        start + orig[i].location,
                        results@[before.len() + i].captures@,
                    ),
            decreases found@.len(),
        {
            proof {
                assert(found@[0] == orig[idx as int]);
            }
            let ghost found_view = found@;
            let one = found.remove(0);
            proof {
                assert(found@ =~= orig.subrange(idx + 1, orig.len() as int));
                assert(one == orig[idx as int]);
            }
            let one_loc = one.location;
            let rebased = rebase_result(one, start);
            proof {
                assert forall|i: int| 0 <= i < rebased.captures@.len() implies (
                #[trigger] rebased.captures@[i]).location == start + one_loc
                    + pattern.capture_groups@[i].start && rebased.captures@[i].bytes@
                    == bytes@.subrange(
                    start + one_loc + pattern.capture_groups@[i].start,
                    start + one_loc + pattern.capture_groups@[i].end,
                ) by {
                    let gs = pattern.capture_groups@[i].start as int;
                    let ge = pattern.capture_groups@[i].end as int;
                    assert(chunk@.subrange(one_loc + gs, one_loc + ge) =~= bytes@.subrange(
                        start + one_loc + gs,
                        start + one_loc + ge,
                    ));
                }
            }
            results.push(rebased);
            idx = idx + 1;
        }
        proof {
            assert forall|i: int| 0 <= i < results@.len() implies captures_model(
                bytes@,
                *pattern,
                (#[trigger] results@[i]).location as int,
                results@[i].captures@,
            ) by {
                if i >= before.len() {
                    let k = i - before.len();
                    assert(results@[before.len() + k].location == start + orig[k].location
                        && captures_model(
                        bytes@,
                        *pattern,
                        start + orig[k].location,
                        results@[before.len() + k].captures@,
                    ));
                    assert(before.len() + k == i);
                } else {
                    assert(results@[i] == before[i]);
                }
            }
            assert(shifted.len() == orig.len());
            assert forall|i: int| 0 <= i < results@.len() implies locations_of(results@)[i] == (
            locations_of(before) + shifted)[i] by {
                assert(locations_of(results@)[i] == results@[i].location as int);
                if i < before.len() {
                    assert(results@[i] == before[i]);
                    assert((locations_of(before) + shifted)[i] == locations_of(before)[i]);
                    assert(locations_of(before)[i] == before[i].location as int);
                } else {
                    let k = i - before.len();
                    assert(results@[before.len() + k].location == start + orig[k].location
                        && captures_model(
                        bytes@,
                        *pattern,
                        start + orig[k].location,
                        results@[before.len() + k].captures@,
                    ));
                    assert((locations_of(before) + shifted)[i] == shifted[k]);
                    assert(shifted[k] == start as int + locations_of(orig)[k]);
                    assert(locations_of(orig)[k] == orig[k].location as int);
                }
            }
            assert(locations_of(results@) =~= locations_of(before) + shifted);
            let ghost tail = spec_chunked_scan_all(
                bytes@,
                pattern.bytes@,
                pattern.mask@,
                per as int,
                base_end as int,
                thread_count - k - 1,
            );
            assert(spec_chunked_scan_all(
                bytes@,
                pattern.bytes@,
                pattern.mask@,
                per as int,
                start as int,
                thread_count - k,
            ) == shifted + tail);
            assert((locations_of(before) + shifted) + tail =~= locations_of(before) + (shifted
                + tail));
        }
        start = base_end;
        k = k + 1;
    }
    proof {
        assert(locations_of(results@) + Seq::<int>::empty() =~= locations_of(results@));
    }
    results
}


/// One region's contribution to the chunked "find all" is exactly the set
/// of matches starting inside the regions from `start` on, provided no two
/// matches overlap.
proof fn lemma_chunked_gap_membership(
    buf: Seq<u8>,
    bytes: Seq<u8>,
    mask: Seq<u8>,
    per: int,
    start: int,
    chunks_left: int,
)
    requires
        1 <= bytes.len(),
        0 <= per,
        0 <= start <= buf.len(),
        1 <= chunks_left,
        no_overlapping_matches(buf, bytes, mask),
    ensures
        forall|o: int|
            #[trigger] spec_chunked_scan_all(buf, bytes, mask, per, start, chunks_left).contains(o)
                <==> (start <= o && matches_at(buf, bytes, mask, o)),
    decreases chunks_left,
{
    let len = buf.len() as int;
    let m = bytes.len() as int;
    let base_end = if chunks_left == 1 {
        len
    } else {
        min_int(start + per, len)
    };
    let slice_end = min_int(base_end + m - 1, len);
    let slice = buf.subrange(start, slice_end);
    assert forall|p: int, q: int|
        matches_at(slice, bytes, mask, p) && matches_at(slice, bytes, mask, q) && p
            < q implies p + bytes.len() <= q by {
        lemma_matches_subrange(buf, bytes, mask, start, slice_end, p);
        lemma_matches_subrange(buf, bytes, mask, start, slice_end, q);
    }
    lemma_scan_all_gap_membership(slice, bytes, mask, 0);
    let local = spec_scan_all(slice, bytes, mask, 0);
    let shifted = local.map(|i: int, o: int| start + o);
    let rest = spec_chunked_scan_all(buf, bytes, mask, per, base_end, chunks_left - 1);
    assert(spec_chunked_scan_all(buf, bytes, mask, per, start, chunks_left) == shifted + rest);
    assert forall|o: int| #[trigger] shifted.contains(o) <==> local.contains(o - start) by {
        if shifted.contains(o) {
            let k = choose|k: int| 0 <= k < shifted.len() && shifted[k] == o;
            assert(local[k] == o - start);
            assert(local.contains(o - start));
        }
        if local.contains(o - start) {
            let k = choose|k: int| 0 <= k < local.len() && local[k] == o - start;
            assert(shifted[k] == o);
            assert(shifted.contains(o));
        }
    }
    if chunks_left > 1 {
        lemma_chunked_gap_membership(buf, bytes, mask, per, base_end, chunks_left - 1);
    }
    assert forall|o: int|
        #[trigger] spec_chunked_scan_all(buf, bytes, mask, per, start, chunks_left).contains(o)
            <==> (start <= o && matches_at(buf, bytes, mask, o)) by {
        lemma_concat_contains(shifted, rest, o);
        lemma_matches_subrange(buf, bytes, mask, start, slice_end, o - start);
        if shifted.contains(o) {
            assert(matches_at(slice, bytes, mask, o - start));
        }
        if start <= o && matches_at(buf, bytes, mask, o) {
            if o < base_end {
                assert(o + m <= slice_end);
                assert(matches_at(slice, bytes, mask, o - start));
                assert(local.contains(o - start));
            } else {
                assert(chunks_left > 1) by {
                    if chunks_left == 1 {
                        assert(o < len);
                    }
                }
                assert(rest.contains(o));
            }
        }
    }
}

/// When no two matches of the pattern overlap anywhere in the buffer, the
/// chunked "find all" reports exactly the offsets the sequential scan
/// reports, whatever the region count.
pub proof fn lemma_chunked_scan_all_equivalent(
    buf: Seq<u8>,
    bytes: Seq<u8>,
    mask: Seq<u8>,
    chunks: int,
)
    requires
        1 <= bytes.len(),
        1 <= chunks,
        no_overlapping_matches(buf, bytes, mask),
    ensures
        forall|o: int|
            #[trigger] spec_chunked_scan_all(
                buf,
                bytes,
                mask,
                buf.len() as int / chunks,
                0,
                chunks,
            ).contains(o) <==> spec_scan_all(buf, bytes, mask, 0).contains(o),
{
    lemma_scan_all_gap_membership(buf, bytes, mask, 0);
    lemma_chunked_gap_membership(buf, bytes, mask, buf.len() as int / chunks, 0, chunks);
}
} // verus!
