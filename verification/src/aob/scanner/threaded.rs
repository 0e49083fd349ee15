//! Chunked AOB matcher: the core chunked engine applied to AOB patterns.

use vstd::prelude::*;

use crate::aob::pattern::{bool_mask, same_shape, Pattern};
use crate::aob::scanner::simple::{
    collect_found, group_result_models, lemma_flag_indices, lemma_flag_indices_found,
    newly_found, newly_found_indices, sweep, sweep_final,
};
use crate::aob::scanner::{aob_captures_model, aob_matches_at, ScanResult};
use crate::matching::{
    all_matches_from, first_match_from, lemma_first_match_from, lemma_matches_subrange, matches_at,
};
use crate::scanner::threaded::min_int;

verus! {

/// The chunked scanner: splits the buffer into as many base regions as
/// `thread_count` and merges per-region results in region order.
pub struct ThreadedScanner {
    pub thread_count: usize,
}

impl ThreadedScanner {
    pub fn new_with_thread_count(thread_count: usize) -> (r: Self)
        ensures
            r.thread_count == thread_count,
    {
        Self { thread_count }
    }

    /// Chunked "find first": provably the same result as the sequential
    /// scanner on the whole buffer, whatever the region count.
    pub fn scan(&self, scannable: &[u8], pattern: &Pattern) -> (r: Option<ScanResult>)
        requires
            pattern.wf(),
            pattern.length >= 1,
            self.thread_count >= 1,
        ensures
            match r {
                Some(res) => {
                    &&& aob_matches_at(scannable@, *pattern, res.location as int)
                    &&& forall|q: int|
                        0 <= q < res.location ==> !aob_matches_at(scannable@, *pattern, q)
                    &&& first_match_from(scannable@, pattern.bytes@, bool_mask(pattern.mask@), 0)
                        == Some(res.location as int)
                    &&& aob_captures_model(scannable@, *pattern, res.location as int, res.captures@)
                },
                None => {
                    &&& forall|q: int| !aob_matches_at(scannable@, *pattern, q)
                    &&& first_match_from(scannable@, pattern.bytes@, bool_mask(pattern.mask@), 0)
                        is None
                },
            },
    {
        let engine = crate::aob::scanner::simple::engine_pattern(pattern);
        match crate::scanner::threaded::scan(scannable, &engine, Some(self.thread_count)) {
            Some(res) => {
                proof {
                    assert forall|q: int| 0 <= q < res.location implies !aob_matches_at(
                        scannable@,
                        *pattern,
                        q,
                    ) by {
                        assert(!crate::scanner::pattern_matches_at(scannable@, engine, q));
                    }
                }
                Some(crate::aob::scanner::simple::convert_result(res))
            },
            None => {
                proof {
                    assert forall|q: int| !aob_matches_at(scannable@, *pattern, q) by {
                        assert(!crate::scanner::pattern_matches_at(scannable@, engine, q));
                    }
                }
                None
            },
        }
    }
}


/// The relation between an input pattern and its working copy once the
/// chunked group scan has examined every match that ends at or before
/// `visible`: the copy carries the pattern's global leftmost offset exactly
/// when that whole match is already visible.
pub open spec fn chunk_state(old_p: Pattern, cur: Pattern, buf: Seq<u8>, visible: int) -> bool {
    &&& same_shape(cur, old_p)
    &&& match old_p.offset {
        Some(_) => cur.offset == old_p.offset,
        None => match first_match_from(buf, old_p.bytes@, bool_mask(old_p.mask@), 0) {
            Some(o) => if o + old_p.length <= visible {
                cur.offset == Some(o as usize)
            } else {
                cur.offset is None
            },
            None => cur.offset is None,
        },
    }
}

impl ThreadedScanner {
    /// Chunked group scan: sweeps every base region's overlap-extended slice
    /// (the overlap uses the longest pattern in the group) and merges the
    /// per-region findings. The result maps every pattern that occurs to its
    /// global leftmost offset, exactly as the sequential group sweep would.
    pub fn group_scan(&self, scannable: &[u8], patterns: &Vec<Pattern>) -> (r: Vec<Pattern>)
        requires
            patterns@.len() >= 1,
            forall|i: int|
                0 <= i < patterns@.len() ==> (#[trigger] patterns@[i]).wf() && patterns@[i].length
                    >= 1,
            self.thread_count >= 1,
        ensures
            group_result_models(scannable@, patterns@, r@, 0),
    {
        let ghost buf = scannable@;
        let n = scannable.len();
        let count = patterns.len();
        let thread_count = self.thread_count;

        // Working copies that the sweeps fill in, and the accumulated flags.
        let mut working: Vec<Pattern> = Vec::new();
        let mut overall: Vec<bool> = Vec::new();
        let mut c: usize = 0;
        while c < count
            invariant
                c <= count,
                count == patterns@.len(),
                working@.len() == c,
                overall@.len() == c,
                forall|i: int|
                    0 <= i < c ==> same_shape(#[trigger] working@[i], patterns@[i])
                        && working@[i].offset == patterns@[i].offset,
                forall|i: int| 0 <= i < c ==> overall@[i] == false,
            decreases count - c,
        {
            working.push(patterns[c].duplicate());
            overall.push(false);
            c = c + 1;
        }

        // The longest pattern in the group governs the overlap size.
        let mut maxlen = patterns[0].length;
        let mut t: usize = 1;
        while t < count
            invariant
                1 <= t <= count,
                count == patterns@.len(),
                maxlen >= 1,
                forall|i: int|
                    0 <= i < count ==> (#[trigger] patterns@[i]).wf() && patterns@[i].length >= 1,
                forall|i: int| 0 <= i < t ==> (#[trigger] patterns@[i]).length <= maxlen,
            decreases count - t,
        {
            if patterns[t].length > maxlen {
                maxlen = patterns[t].length;
            }
            t = t + 1;
        }

        proof {
            assert forall|i: int| 0 <= i < count implies chunk_state(
                patterns@[i],
                #[trigger] working@[i],
                buf,
                0,
            ) by {
                lemma_first_match_from(buf, patterns@[i].bytes@, bool_mask(patterns@[i].mask@), 0);
            }
        }
        let overlap = maxlen - 1;
        let per = n / thread_count;
        let mut k: usize = 0;
        let mut start: usize = 0;
        let ghost mut visible: int = 0;
        while k < thread_count
            invariant
                buf == scannable@,
                n == scannable@.len(),
                count == patterns@.len(),
                thread_count >= 1,
                k <= thread_count,
                start <= n,
                maxlen >= 1,
                overlap == maxlen - 1,
                forall|i: int|
                    0 <= i < count ==> (#[trigger] patterns@[i]).wf() && patterns@[i].length >= 1
                        && patterns@[i].length <= maxlen,
                0 <= visible <= n,
                k == thread_count ==> visible == n,
                k < thread_count ==> (if k == 0 {
                    start == 0 && visible == 0
                } else {
                    visible == min_int(start + maxlen - 1, n as int)
                }),
                working@.len() == count,
                overall@.len() == count,
                forall|i: int|
                    0 <= i < count ==> chunk_state(patterns@[i], #[trigger] working@[i], buf, visible),
                forall|i: int|
                    0 <= i < count ==> overall@[i] == (patterns@[i].offset is None
                        && (#[trigger] working@[i]).offset is Some),
            decreases thread_count - k,
        {
            let base_end = if k == thread_count - 1 {
                n
            } else {
                if per >= n - start {
                    n
                } else {
                    start + per
                }
            };
            let slice_end = if overlap >= n - base_end {
                n
            } else {
                base_end + overlap
            };
            let chunk = vstd::slice::slice_subrange(scannable, start, slice_end);
            let ghost working_before = working@;
            proof {
                assert forall|i: int| 0 <= i < count implies (#[trigger] working@[i]).wf()
                    && working@[i].length >= 1 by {
                    assert(same_shape(working@[i], patterns@[i]));
                }
            }
            let chunk_flags = sweep(chunk, &mut working, start);
            proof {
                assert forall|i: int| 0 <= i < count implies chunk_state(
                    patterns@[i],
                    #[trigger] working@[i],
                    buf,
                    slice_end as int,
                ) by {
                    let op = patterns@[i];
                    let m = op.length as int;
                    let pb = op.bytes@;
                    let bm = bool_mask(op.mask@);
                    assert(sweep_final(working_before[i], working@[i], chunk_flags@[i], chunk@, start as int));
                    assert(chunk_state(op, working_before[i], buf, visible));
                    lemma_first_match_from(buf, pb, bm, 0);
                    lemma_first_match_from(chunk@, pb, bm, 0);
                    if op.offset is None {
                        match first_match_from(buf, pb, bm, 0) {
                            Some(o) => {
                                if o + m <= visible {
                                    // Already found by an earlier chunk.
                                    assert(visible <= slice_end as int);
                                } else {
                                    // Not yet visible: the global first match
                                    // starts at or after this chunk's base.
                                    assert(matches_at(buf, pb, bm, o));
                                    assert(o + m <= n);
                                    assert(o >= start);
                                    assert(working_before[i].offset is None);
                                    match first_match_from(chunk@, pb, bm, 0) {
                                        Some(lo) => {
                                            assert(matches_at(chunk@, pb, bm, lo));
                                            lemma_matches_subrange(buf, pb, bm, start as int, slice_end as int, lo);
                                            assert(matches_at(buf, pb, bm, start + lo));
                                            assert(o <= start + lo);
                                            assert(o + m <= slice_end as int);
                                            lemma_matches_subrange(buf, pb, bm, start as int, slice_end as int, o - start);
                                            assert(matches_at(chunk@, pb, bm, o - start));
                                            assert(lo <= o - start);
                                            assert(start + lo == o);
                                            assert(working@[i].offset == Some(((start + lo)) as usize));
                                        },
                                        None => {
                                            if o + m <= slice_end as int {
                                                lemma_matches_subrange(buf, pb, bm, start as int, slice_end as int, o - start);
                                                assert(matches_at(chunk@, pb, bm, o - start));
                                                assert(false);
                                            }
                                        },
                                    }
                                }
                            },
                            None => {
                                match first_match_from(chunk@, pb, bm, 0) {
                                    Some(lo) => {
                                        lemma_matches_subrange(buf, pb, bm, start as int, slice_end as int, lo);
                                        assert(false);
                                    },
                                    None => {},
                                }
                            },
                        }
                    }
                }
            }
            // Merge this chunk's findings into the accumulated flags.
            let mut u: usize = 0;
            while u < count
                invariant
                    u <= count,
                    count == patterns@.len(),
                    working@.len() == count,
                    working_before.len() == count,
                    chunk_flags@.len() == count,
                    overall@.len() == count,
                    chunk@ == buf.subrange(start as int, slice_end as int),
                    forall|i: int|
                        0 <= i < count ==> sweep_final(
                            working_before[i],
                            #[trigger] working@[i],
                            chunk_flags@[i],
                            chunk@,
                            start as int,
                        ),
                    forall|i: int|
                        u <= i < count ==> overall@[i] == (patterns@[i].offset is None
                            && (#[trigger] working_before[i]).offset is Some),
                    forall|i: int|
                        0 <= i < u ==> overall@[i] == (patterns@[i].offset is None
                            && (#[trigger] working@[i]).offset is Some),
                    forall|i: int|
                        0 <= i < count ==> (#[trigger] working_before[i]).offset == patterns@[i].offset
                            || working_before[i].offset is Some || working@[i].offset == working_before[i].offset,
                decreases count - u,
            {
                proof {
                    assert(sweep_final(working_before[u as int], working@[u as int], chunk_flags@[u as int], chunk@, start as int));
                }
                if chunk_flags[u] {
                    overall[u] = true;
                }
                u = u + 1;
            }
            start = base_end;
            proof {
                visible = slice_end as int;
            }
            k = k + 1;
        }
        proof {
            assert forall|i: int| 0 <= i < count implies overall@[i] == newly_found(
                buf,
                #[trigger] patterns@[i],
            ) by {
                let op = patterns@[i];
                let pb = op.bytes@;
                let bm = bool_mask(op.mask@);
                lemma_first_match_from(buf, pb, bm, 0);
                assert(chunk_state(op, working@[i], buf, visible));
                match first_match_from(buf, pb, bm, 0) {
                    Some(o) => {
                        assert(matches_at(buf, pb, bm, o));
                        assert(o + op.length <= n);
                    },
                    None => {},
                }
            }
            lemma_flag_indices_found(buf, patterns@, overall@, count as int);
            lemma_flag_indices(overall@, count as int);
        }
        let r = collect_found(&working, &overall);
        proof {
            let idxs = newly_found_indices(buf, patterns@, count as int);
            assert forall|j: int| 0 <= j < idxs.len() implies same_shape(#[trigger] r@[j], patterns@[idxs[j]])
                && r@[j].offset == Some(
                (first_match_from(buf, patterns@[idxs[j]].bytes@, bool_mask(patterns@[idxs[j]].mask@), 0)->0)
                    as usize,
            ) by {
                let i = idxs[j];
                assert(same_shape(r@[j], working@[i]) && r@[j].offset == working@[i].offset);
                assert(chunk_state(patterns@[i], working@[i], buf, visible));
                assert(overall@[i] == newly_found(buf, patterns@[i]));
                let pb = patterns@[i].bytes@;
                let bm = bool_mask(patterns@[i].mask@);
                lemma_first_match_from(buf, pb, bm, 0);
                match first_match_from(buf, pb, bm, 0) {
                    Some(o) => {
                        assert(matches_at(buf, pb, bm, o));
                    },
                    None => {},
                }
            }
        }
        r
    }
}

/// The offsets the chunked exhaustive scan reports: every occurrence inside
/// each region's overlap-extended slice, rebased, in region order. A match
/// that starts inside a region's overlap tail is reported by that region
/// and again by the next one.
pub open spec fn spec_chunked_all_matches(
    buf: Seq<u8>,
    bytes: Seq<u8>,
    mask: Seq<u8>,
    per: int,
    start: int,
    chunks_left: int,
) -> Seq<int>
    decreases chunks_left,
        when 1 <= bytes.len() && 0 <= start <= buf.len() && 0 <= per
{
    if chunks_left <= 0 {
        Seq::empty()
    } else {
        let base_end = if chunks_left == 1 {
            buf.len() as int
        } else {
            min_int(start + per, buf.len() as int)
        };
        let slice_end = min_int(base_end + bytes.len() - 1, buf.len() as int);
        all_matches_from(buf.subrange(start, slice_end), bytes, mask, 0).map(
            |i: int, o: int| start + o,
        ) + spec_chunked_all_matches(buf, bytes, mask, per, base_end, chunks_left - 1)
    }
}

impl ThreadedScanner {
    /// Chunked exhaustive scan: every region's overlap-extended slice is
    /// searched for all (overlapping) occurrences, and the rebased results
    /// are concatenated in region order.
    pub fn scan_multiple(&self, scannable: &[u8], pattern: &Pattern) -> (r: Vec<ScanResult>)
        requires
            pattern.wf(),
            pattern.length >= 1,
            self.thread_count >= 1,
        ensures
            crate::aob::scanner::aob_locations_of(r@) == spec_chunked_all_matches(
                scannable@,
                pattern.bytes@,
                bool_mask(pattern.mask@),
                scannable@.len() as int / self.thread_count as int,
                0,
                self.thread_count as int,
            ),
            forall|i: int|
                0 <= i < r@.len() ==> aob_captures_model(
                    scannable@,
                    *pattern,
                    (#[trigger] r@[i]).location as int,
                    r@[i].captures@,
                ),
    {
        let ghost buf = scannable@;
        let ghost pb = pattern.bytes@;
        let ghost bm = bool_mask(pattern.mask@);
        let thread_count = self.thread_count;
        let n = scannable.len();
        let m = pattern.length;
        let overlap = m - 1;
        let per = n / thread_count;
        let ghost total = spec_chunked_all_matches(buf, pb, bm, per as int, 0, thread_count as int);
        let worker = crate::aob::scanner::simple::SimpleScanner::new();
        let mut results: Vec<ScanResult> = Vec::new();
        let mut k: usize = 0;
        let mut start: usize = 0;
        while k < thread_count
            invariant
                buf == scannable@,
                pb == pattern.bytes@,
                bm == bool_mask(pattern.mask@),
                pattern.wf(),
                pattern.length >= 1,
                m == pattern.length,
                n == scannable@.len(),
                overlap == m - 1,
                thread_count >= 1,
                per == n as int / thread_count as int,
                k <= thread_count,
                start <= n,
                total == spec_chunked_all_matches(buf, pb, bm, per as int, 0, thread_count as int),
                total == crate::aob::scanner::aob_locations_of(results@) + spec_chunked_all_matches(
                    buf,
                    pb,
                    bm,
                    per as int,
                    start as int,
                    thread_count - k,
                ),
                forall|i: int|
                    0 <= i < results@.len() ==> aob_captures_model(
                        buf,
                        *pattern,
                        (#[trigger] results@[i]).location as int,
                        results@[i].captures@,
                    ),
            decreases thread_count - k,
        {
            let base_end = if k == thread_count - 1 {
                n
            } else {
                if per >= n - start {
                    n
                } else {
                    start + per
                }
            };
            let slice_end = if overlap >= n - base_end {
                n
            } else {
                base_end + overlap
            };
            let chunk = vstd::slice::slice_subrange(scannable, start, slice_end);
            let mut found = worker.scan_multiple(chunk, pattern);
            let total_found = found.len();
            let ghost orig = found@;
            let ghost shifted = crate::aob::scanner::aob_locations_of(orig).map(
                |i: int, o: int| start as int + o,
            );
            let ghost before = results@;
            proof {
                crate::matching::lemma_all_matches_from(chunk@, pb, bm, 0);
                assert forall|i: int| 0 <= i < orig.len() implies (#[trigger] orig[i]).location + m
                    <= slice_end - start by {
                    assert(crate::aob::scanner::aob_locations_of(orig)[i] == orig[i].location as int);
                    assert(all_matches_from(chunk@, pb, bm, 0).contains(all_matches_from(
                        chunk@,
                        pb,
                        bm,
                        0,
                    )[i]));
                    assert(matches_at(chunk@, pb, bm, orig[i].location as int));
                }
            }
            let mut idx: usize = 0;
            while found.len() > 0
                invariant
                    buf == scannable@,
                    pattern.wf(),
                    m == pattern.length,
                    n == scannable@.len(),
                    start <= slice_end <= n,
                    chunk@ == buf.subrange(start as int, slice_end as int),
                    total_found == orig.len(),
                    idx + found@.len() == orig.len(),
                    found@ == orig.subrange(idx as int, orig.len() as int),
                    forall|i: int|
                        0 <= i < orig.len() ==> aob_captures_model(
                            chunk@,
                            *pattern,
                            (#[trigger] orig[i]).location as int,
                            orig[i].captures@,
                        ),
                    forall|i: int|
                        0 <= i < orig.len() ==> (#[trigger] orig[i]).location + m <= slice_end
                            - start,
                    results@.len() == before.len() + idx,
                    forall|i: int| 0 <= i < before.len() ==> #[trigger] results@[i] == before[i],
                    forall|i: int|
                        0 <= i < idx ==> (#[trigger] results@[before.len() + i]).location == start
                            + orig[i].location && aob_captures_model(
                            buf,
                            *pattern,
                            start + orig[i].location,
                            results@[before.len() + i].captures@,
                        ),
                decreases found@.len(),
            {
                proof {
                    assert(found@[0] == orig[idx as int]);
                }
                let one = found.remove(0);
                proof {
                    assert(found@ =~= orig.subrange(idx + 1, orig.len() as int));
                    assert(one == orig[idx as int]);
                }
                let one_loc = one.location;
                let absolute = ScanResult { location: start + one_loc, captures: one.captures };
                proof {
                    assert forall|i: int| 0 <= i < absolute.captures@.len() implies (
                    #[trigger] absolute.captures@[i])@ == buf.subrange(
                        start + one_loc + pattern.capture_groups@[i].start,
                        start + one_loc + pattern.capture_groups@[i].end,
                    ) by {
                        let gs = pattern.capture_groups@[i].start as int;
                        let ge = pattern.capture_groups@[i].end as int;
                        assert(chunk@.subrange(one_loc + gs, one_loc + ge) =~= buf.subrange(
                            start + one_loc + gs,
                            start + one_loc + ge,
                        ));
                    }
                }
                results.push(absolute);
                idx = idx + 1;
            }
            proof {
                assert(shifted.len() == orig.len());
                assert forall|i: int| 0 <= i < results@.len() implies crate::aob::scanner::aob_locations_of(
                    results@,
                )[i] == (crate::aob::scanner::aob_locations_of(before) + shifted)[i] by {
                    assert(crate::aob::scanner::aob_locations_of(results@)[i] == results@[i].location as int);
                    if i < before.len() {
                        assert(results@[i] == before[i]);
                        assert((crate::aob::scanner::aob_locations_of(before) + shifted)[i]
                            == crate::aob::scanner::aob_locations_of(before)[i]);
                        assert(crate::aob::scanner::aob_locations_of(before)[i] == before[i].location as int);
                    } else {
                        let j = i - before.len();
                        assert(results@[before.len() + j].location == start + orig[j].location
                            && aob_captures_model(
                            buf,
                            *pattern,
                            start + orig[j].location,
                            results@[before.len() + j].captures@,
                        ));
                        assert((crate::aob::scanner::aob_locations_of(before) + shifted)[i]
                            == shifted[j]);
                        assert(shifted[j] == start as int + crate::aob::scanner::aob_locations_of(
                            orig,
                        )[j]);
                        assert(crate::aob::scanner::aob_locations_of(orig)[j] == orig[j].location as int);
                    }
                }
                assert(crate::aob::scanner::aob_locations_of(results@)
                    =~= crate::aob::scanner::aob_locations_of(before) + shifted);
                let ghost tail = spec_chunked_all_matches(
                    buf,
                    pb,
                    bm,
                    per as int,
                    base_end as int,
                    thread_count - k - 1,
                );
                assert(spec_chunked_all_matches(buf, pb, bm, per as int, start as int, thread_count - k)
                    == shifted + tail);
                assert((crate::aob::scanner::aob_locations_of(before) + shifted) + tail
                    =~= crate::aob::scanner::aob_locations_of(before) + (shifted + tail));
                assert forall|i: int| 0 <= i < results@.len() implies aob_captures_model(
                    buf,
                    *pattern,
                    (#[trigger] results@[i]).location as int,
                    results@[i].captures@,
                ) by {
                    if i >= before.len() {
                        let j = i - before.len();
                        assert(results@[before.len() + j].location == start + orig[j].location
                            && aob_captures_model(
                            buf,
                            *pattern,
                            start + orig[j].location,
                            results@[before.len() + j].captures@,
                        ));
                        assert(before.len() + j == i);
                    } else {
                        assert(results@[i] == before[i]);
                    }
                }
            }
            start = base_end;
            k = k + 1;
        }
        proof {
            assert(crate::aob::scanner::aob_locations_of(results@) + Seq::<int>::empty()
                =~= crate::aob::scanner::aob_locations_of(results@));
        }
        results
    }
}
} // verus!
