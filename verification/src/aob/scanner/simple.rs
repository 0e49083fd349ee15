//! Sequential AOB matcher: leftmost single-pattern search, exhaustive
//! (overlapping) multi-occurrence search, and the multi-pattern group sweep.

use vstd::prelude::*;

use crate::aob::pattern::{bool_mask, same_shape, Pattern};
use crate::aob::scanner::{aob_captures_model, aob_locations_of, aob_matches_at, ScanResult};
use crate::matching::{
    all_matches_from, byte_matches, first_match_from, lemma_first_match_from,
    lemma_first_match_none, lemma_first_match_value, lemma_matches_subrange, matches_at,
};

verus! {

/// The sequential scanner: one pattern, one buffer, one pass.
#[derive(Default)]
pub struct SimpleScanner;

/// Builds the core engine's form of an AOB pattern: the boolean mask becomes
/// a bit-level mask of all-ones or all-zeros bytes.
pub(crate) fn engine_pattern(p: &Pattern) -> (r: crate::pattern::Pattern)
    requires
        p.wf(),
    ensures
        r.bytes@ == p.bytes@,
        r.mask@ == bool_mask(p.mask@),
        r.length == p.length,
        r.capture_groups@ == p.capture_groups@,
        r.wf(),
{
    let mut mask: Vec<u8> = Vec::new();
    let mut i: usize = 0;
    let total = p.mask.len();
    while i < total
        invariant
            total == p.mask@.len(),
            i <= total,
            mask@.len() == i,
            forall|k: int|
                0 <= k < i ==> mask@[k] == (if p.mask@[k] {
                    255u8
                } else {
                    0u8
                }),
        decreases total - i,
    {
        if p.mask[i] {
            mask.push(255);
        } else {
            mask.push(0);
        }
        i = i + 1;
    }
    proof {
        assert(mask@ =~= bool_mask(p.mask@));
    }
    crate::pattern::Pattern {
        bytes: vstd::slice::slice_to_vec(p.bytes.as_slice()),
        mask,
        length: p.length,
        capture_groups: vstd::slice::slice_to_vec(p.capture_groups.as_slice()),
    }
}

/// Converts a core engine result to the AOB form, keeping only the captured
/// bytes.
pub(crate) fn convert_result(res: crate::scanner::ScanResult) -> (r: ScanResult)
    ensures
        r.location == res.location,
        r.captures@.len() == res.captures@.len(),
        forall|i: int|
            0 <= i < res.captures@.len() ==> (#[trigger] r.captures@[i])@
                == res.captures@[i].bytes@,
{
    let crate::scanner::ScanResult { location, captures } = res;
    let ghost orig = captures@;
    let mut remaining = captures;
    let mut out: Vec<Vec<u8>> = Vec::new();
    while remaining.len() > 0
        invariant
            out@.len() + remaining@.len() == orig.len(),
            remaining@ == orig.subrange(out@.len() as int, orig.len() as int),
            forall|i: int| 0 <= i < out@.len() ==> (#[trigger] out@[i])@ == orig[i].bytes@,
        decreases remaining@.len(),
    {
        proof {
            assert(remaining@[0] == orig[out@.len() as int]);
        }
        let c = remaining.remove(0);
        out.push(c.bytes);
        proof {
            assert(remaining@ =~= orig.subrange(out@.len() as int, orig.len() as int));
        }
    }
    ScanResult { location, captures: out }
}

/// Whether the whole AOB pattern matches `bytes` at offset `o`.
fn aob_match_at(bytes: &[u8], pattern: &Pattern, o: usize) -> (r: bool)
    requires
        pattern.wf(),
        o + pattern.length <= bytes@.len(),
    ensures
        r == matches_at(bytes@, pattern.bytes@, bool_mask(pattern.mask@), o as int),
{
    let m = pattern.length;
    let n = bytes.len();
    let mut i: usize = 0;
    while i < m
        invariant
            pattern.wf(),
            m == pattern.length,
            i <= m,
            n == bytes@.len(),
            o + m <= n,
            forall|j: int|
                0 <= j < i ==> byte_matches(
                    bytes@[o + j],
                    #[trigger] pattern.bytes@[j],
                    bool_mask(pattern.mask@)[j],
                ),
        decreases m - i,
    {
        let masked = pattern.mask[i];
        let expected = pattern.bytes[i];
        let actual = bytes[o + i];
        proof {
            assert(bool_mask(pattern.mask@)[i as int] == (if pattern.mask@[i as int] {
                255u8
            } else {
                0u8
            }));
            lemma_bool_byte_matches(actual, expected);
        }
        if masked && expected != actual {
            return false;
        }
        i = i + 1;
    }
    true
}

/// With an all-ones mask a byte must match exactly; with an all-zeros mask
/// anything matches.
proof fn lemma_bool_byte_matches(b: u8, pb: u8)
    ensures
        byte_matches(b, pb, 255u8) <==> b == pb,
        byte_matches(b, pb, 0u8),
{
    assert(((b & 255u8) == (pb & 255u8)) <==> b == pb) by (bit_vector);
    assert((b & 0u8) == (pb & 0u8)) by (bit_vector);
}

impl SimpleScanner {
    pub fn new() -> (r: Self) {
        Self {  }
    }

    /// Returns the leftmost occurrence of `pattern` in `scannable`, with its
    /// captured spans, or `None` when no offset matches.
    pub fn scan(&self, scannable: &[u8], pattern: &Pattern) -> (r: Option<ScanResult>)
        requires
            pattern.wf(),
            pattern.length >= 1,
        ensures
            match r {
                Some(res) => {
                    &&& aob_matches_at(scannable@, *pattern, res.location as int)
                    &&& forall|q: int|
                        0 <= q < res.location ==> !aob_matches_at(scannable@, *pattern, q)
                    &&& first_match_from(scannable@, pattern.bytes@, bool_mask(pattern.mask@), 0)
                        == Some(res.location as int)
                    &&& aob_captures_model(scannable@, *pattern, res.location as int, res.captures@)
                },
                None => {
                    &&& forall|q: int| !aob_matches_at(scannable@, *pattern, q)
                    &&& first_match_from(scannable@, pattern.bytes@, bool_mask(pattern.mask@), 0)
                        is None
                },
            },
    {
        let engine = engine_pattern(pattern);
        match crate::scanner::simple::scan(scannable, &engine) {
            Some(res) => {
                proof {
                    assert forall|q: int| 0 <= q < res.location implies !aob_matches_at(
                        scannable@,
                        *pattern,
                        q,
                    ) by {
                        assert(!crate::scanner::pattern_matches_at(scannable@, engine, q));
                    }
                }
                Some(convert_result(res))
            },
            None => {
                proof {
                    assert forall|q: int| !aob_matches_at(scannable@, *pattern, q) by {
                        assert(!crate::scanner::pattern_matches_at(scannable@, engine, q));
                    }
                }
                None
            },
        }
    }

    /// Finds every occurrence of `pattern`, overlapping ones included: each
    /// search resumes one byte after the previous match's start.
    pub fn scan_multiple(&self, scannable: &[u8], pattern: &Pattern) -> (r: Vec<ScanResult>)
        requires
            pattern.wf(),
            pattern.length >= 1,
        ensures
            aob_locations_of(r@) == all_matches_from(
                scannable@,
                pattern.bytes@,
                bool_mask(pattern.mask@),
                0,
            ),
            forall|i: int|
                0 <= i < r@.len() ==> aob_captures_model(
                    scannable@,
                    *pattern,
                    (#[trigger] r@[i]).location as int,
                    r@[i].captures@,
                ),
    {
        let n = scannable.len();
        let m = pattern.length;
        let ghost pb = pattern.bytes@;
        let ghost bm = bool_mask(pattern.mask@);
        let mut results: Vec<ScanResult> = Vec::new();
        let mut current: usize = 0;
        loop
            invariant
                pattern.wf(),
                pattern.length >= 1,
                m == pattern.length,
                n == scannable@.len(),
                pb == pattern.bytes@,
                bm == bool_mask(pattern.mask@),
                current <= n,
                all_matches_from(scannable@, pb, bm, 0) == aob_locations_of(results@)
                    + all_matches_from(scannable@, pb, bm, current as int),
                forall|i: int|
                    0 <= i < results@.len() ==> aob_captures_model(
                        scannable@,
                        *pattern,
                        (#[trigger] results@[i]).location as int,
                        results@[i].captures@,
                    ),
            ensures
                aob_locations_of(results@) == all_matches_from(scannable@, pb, bm, 0),
                forall|i: int|
                    0 <= i < results@.len() ==> aob_captures_model(
                        scannable@,
                        *pattern,
                        (#[trigger] results@[i]).location as int,
                        results@[i].captures@,
                    ),
            decreases n - current,
        {
            let suffix = vstd::slice::slice_subrange(scannable, current, n);
            match self.scan(suffix, pattern) {
                Some(found) => {
                    let loc = found.location;
                    proof {
                        lemma_matches_subrange(
                            scannable@,
                            pb,
                            bm,
                            current as int,
                            n as int,
                            loc as int,
                        );
                        assert forall|q: int| current <= q < current + loc implies !matches_at(
                            scannable@,
                            pb,
                            bm,
                            q,
                        ) by {
                            lemma_matches_subrange(scannable@, pb, bm, current as int, n as int, q - current);
                            assert(!aob_matches_at(suffix@, *pattern, q - current));
                        }
                        lemma_first_match_value(scannable@, pb, bm, current as int, current + loc);
                        let ghost cl = current + loc;
                        let ghost rest = all_matches_from(scannable@, pb, bm, cl + 1);
                        assert(all_matches_from(scannable@, pb, bm, current as int) == seq![cl]
                            + rest);
                    }
                    let absolute = ScanResult {
                        location: current + loc,
                        captures: found.captures,
                    };
                    proof {
                        let ghost cl = current + loc;
                        let ghost rest = all_matches_from(scannable@, pb, bm, cl + 1);
                        assert forall|i: int| 0 <= i < absolute.captures@.len() implies (
                        #[trigger] absolute.captures@[i])@ == scannable@.subrange(
                            cl + pattern.capture_groups@[i].start,
                            cl + pattern.capture_groups@[i].end,
                        ) by {
                            let gs = pattern.capture_groups@[i].start as int;
                            let ge = pattern.capture_groups@[i].end as int;
                            assert(suffix@.subrange(loc + gs, loc + ge) =~= scannable@.subrange(
                                cl + gs,
                                cl + ge,
                            ));
                        }
                        assert(aob_locations_of(results@.push(absolute)) =~= aob_locations_of(
                            results@,
                        ) + seq![cl]);
                        assert((aob_locations_of(results@) + seq![cl]) + rest =~= aob_locations_of(
                            results@,
                        ) + (seq![cl] + rest));
                        assert forall|i: int| 0 <= i < results@.push(absolute).len() implies aob_captures_model(
                            scannable@,
                            *pattern,
                            (#[trigger] results@.push(absolute)[i]).location as int,
                            results@.push(absolute)[i].captures@,
                        ) by {
                            if i < results@.len() {
                                assert(results@.push(absolute)[i] == results@[i]);
                            } else {
                                assert(results@.push(absolute)[i] == absolute);
                            }
                        }
                    }
                    results.push(absolute);
                    current = current + loc + 1;
                },
                None => {
                    proof {
                        assert forall|q: int| current <= q implies !matches_at(
                            scannable@,
                            pb,
                            bm,
                            q,
                        ) by {
                            if matches_at(scannable@, pb, bm, q) {
                                lemma_matches_subrange(scannable@, pb, bm, current as int, n as int, q - current);
                                assert(aob_matches_at(suffix@, *pattern, q - current));
                            }
                        }
                        lemma_first_match_none(scannable@, pb, bm, current as int);
                        assert(aob_locations_of(results@) + Seq::<int>::empty() =~= aob_locations_of(
                            results@,
                        ));
                    }
                    break;
                },
            }
        }
        results
    }
}


/// The relation between a pattern before and after the group sweep has
/// examined every start position below `upto`: the shape is untouched, a
/// pattern that already carried an offset is skipped, and an offset is
/// recorded (rebased by `base`) exactly when the pattern's leftmost match
/// lies below `upto`.
pub open spec fn sweep_partial(
    old_p: Pattern,
    new_p: Pattern,
    fnd: bool,
    buf: Seq<u8>,
    base: int,
    upto: int,
) -> bool {
    &&& same_shape(new_p, old_p)
    &&& match old_p.offset {
        Some(_) => new_p.offset == old_p.offset && !fnd,
        None => match first_match_from(buf, old_p.bytes@, bool_mask(old_p.mask@), 0) {
            Some(o) => if o < upto {
                new_p.offset == Some((base + o) as usize) && fnd
            } else {
                new_p.offset is None && !fnd
            },
            None => new_p.offset is None && !fnd,
        },
    }
}

/// The relation after the whole buffer has been swept: a pattern without a
/// prior offset gets its leftmost match offset (rebased by `base`), or stays
/// without one when it does not occur.
pub open spec fn sweep_final(old_p: Pattern, new_p: Pattern, fnd: bool, buf: Seq<u8>, base: int) -> bool {
    &&& same_shape(new_p, old_p)
    &&& match old_p.offset {
        Some(_) => new_p.offset == old_p.offset && !fnd,
        None => match first_match_from(buf, old_p.bytes@, bool_mask(old_p.mask@), 0) {
            Some(o) => new_p.offset == Some((base + o) as usize) && fnd,
            None => new_p.offset is None && !fnd,
        },
    }
}

/// The pattern had no offset yet and does occur in the buffer.
pub open spec fn newly_found(buf: Seq<u8>, p: Pattern) -> bool {
    p.offset is None && first_match_from(buf, p.bytes@, bool_mask(p.mask@), 0) is Some
}

/// Indices below `n` of the patterns a group scan newly finds, ascending.
pub open spec fn newly_found_indices(buf: Seq<u8>, ps: Seq<Pattern>, n: int) -> Seq<int>
    decreases n,
{
    if n <= 0 {
        Seq::empty()
    } else if newly_found(buf, ps[n - 1]) {
        newly_found_indices(buf, ps, n - 1).push(n - 1)
    } else {
        newly_found_indices(buf, ps, n - 1)
    }
}

/// Indices below `n` whose flag is set, ascending.
pub open spec fn flag_indices(flags: Seq<bool>, n: int) -> Seq<int>
    decreases n,
{
    if n <= 0 {
        Seq::empty()
    } else if flags[n - 1] {
        flag_indices(flags, n - 1).push(n - 1)
    } else {
        flag_indices(flags, n - 1)
    }
}

/// When the flags record exactly which patterns were newly found, the two
/// index sequences coincide.
pub proof fn lemma_flag_indices_found(buf: Seq<u8>, ps: Seq<Pattern>, flags: Seq<bool>, n: int)
    requires
        n <= ps.len(),
        n <= flags.len(),
        forall|i: int| 0 <= i < n ==> flags[i] == newly_found(buf, #[trigger] ps[i]),
    ensures
        flag_indices(flags, n) == newly_found_indices(buf, ps, n),
    decreases n,
{
    if n > 0 {
        lemma_flag_indices_found(buf, ps, flags, n - 1);
    }
}

/// Every entry of `flag_indices` is a position with its flag set, in
/// ascending order.
pub proof fn lemma_flag_indices(flags: Seq<bool>, n: int)
    ensures
        forall|j: int|
            0 <= j < flag_indices(flags, n).len() ==> 0 <= #[trigger] flag_indices(flags, n)[j]
                < n && flags[flag_indices(flags, n)[j]],
    decreases n,
{
    if n > 0 {
        lemma_flag_indices(flags, n - 1);
        let prev = flag_indices(flags, n - 1);
        let cur = flag_indices(flags, n);
        assert forall|j: int| 0 <= j < cur.len() implies 0 <= cur[j] < n && flags[cur[j]] by {
            if flags[n - 1] && j < prev.len() {
                assert(cur[j] == prev[j]);
            } else if flags[n - 1] {
                assert(cur[j] == n - 1);
            } else {
                assert(cur[j] == prev[j]);
            }
        }
    }
}

/// The result a group scan hands back: one entry per newly found pattern, in
/// declaration order, shaped like the input pattern and carrying its
/// leftmost match offset rebased by `base`.
pub open spec fn group_result_models(
    buf: Seq<u8>,
    olds: Seq<Pattern>,
    r: Seq<Pattern>,
    base: int,
) -> bool {
    let idxs = newly_found_indices(buf, olds, olds.len() as int);
    &&& r.len() == idxs.len()
    &&& forall|j: int|
        0 <= j < idxs.len() ==> same_shape(#[trigger] r[j], olds[idxs[j]]) && r[j].offset == Some(
            (base + first_match_from(buf, olds[idxs[j]].bytes@, bool_mask(olds[idxs[j]].mask@), 0)->0)
                as usize,
        )
}

/// One left-to-right sweep of the buffer that marks, for every pattern that
/// does not yet carry an offset, the leftmost position where it matches.
/// Returns one flag per pattern saying whether this sweep found it.
pub(crate) fn sweep(scannable: &[u8], patterns: &mut Vec<Pattern>, base: usize) -> (found: Vec<bool>)
    requires
        forall|i: int|
            0 <= i < old(patterns)@.len() ==> (#[trigger] old(patterns)@[i]).wf() && old(
                patterns,
            )@[i].length >= 1,
        base + scannable@.len() <= usize::MAX,
    ensures
        found@.len() == old(patterns)@.len(),
        final(patterns)@.len() == old(patterns)@.len(),
        forall|i: int|
            0 <= i < old(patterns)@.len() ==> sweep_final(
                old(patterns)@[i],
                #[trigger] final(patterns)@[i],
                found@[i],
                scannable@,
                base as int,
            ),
{
    let ghost old_ps = patterns@;
    let ghost buf = scannable@;
    let n = scannable.len();
    let count = patterns.len();
    let mut found: Vec<bool> = Vec::new();
    let mut f: usize = 0;
    while f < count
        invariant
            f <= count,
            found@.len() == f,
            forall|i: int| 0 <= i < f ==> found@[i] == false,
        decreases count - f,
    {
        found.push(false);
        f = f + 1;
    }
    proof {
        assert forall|i: int| 0 <= i < count implies sweep_partial(
            old_ps[i],
            #[trigger] patterns@[i],
            found@[i],
            buf,
            base as int,
            0,
        ) by {
            lemma_first_match_from(buf, old_ps[i].bytes@, bool_mask(old_ps[i].mask@), 0);
        }
    }
    let mut position: usize = 0;
    while position < n
        invariant
            n == scannable@.len(),
            buf == scannable@,
            position <= n,
            old_ps.len() == count,
            patterns@.len() == count,
            found@.len() == count,
            base + n <= usize::MAX,
            forall|i: int|
                0 <= i < count ==> (#[trigger] old_ps[i]).wf() && old_ps[i].length >= 1,
            forall|i: int|
                0 <= i < count ==> sweep_partial(
                    old_ps[i],
                    #[trigger] patterns@[i],
                    found@[i],
                    buf,
                    base as int,
                    position as int,
                ),
        decreases n - position,
    {
        let mut idx: usize = 0;
        while idx < count
            invariant
                n == scannable@.len(),
                buf == scannable@,
                position < n,
                idx <= count,
                old_ps.len() == count,
                patterns@.len() == count,
                found@.len() == count,
                base + n <= usize::MAX,
                forall|i: int|
                    0 <= i < count ==> (#[trigger] old_ps[i]).wf() && old_ps[i].length >= 1,
                forall|i: int|
                    0 <= i < idx ==> sweep_partial(
                        old_ps[i],
                        #[trigger] patterns@[i],
                        found@[i],
                        buf,
                        base as int,
                        position + 1,
                    ),
                forall|i: int|
                    idx <= i < count ==> sweep_partial(
                        old_ps[i],
                        #[trigger] patterns@[i],
                        found@[i],
                        buf,
                        base as int,
                        position as int,
                    ),
            decreases count - idx,
        {
            let ghost pb = old_ps[idx as int].bytes@;
            let ghost bm = bool_mask(old_ps[idx as int].mask@);
            proof {
                assert(sweep_partial(
                    old_ps[idx as int],
                    patterns@[idx as int],
                    found@[idx as int],
                    buf,
                    base as int,
                    position as int,
                ));
                lemma_first_match_from(buf, pb, bm, 0);
            }
            let plen = patterns[idx].length;
            if patterns[idx].offset.is_none() && plen <= n - position {
                proof {
                    assert(patterns@[idx as int].wf()) by {
                        assert(same_shape(patterns@[idx as int], old_ps[idx as int]));
                    }
                }
                let hit = aob_match_at(scannable, &patterns[idx], position);
                if hit {
                    proof {
                        // The sweep has ruled out every earlier start, so
                        // this match is the pattern's leftmost one.
                        assert(matches_at(buf, pb, bm, position as int));
                        assert(first_match_from(buf, pb, bm, 0) == Some(position as int)) by {
                            match first_match_from(buf, pb, bm, 0) {
                                Some(o) => {
                                    assert(o <= position);
                                    assert(o >= position);
                                },
                                None => {
                                    assert(!matches_at(buf, pb, bm, position as int));
                                },
                            }
                        }
                    }
                    patterns[idx].offset = Some(base + position);
                    found[idx] = true;
                }
            }
            proof {
                assert forall|i: int| 0 <= i < idx + 1 implies sweep_partial(
                    old_ps[i],
                    #[trigger] patterns@[i],
                    found@[i],
                    buf,
                    base as int,
                    position + 1,
                ) by {
                    if i < idx {
                    } else {
                        lemma_first_match_from(buf, pb, bm, 0);
                        match first_match_from(buf, pb, bm, 0) {
                            Some(o) => {
                                if o == position {
                                    assert(matches_at(buf, pb, bm, o));
                                }
                            },
                            None => {},
                        }
                    }
                }
            }
            idx = idx + 1;
        }
        position = position + 1;
    }
    proof {
        assert forall|i: int| 0 <= i < count implies sweep_final(
            old_ps[i],
            #[trigger] patterns@[i],
            found@[i],
            buf,
            base as int,
        ) by {
            let pb = old_ps[i].bytes@;
            let bm = bool_mask(old_ps[i].mask@);
            lemma_first_match_from(buf, pb, bm, 0);
            match first_match_from(buf, pb, bm, 0) {
                Some(o) => {
                    assert(o + pb.len() <= buf.len());
                    assert(pb.len() == old_ps[i].length);
                },
                None => {},
            }
        }
    }
    found
}

/// Copies out the patterns whose flag is set, in declaration order.
pub(crate) fn collect_found(patterns: &Vec<Pattern>, flags: &Vec<bool>) -> (r: Vec<Pattern>)
    requires
        flags@.len() == patterns@.len(),
    ensures
        ({
            let idxs = flag_indices(flags@, flags@.len() as int);
            &&& r@.len() == idxs.len()
            &&& forall|j: int|
                0 <= j < idxs.len() ==> same_shape(#[trigger] r@[j], patterns@[idxs[j]])
                    && r@[j].offset == patterns@[idxs[j]].offset
        }),
{
    let count = patterns.len();
    let mut out: Vec<Pattern> = Vec::new();
    let mut i: usize = 0;
    while i < count
        invariant
            i <= count,
            count == patterns@.len(),
            flags@.len() == count,
            out@.len() == flag_indices(flags@, i as int).len(),
            forall|j: int|
                0 <= j < out@.len() ==> same_shape(
                    #[trigger] out@[j],
                    patterns@[flag_indices(flags@, i as int)[j]],
                ) && out@[j].offset == patterns@[flag_indices(flags@, i as int)[j]].offset,
        decreases count - i,
    {
        let ghost idxs_old = flag_indices(flags@, i as int);
        if flags[i] {
            out.push(patterns[i].duplicate());
            proof {
                let idxs_new = flag_indices(flags@, i + 1);
                assert(idxs_new == idxs_old.push(i as int));
                assert forall|j: int| 0 <= j < out@.len() implies same_shape(
                    #[trigger] out@[j],
                    patterns@[idxs_new[j]],
                ) && out@[j].offset == patterns@[idxs_new[j]].offset by {
                    if j < idxs_old.len() {
                        assert(idxs_new[j] == idxs_old[j]);
                        assert(out@[j] == out@.subrange(0, out@.len() - 1)[j]);
                    } else {
                        assert(idxs_new[j] == i);
                    }
                }
            }
        }
        i = i + 1;
    }
    out
}

impl SimpleScanner {
    /// Locates every pattern in one left-to-right sweep of the buffer. Each
    /// pattern that does not yet carry an offset gets its leftmost match
    /// offset recorded, and the newly found patterns come back as the
    /// result, in declaration order.
    pub fn group_scan(&self, scannable: &[u8], patterns: &mut Vec<Pattern>) -> (r: Vec<Pattern>)
        requires
            forall|i: int|
                0 <= i < old(patterns)@.len() ==> (#[trigger] old(patterns)@[i]).wf() && old(
                    patterns,
                )@[i].length >= 1,
        ensures
            final(patterns)@.len() == old(patterns)@.len(),
            forall|i: int|
                0 <= i < old(patterns)@.len() ==> sweep_final(
                    old(patterns)@[i],
                    #[trigger] final(patterns)@[i],
                    newly_found(scannable@, old(patterns)@[i]),
                    scannable@,
                    0,
                ),
            group_result_models(scannable@, old(patterns)@, r@, 0),
    {
        let n = scannable.len();
        proof {
            assert(scannable@.len() <= usize::MAX);
        }
        let flags = sweep(scannable, patterns, 0);
        let r = collect_found(patterns, &flags);
        proof {
            let buf = scannable@;
            let olds = old(patterns)@;
            assert forall|i: int| 0 <= i < olds.len() implies flags@[i] == newly_found(
                buf,
                #[trigger] olds[i],
            ) by {
                assert(sweep_final(olds[i], patterns@[i], flags@[i], buf, 0));
            }
            lemma_flag_indices_found(buf, olds, flags@, olds.len() as int);
            lemma_flag_indices(flags@, olds.len() as int);
            let idxs = newly_found_indices(buf, olds, olds.len() as int);
            assert forall|j: int| 0 <= j < idxs.len() implies same_shape(#[trigger] r@[j], olds[idxs[j]])
                && r@[j].offset == Some(
                (first_match_from(buf, olds[idxs[j]].bytes@, bool_mask(olds[idxs[j]].mask@), 0)->0)
                    as usize,
            ) by {
                let i = idxs[j];
                assert(same_shape(r@[j], patterns@[i]) && r@[j].offset == patterns@[i].offset);
                assert(sweep_final(olds[i], patterns@[i], flags@[i], buf, 0));
            }
        }
        r
    }

    /// The group sweep over one chunk of a larger buffer: found offsets are
    /// rebased by the chunk's absolute start offset.
    pub fn threaded_group_scan(
        &self,
        scannable: &[u8],
        offset: usize,
        patterns: &mut Vec<Pattern>,
    ) -> (r: Vec<Pattern>)
        requires
            forall|i: int|
                0 <= i < old(patterns)@.len() ==> (#[trigger] old(patterns)@[i]).wf() && old(
                    patterns,
                )@[i].length >= 1,
            offset + scannable@.len() <= usize::MAX,
        ensures
            final(patterns)@.len() == old(patterns)@.len(),
            forall|i: int|
                0 <= i < old(patterns)@.len() ==> sweep_final(
                    old(patterns)@[i],
                    #[trigger] final(patterns)@[i],
                    newly_found(scannable@, old(patterns)@[i]),
                    scannable@,
                    offset as int,
                ),
            group_result_models(scannable@, old(patterns)@, r@, offset as int),
    {
        let flags = sweep(scannable, patterns, offset);
        let r = collect_found(patterns, &flags);
        proof {
            let buf = scannable@;
            let olds = old(patterns)@;
            assert forall|i: int| 0 <= i < olds.len() implies flags@[i] == newly_found(
                buf,
                #[trigger] olds[i],
            ) by {
                assert(sweep_final(olds[i], patterns@[i], flags@[i], buf, offset as int));
            }
            lemma_flag_indices_found(buf, olds, flags@, olds.len() as int);
            lemma_flag_indices(flags@, olds.len() as int);
            let idxs = newly_found_indices(buf, olds, olds.len() as int);
            assert forall|j: int| 0 <= j < idxs.len() implies same_shape(#[trigger] r@[j], olds[idxs[j]])
                && r@[j].offset == Some(
                (offset + first_match_from(buf, olds[idxs[j]].bytes@, bool_mask(olds[idxs[j]].mask@), 0)->0)
                    as usize,
            ) by {
                let i = idxs[j];
                assert(same_shape(r@[j], patterns@[i]) && r@[j].offset == patterns@[i].offset);
                assert(sweep_final(olds[i], patterns@[i], flags@[i], buf, offset as int));
            }
        }
        r
    }
}

} // verus!
