//! The mathematical model of masked byte matching, shared by every scanner in
//! the crate: what it means for a byte/mask pattern to match a buffer at an
//! offset, and where the leftmost match lies.

use vstd::prelude::*;

verus! {

/// A buffer byte agrees with a pattern byte on every bit selected by the mask.
pub open spec fn byte_matches(b: u8, pb: u8, pm: u8) -> bool {
    (b & pm) == (pb & pm)
}

/// The pattern given by `bytes`/`mask` matches `buf` starting at offset `o`.
pub open spec fn matches_at(buf: Seq<u8>, bytes: Seq<u8>, mask: Seq<u8>, o: int) -> bool {
    &&& 0 <= o
    &&& o + bytes.len() <= buf.len()
    &&& forall|i: int| 0 <= i < bytes.len() ==> byte_matches(buf[o + i], bytes[i], mask[i])
}

/// Offset of the leftmost match at or after `from`, if any.
pub open spec fn first_match_from(buf: Seq<u8>, bytes: Seq<u8>, mask: Seq<u8>, from: int) -> Option<int>
    decreases buf.len() - from,
{
    if from + bytes.len() > buf.len() {
        None
    } else if matches_at(buf, bytes, mask, from) {
        Some(from)
    } else {
        first_match_from(buf, bytes, mask, from + 1)
    }
}

/// `first_match_from` returns exactly the leftmost match at or after `from`:
/// `None` means there is no match from `from` on, and `Some(o)` means `o`
/// matches while nothing in `[from, o)` does.
pub proof fn lemma_first_match_from(buf: Seq<u8>, bytes: Seq<u8>, mask: Seq<u8>, from: int)
    ensures
        match first_match_from(buf, bytes, mask, from) {
            Some(o) => {
                &&& from <= o
                &&& matches_at(buf, bytes, mask, o)
                &&& forall|q: int| from <= q < o ==> !matches_at(buf, bytes, mask, q)
            },
            None => forall|q: int| from <= q ==> !matches_at(buf, bytes, mask, q),
        },
    decreases buf.len() - from,
{
    if from + bytes.len() > buf.len() {
    } else if matches_at(buf, bytes, mask, from) {
    } else {
        lemma_first_match_from(buf, bytes, mask, from + 1);
    }
}

/// If `o` matches and nothing before it (from `from` on) does, then `o` is
/// what `first_match_from` returns.
pub proof fn lemma_first_match_value(buf: Seq<u8>, bytes: Seq<u8>, mask: Seq<u8>, from: int, o: int)
    requires
        from <= o,
        matches_at(buf, bytes, mask, o),
        forall|q: int| from <= q < o ==> !matches_at(buf, bytes, mask, q),
    ensures
        first_match_from(buf, bytes, mask, from) == Some(o),
    decreases o - from,
{
    if from < o {
        lemma_first_match_value(buf, bytes, mask, from + 1, o);
    }
}

/// If nothing at or after `from` matches, `first_match_from` returns `None`.
pub proof fn lemma_first_match_none(buf: Seq<u8>, bytes: Seq<u8>, mask: Seq<u8>, from: int)
    requires
        forall|q: int| from <= q ==> !matches_at(buf, bytes, mask, q),
    ensures
        first_match_from(buf, bytes, mask, from) is None,
{
    lemma_first_match_from(buf, bytes, mask, from);
    if first_match_from(buf, bytes, mask, from) is Some {
        let o = first_match_from(buf, bytes, mask, from)->0;
        assert(!matches_at(buf, bytes, mask, o));
    }
}

/// A match inside `buf.subrange(s, e)` is a match in `buf`, shifted by `s`,
/// whose bytes all lie before `e`.
pub proof fn lemma_matches_subrange(buf: Seq<u8>, bytes: Seq<u8>, mask: Seq<u8>, s: int, e: int, o: int)
    requires
        0 <= s <= e <= buf.len(),
    ensures
        matches_at(buf.subrange(s, e), bytes, mask, o) <==> (0 <= o && o + bytes.len() <= e - s
            && matches_at(buf, bytes, mask, s + o)),
{
    let sl = buf.subrange(s, e);
    if matches_at(sl, bytes, mask, o) {
        assert forall|i: int| 0 <= i < bytes.len() implies byte_matches(
            buf[s + o + i],
            bytes[i],
            mask[i],
        ) by {
            assert(sl[o + i] == buf[s + o + i]);
        }
    }
    if 0 <= o && o + bytes.len() <= e - s && matches_at(buf, bytes, mask, s + o) {
        assert forall|i: int| 0 <= i < bytes.len() implies byte_matches(
            sl[o + i],
            bytes[i],
            mask[i],
        ) by {
            assert(sl[o + i] == buf[s + o + i]);
        }
    }
}

/// The offsets that repeated scanning reports: the leftmost match at or
/// after `from`, then the same rule again immediately after that match's
/// last byte, so reported matches never overlap.
pub open spec fn spec_scan_all(buf: Seq<u8>, bytes: Seq<u8>, mask: Seq<u8>, from: int) -> Seq<int>
    decreases buf.len() - from,
        when 1 <= bytes.len() && 0 <= from
        via spec_scan_all_decreases
{
    match first_match_from(buf, bytes, mask, from) {
        None => Seq::empty(),
        Some(o) => seq![o] + spec_scan_all(buf, bytes, mask, o + bytes.len() as int),
    }
}

#[via_fn]
proof fn spec_scan_all_decreases(buf: Seq<u8>, bytes: Seq<u8>, mask: Seq<u8>, from: int) {
    lemma_first_match_from(buf, bytes, mask, from);
}

/// Every match offset at or after `from`, in ascending order: the search
/// resumes one byte after each reported match, so overlapping matches are
/// all reported.
pub open spec fn all_matches_from(buf: Seq<u8>, bytes: Seq<u8>, mask: Seq<u8>, from: int) -> Seq<int>
    decreases buf.len() - from,
        when 1 <= bytes.len() && 0 <= from
        via all_matches_from_decreases
{
    match first_match_from(buf, bytes, mask, from) {
        None => Seq::empty(),
        Some(o) => seq![o] + all_matches_from(buf, bytes, mask, o + 1),
    }
}

#[via_fn]
proof fn all_matches_from_decreases(buf: Seq<u8>, bytes: Seq<u8>, mask: Seq<u8>, from: int) {
    lemma_first_match_from(buf, bytes, mask, from);
}

/// `all_matches_from` holds exactly the offsets at or after `from` where the
/// pattern matches, in ascending order.
pub proof fn lemma_all_matches_from(buf: Seq<u8>, bytes: Seq<u8>, mask: Seq<u8>, from: int)
    requires
        1 <= bytes.len(),
        0 <= from,
    ensures
        forall|q: int|
            #[trigger] all_matches_from(buf, bytes, mask, from).contains(q) <==> (from <= q
                && matches_at(buf, bytes, mask, q)),
        forall|i: int, j: int|
            0 <= i < j < all_matches_from(buf, bytes, mask, from).len()
                ==> #[trigger] all_matches_from(buf, bytes, mask, from)[i]
                < #[trigger] all_matches_from(buf, bytes, mask, from)[j],
    decreases buf.len() - from,
{
    lemma_first_match_from(buf, bytes, mask, from);
    let whole = all_matches_from(buf, bytes, mask, from);
    match first_match_from(buf, bytes, mask, from) {
        None => {
            assert forall|q: int| #[trigger] whole.contains(q) <==> (from <= q && matches_at(
                buf,
                bytes,
                mask,
                q,
            )) by {
                if whole.contains(q) {
                    let k = choose|k: int| 0 <= k < whole.len() && whole[k] == q;
                }
            }
        },
        Some(o) => {
            lemma_all_matches_from(buf, bytes, mask, o + 1);
            let rest = all_matches_from(buf, bytes, mask, o + 1);
            assert(whole == seq![o] + rest);
            assert(whole.len() == 1 + rest.len());
            assert(whole[0] == o);
            assert forall|i: int| 1 <= i < whole.len() implies #[trigger] whole[i] == rest[i - 1] by {
                assert((seq![o] + rest)[i] == rest[i - 1]);
            }
            assert forall|q: int| #[trigger] whole.contains(q) implies (from <= q && matches_at(
                buf,
                bytes,
                mask,
                q,
            )) by {
                let k = choose|k: int| 0 <= k < whole.len() && whole[k] == q;
                if k > 0 {
                    assert(rest.contains(q)) by {
                        assert(rest[k - 1] == q);
                    }
                }
            }
            assert forall|q: int| from <= q && matches_at(buf, bytes, mask, q) implies #[trigger] whole
                .contains(q) by {
                if q == o {
                    assert(whole[0] == q);
                } else {
                    assert(o + 1 <= q);
                    assert(rest.contains(q));
                    let k = choose|k: int| 0 <= k < rest.len() && rest[k] == q;
                    assert(whole[k + 1] == q);
                }
            }
            assert forall|i: int, j: int| 0 <= i < j < whole.len() implies #[trigger] whole[i]
                < #[trigger] whole[j] by {
                assert(whole[j] == rest[j - 1]);
                assert(rest.contains(rest[j - 1]));
                if i > 0 {
                    assert(whole[i] == rest[i - 1]);
                }
            }
        },
    }
}

/// A pattern built from a raw byte sequence, with every bit of every byte
/// significant, matches that same sequence at offset zero — and offset zero
/// is what a scan reports, since no earlier offset exists.
pub proof fn lemma_exact_pattern_round_trip(bytes: Seq<u8>, mask: Seq<u8>)
    requires
        bytes.len() >= 1,
        mask.len() == bytes.len(),
        forall|i: int| 0 <= i < mask.len() ==> mask[i] == 255u8,
    ensures
        matches_at(bytes, bytes, mask, 0),
        first_match_from(bytes, bytes, mask, 0) == Some(0int),
        spec_scan_all(bytes, bytes, mask, 0)[0] == 0,
{
    assert(matches_at(bytes, bytes, mask, 0));
}

/// Scanning a buffer shorter than the pattern — the empty buffer included —
/// finds nothing: no offset can hold a whole match.
pub proof fn lemma_short_buffer_no_match(buf: Seq<u8>, bytes: Seq<u8>, mask: Seq<u8>)
    requires
        buf.len() < bytes.len(),
        bytes.len() >= 1,
    ensures
        first_match_from(buf, bytes, mask, 0) is None,
        forall|q: int| !matches_at(buf, bytes, mask, q),
        spec_scan_all(buf, bytes, mask, 0).len() == 0,
{
    lemma_first_match_from(buf, bytes, mask, 0);
}

/// No two distinct matches of the pattern in this buffer overlap.
pub open spec fn no_overlapping_matches(buf: Seq<u8>, bytes: Seq<u8>, mask: Seq<u8>) -> bool {
    forall|p: int, q: int|
        matches_at(buf, bytes, mask, p) && matches_at(buf, bytes, mask, q) && p < q ==> p
            + bytes.len() <= q
}

/// Membership in a concatenation is membership in either part.
pub proof fn lemma_concat_contains<A>(a: Seq<A>, b: Seq<A>, x: A)
    ensures
        (a + b).contains(x) == (a.contains(x) || b.contains(x)),
{
    if (a + b).contains(x) {
        let k = choose|k: int| 0 <= k < (a + b).len() && (a + b)[k] == x;
        if k < a.len() {
            assert(a[k] == x);
        } else {
            assert(b[k - a.len()] == x);
        }
    }
    if a.contains(x) {
        let k = choose|k: int| 0 <= k < a.len() && a[k] == x;
        assert((a + b)[k] == x);
    }
    if b.contains(x) {
        let k = choose|k: int| 0 <= k < b.len() && b[k] == x;
        assert((a + b)[k + a.len()] == x);
    }
}

/// When matches never overlap, the non-overlapping scan skips nothing: it
/// reports exactly every match at or after `from`.
pub proof fn lemma_scan_all_gap_membership(buf: Seq<u8>, bytes: Seq<u8>, mask: Seq<u8>, from: int)
    requires
        1 <= bytes.len(),
        0 <= from,
        no_overlapping_matches(buf, bytes, mask),
    ensures
        forall|q: int|
            #[trigger] spec_scan_all(buf, bytes, mask, from).contains(q) <==> (from <= q
                && matches_at(buf, bytes, mask, q)),
    decreases buf.len() - from,
{
    lemma_first_match_from(buf, bytes, mask, from);
    let whole = spec_scan_all(buf, bytes, mask, from);
    match first_match_from(buf, bytes, mask, from) {
        None => {
            assert forall|q: int| #[trigger] whole.contains(q) <==> (from <= q && matches_at(
                buf,
                bytes,
                mask,
                q,
            )) by {
                if whole.contains(q) {
                    let k = choose|k: int| 0 <= k < whole.len() && whole[k] == q;
                }
            }
        },
        Some(o) => {
            lemma_scan_all_gap_membership(buf, bytes, mask, o + bytes.len() as int);
            let rest = spec_scan_all(buf, bytes, mask, o + bytes.len() as int);
            assert(whole == seq![o] + rest);
            assert forall|q: int| #[trigger] whole.contains(q) <==> (from <= q && matches_at(
                buf,
                bytes,
                mask,
                q,
            )) by {
                lemma_concat_contains(seq![o], rest, q);
                assert(seq![o].contains(q) == (q == o)) by {
                    if seq![o].contains(q) {
                        let k = choose|k: int| 0 <= k < seq![o].len() && seq![o][k] == q;
                    }
                    if q == o {
                        assert(seq![o][0] == q);
                    }
                }
                if from <= q && matches_at(buf, bytes, mask, q) && q != o {
                    // The gap property pushes any later match past o's end.
                    assert(o < q);
                    assert(o + bytes.len() <= q);
                }
            }
        },
    }
}

/// Every offset that `spec_scan_all` reports is a real match at or after
/// `from`, and consecutive reported matches never overlap: the next one
/// starts at least a whole pattern length later.
pub proof fn lemma_scan_all_no_overlap(buf: Seq<u8>, bytes: Seq<u8>, mask: Seq<u8>, from: int)
    requires
        1 <= bytes.len(),
        0 <= from,
    ensures
        forall|i: int|
            0 <= i < spec_scan_all(buf, bytes, mask, from).len() ==> from <= #[trigger] spec_scan_all(
                buf,
                bytes,
                mask,
                from,
            )[i] && matches_at(buf, bytes, mask, spec_scan_all(buf, bytes, mask, from)[i]),
        forall|i: int|
            0 <= i && i + 1 < spec_scan_all(buf, bytes, mask, from).len() ==> #[trigger] spec_scan_all(
                buf,
                bytes,
                mask,
                from,
            )[i] + bytes.len() <= spec_scan_all(buf, bytes, mask, from)[i + 1],
    decreases buf.len() - from,
{
    lemma_first_match_from(buf, bytes, mask, from);
    match first_match_from(buf, bytes, mask, from) {
        None => {},
        Some(o) => {
            lemma_scan_all_no_overlap(buf, bytes, mask, o + bytes.len() as int);
            let ghost rest = spec_scan_all(buf, bytes, mask, o + bytes.len() as int);
            let ghost whole = spec_scan_all(buf, bytes, mask, from);
            assert(whole == seq![o] + rest);
            assert(whole.len() == 1 + rest.len());
            assert forall|i: int| 1 <= i < whole.len() implies #[trigger] whole[i] == rest[i - 1] by {
                assert((seq![o] + rest)[i] == rest[i - 1]);
            }
            assert forall|i: int| 0 <= i < whole.len() implies from <= whole[i] && matches_at(
                buf,
                bytes,
                mask,
                whole[i],
            ) by {
                if i > 0 {
                    assert(whole[i] == rest[i - 1]);
                    assert(o + bytes.len() <= spec_scan_all(buf, bytes, mask, o + bytes.len() as int)[i - 1]);
                }
            }
            assert forall|i: int| 0 <= i && i + 1 < whole.len() implies #[trigger] whole[i] + bytes.len()
                <= whole[i + 1] by {
                assert(whole[i + 1] == rest[i]);
                if i > 0 {
                    assert(whole[i] == rest[i - 1]);
                    assert(spec_scan_all(buf, bytes, mask, o + bytes.len() as int)[i - 1]
                        + bytes.len() <= spec_scan_all(buf, bytes, mask, o + bytes.len() as int)[i]);
                } else {
                    assert(o + bytes.len() <= spec_scan_all(buf, bytes, mask, o + bytes.len() as int)[0]);
                }
            }
        },
    }
}

} // verus!
