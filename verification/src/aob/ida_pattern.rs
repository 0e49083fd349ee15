//! The IDA-style pattern: whitespace-separated words, each either a
//! hexadecimal byte value or a `?`/`??` wildcard, with no capture groups.

use vstd::prelude::*;
use vstd::string::StringSliceAdditionalSpecFns;

use crate::pattern::tokenizer::{hex_digit_value, is_hex_digit_byte};

verus! {

/// An IDA pattern: `bytes[i]` must equal the scanned byte wherever `mask[i]`
/// is set.
#[derive(Debug, Clone)]
pub struct Pattern {
    pub bytes: Vec<u8>,
    pub mask: Vec<bool>,
    pub length: usize,
}

#[derive(Debug)]
pub enum PatternError {
    /// A word that is neither a wildcard nor a hexadecimal byte value.
    ParseError,
    /// Every byte is wildcarded (or the pattern is empty), so it would match
    /// anywhere and is rejected.
    NoMatchableBytesError,
}

/// The outcome shared by every IDA-style constructor.
pub(crate) enum IdaOutcome {
    Parsed(Vec<u8>, Vec<bool>),
    WordFailed,
    NothingMatchable,
}

/// Whitespace separating IDA pattern words.
pub open spec fn is_ida_ws(b: u8) -> bool {
    b == 32 || b == 9 || b == 10 || b == 11 || b == 12 || b == 13
}

/// End of the word starting at `i`: the first position at or after `i` that
/// is past the end or holds whitespace.
pub open spec fn ida_word_end(s: Seq<u8>, i: int) -> int
    decreases s.len() - i,
{
    if i < 0 || i >= s.len() || is_ida_ws(s[i]) {
        i
    } else {
        ida_word_end(s, i + 1)
    }
}

pub proof fn lemma_ida_word_end(s: Seq<u8>, i: int)
    requires
        0 <= i <= s.len(),
    ensures
        i <= ida_word_end(s, i) <= s.len(),
        i < s.len() && !is_ida_ws(s[i]) ==> ida_word_end(s, i) > i,
        forall|k: int| i <= k < ida_word_end(s, i) ==> !is_ida_ws(#[trigger] s[k]),
        ida_word_end(s, i) < s.len() ==> is_ida_ws(s[ida_word_end(s, i)]),
    decreases s.len() - i,
{
    if i < s.len() && !is_ida_ws(s[i]) {
        lemma_ida_word_end(s, i + 1);
    }
}

/// The value of a word read as hexadecimal digits, or `None` when some
/// character is not a digit or the value exceeds a byte.
pub open spec fn hex_word_value(w: Seq<u8>) -> Option<int>
    decreases w.len(),
{
    if w.len() == 0 {
        Some(0)
    } else {
        match hex_word_value(w.drop_last()) {
            None => None,
            Some(v) => {
                if !is_hex_digit_byte(w.last()) {
                    None
                } else {
                    let nv = v * 16 + hex_digit_value(w.last());
                    if nv > 255 {
                        None
                    } else {
                        Some(nv)
                    }
                }
            },
        }
    }
}

/// The (value, matched) pair one word denotes: `?` and `??` are wildcards,
/// anything else must be a hexadecimal byte value.
pub open spec fn ida_word_pair(w: Seq<u8>) -> Option<(u8, bool)> {
    if w == seq![63u8] || w == seq![63u8, 63u8] {
        Some((0u8, false))
    } else {
        match hex_word_value(w) {
            Some(v) => Some((v as u8, true)),
            None => None,
        }
    }
}

/// The (value, matched) pairs of every word from position `i` on, or `None`
/// when some word fails to parse.
pub open spec fn spec_ida_pairs(s: Seq<u8>, i: int) -> Option<Seq<(u8, bool)>>
    decreases s.len() - i,
        when 0 <= i
        via spec_ida_pairs_decreases
{
    if i >= s.len() {
        Some(Seq::empty())
    } else if is_ida_ws(s[i]) {
        spec_ida_pairs(s, i + 1)
    } else {
        let j = ida_word_end(s, i);
        match (ida_word_pair(s.subrange(i, j)), spec_ida_pairs(s, j)) {
            (Some(p), Some(rest)) => Some(seq![p] + rest),
            _ => None,
        }
    }
}

#[via_fn]
proof fn spec_ida_pairs_decreases(s: Seq<u8>, i: int) {
    if 0 <= i && i < s.len() && !is_ida_ws(s[i]) {
        lemma_ida_word_end(s, i);
    }
}

pub open spec fn pair_bytes(pairs: Seq<(u8, bool)>) -> Seq<u8> {
    pairs.map(|k: int, p: (u8, bool)| p.0)
}

pub open spec fn pair_mask(pairs: Seq<(u8, bool)>) -> Seq<bool> {
    pairs.map(|k: int, p: (u8, bool)| p.1)
}

pub open spec fn any_matched(pairs: Seq<(u8, bool)>) -> bool {
    exists|k: int| 0 <= k < pairs.len() && (#[trigger] pairs[k]).1 == true
}

/// What each IDA-style constructor returns for a given input.
pub(crate) open spec fn ida_outcome_models(s: Seq<u8>, r: IdaOutcome) -> bool {
    match r {
        IdaOutcome::Parsed(bytes, mask) => {
            &&& spec_ida_pairs(s, 0) matches Some(pairs) && any_matched(pairs) && bytes@
                == pair_bytes(pairs) && mask@ == pair_mask(pairs)
        },
        IdaOutcome::WordFailed => spec_ida_pairs(s, 0) is None,
        IdaOutcome::NothingMatchable => spec_ida_pairs(s, 0) matches Some(pairs) && !any_matched(
            pairs,
        ),
    }
}

/// Attach an already-parsed pair prefix in front of the outcome for the
/// remaining input.
pub open spec fn prepend_pairs(p: Seq<(u8, bool)>, rest: Option<Seq<(u8, bool)>>) -> Option<
    Seq<(u8, bool)>,
> {
    match rest {
        Some(ps) => Some(p + ps),
        None => None,
    }
}

/// Parses a whole IDA pattern string into its byte and mask arrays.
pub(crate) fn parse_ida(input: &str) -> (r: IdaOutcome)
    ensures
        ida_outcome_models(input.spec_bytes(), r),
        r matches IdaOutcome::Parsed(bytes, mask) ==> bytes@.len() == mask@.len() && bytes@.len()
            >= 1,
{
    let s = input.as_bytes();
    let ghost sv = input.spec_bytes();
    let n = s.len();
    let mut bytes: Vec<u8> = Vec::new();
    let mut mask: Vec<bool> = Vec::new();
    let mut i: usize = 0;
    let ghost mut pre: Seq<(u8, bool)> = Seq::empty();
    while i < n
        invariant
            sv == s@,
            sv == input.spec_bytes(),
            n == s@.len(),
            i <= n,
            bytes@.len() == mask@.len(),
            bytes@ == pair_bytes(pre),
            mask@ == pair_mask(pre),
            prepend_pairs(pre, spec_ida_pairs(sv, i as int)) == spec_ida_pairs(sv, 0),
        decreases n - i,
    {
        let b = s[i];
        if b == 32 || b == 9 || b == 10 || b == 11 || b == 12 || b == 13 {
            i = i + 1;
            continue;
        }
        proof {
            lemma_ida_word_end(sv, i as int);
        }
        // Find the end of the current word.
        let mut j: usize = i;
        while j < n && !(s[j] == 32 || s[j] == 9 || s[j] == 10 || s[j] == 11 || s[j] == 12 || s[j]
            == 13)
            invariant
                sv == s@,
                n == s@.len(),
                i <= j <= n,
                forall|k: int| i <= k < j ==> !is_ida_ws(#[trigger] sv[k]),
            decreases n - j,
        {
            j = j + 1;
        }
        proof {
            assert(ida_word_end(sv, i as int) == j) by {
                lemma_word_end_value(sv, i as int, j as int);
            }
        }
        let ghost w = sv.subrange(i as int, j as int);
        // Classify the word: wildcard or hexadecimal byte value.
        let pair: (u8, bool) = if j - i == 1 && s[i] == 63 {
            proof {
                assert(w =~= seq![63u8]);
            }
            (0, false)
        } else if j - i == 2 && s[i] == 63 && s[i + 1] == 63 {
            proof {
                assert(w =~= seq![63u8, 63u8]);
            }
            (0, false)
        } else {
            proof {
                assert(w != seq![63u8] && w != seq![63u8, 63u8]) by {
                    if w == seq![63u8] {
                        assert(w.len() == 1);
                        assert(w[0] == sv[i as int]);
                        assert(w[0] == 63u8);
                    }
                    if w == seq![63u8, 63u8] {
                        assert(w.len() == 2);
                        assert(w[0] == sv[i as int] && w[1] == sv[i + 1]);
                        assert(w[0] == 63u8 && w[1] == 63u8);
                    }
                }
            }
            let mut acc: u16 = 0;
            let mut k: usize = i;
            let mut ok = true;
            while k < j
                invariant
                    sv == s@,
                    n == s@.len(),
                    i <= k <= j <= n,
                    w == sv.subrange(i as int, j as int),
                    ok ==> hex_word_value(sv.subrange(i as int, k as int)) == Some(acc as int)
                        && acc <= 255,
                    !ok ==> hex_word_value(w) is None,
                decreases j - k,
            {
                proof {
                    assert(sv.subrange(i as int, k + 1).drop_last() =~= sv.subrange(
                        i as int,
                        k as int,
                    ));
                    assert(sv.subrange(i as int, k + 1).last() == sv[k as int]);
                }
                if ok {
                    let d = s[k];
                    if !(48 <= d && d <= 57) && !(97 <= d && d <= 102) && !(65 <= d && d <= 70) {
                        proof {
                            lemma_hex_word_prefix_none(sv, i as int, k + 1, j as int);
                        }
                        ok = false;
                    } else {
                        let dv: u16 = if 48 <= d && d <= 57 {
                            (d - 48) as u16
                        } else if 97 <= d && d <= 102 {
                            (d - 87) as u16
                        } else {
                            (d - 55) as u16
                        };
                        acc = acc * 16 + dv;
                        if acc > 255 {
                            proof {
                                lemma_hex_word_prefix_none(sv, i as int, k + 1, j as int);
                            }
                            ok = false;
                        }
                    }
                }
                k = k + 1;
            }
            if !ok {
                return IdaOutcome::WordFailed;
            }
            proof {
                assert(sv.subrange(i as int, j as int) == w);
            }
            ((acc as u8), true)
        };
        bytes.push(pair.0);
        mask.push(pair.1);
        proof {
            let pre_old = pre;
            pre = pre.push(pair);
            assert(bytes@ =~= pair_bytes(pre));
            assert(mask@ =~= pair_mask(pre));
            assert(ida_word_pair(w) == Some(pair));
            match spec_ida_pairs(sv, j as int) {
                Some(rest) => {
                    assert(pre_old + (seq![pair] + rest) =~= pre + rest);
                },
                None => {},
            }
            assert(prepend_pairs(pre, spec_ida_pairs(sv, j as int)) == spec_ida_pairs(sv, 0));
        }
        i = j;
    }
    // All words consumed; reject a pattern with no matched byte at all.
    proof {
        assert(pre + Seq::<(u8, bool)>::empty() =~= pre);
        assert(spec_ida_pairs(sv, 0) == Some(pre));
    }
    let mut any = false;
    let mut t: usize = 0;
    while t < mask.len()
        invariant
            mask@ == pair_mask(pre),
            t <= mask@.len(),
            any == exists|k: int| 0 <= k < t && #[trigger] mask@[k] == true,
        decreases mask@.len() - t,
    {
        if mask[t] {
            any = true;
        }
        t = t + 1;
    }
    proof {
        assert forall|k: int| 0 <= k < pre.len() implies ((#[trigger] pre[k]).1 == mask@[k]) by {}
    }
    if !any {
        return IdaOutcome::NothingMatchable;
    }
    IdaOutcome::Parsed(bytes, mask)
}

/// Once a hexadecimal prefix fails, the whole word fails.
proof fn lemma_hex_word_prefix_none(s: Seq<u8>, i: int, k: int, j: int)
    requires
        0 <= i <= k <= j <= s.len(),
        hex_word_value(s.subrange(i, k)) is None,
    ensures
        hex_word_value(s.subrange(i, j)) is None,
    decreases j - k,
{
    if k < j {
        assert(s.subrange(i, k + 1).drop_last() =~= s.subrange(i, k));
        lemma_hex_word_prefix_none(s, i, k + 1, j);
    }
}

/// The scanned word end equals `ida_word_end`.
proof fn lemma_word_end_value(s: Seq<u8>, i: int, j: int)
    requires
        0 <= i <= j <= s.len(),
        forall|k: int| i <= k < j ==> !is_ida_ws(#[trigger] s[k]),
        j == s.len() || is_ida_ws(s[j]),
    ensures
        ida_word_end(s, i) == j,
    decreases j - i,
{
    if i < j {
        lemma_word_end_value(s, i + 1, j);
    }
}

impl Pattern {
    /// Compiles an IDA pattern string, rejecting one with no matchable byte.
    pub fn from_ida_pattern(pattern: &str) -> (r: Result<Pattern, PatternError>)
        ensures
            match r {
                Ok(p) => {
                    &&& spec_ida_pairs(pattern.spec_bytes(), 0) matches Some(pairs) && any_matched(
                        pairs,
                    ) && p.bytes@ == pair_bytes(pairs) && p.mask@ == pair_mask(pairs)
                    &&& p.length == p.bytes@.len() && p.mask@.len() == p.length && p.length >= 1
                },
                Err(PatternError::ParseError) => spec_ida_pairs(pattern.spec_bytes(), 0) is None,
                Err(PatternError::NoMatchableBytesError) => spec_ida_pairs(
                    pattern.spec_bytes(),
                    0,
                ) matches Some(pairs) && !any_matched(pairs),
            },
    {
        match parse_ida(pattern) {
            IdaOutcome::Parsed(bytes, mask) => {
                let length = bytes.len();
                Ok(Pattern { bytes, mask, length })
            },
            IdaOutcome::WordFailed => Err(PatternError::ParseError),
            IdaOutcome::NothingMatchable => Err(PatternError::NoMatchableBytesError),
        }
    }
}

} // verus!
