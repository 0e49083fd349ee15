//! The compiled pattern: byte values, per-bit masks and capture groups, plus
//! the constructors that build one from a pattern string or a raw byte slice.

pub mod parser;
pub mod tokenizer;

use vstd::prelude::*;
use vstd::string::StringSliceAdditionalSpecFns;

use crate::pattern::parser::{ParserError, SpecParseState};

verus! {

/// A half-open range of pattern positions whose matched bytes are reported.
#[derive(Debug, Clone, Copy, PartialEq, Eq, Structural)]
pub struct CaptureGroup {
    pub start: usize,
    pub end: usize,
}

/// A compiled, immutable pattern: `bytes[i]` must match the scanned buffer on
/// every bit that `mask[i]` selects, and each capture group names a span of
/// pattern positions to report.
#[derive(Debug, Clone)]
pub struct Pattern {
    pub bytes: Vec<u8>,
    pub mask: Vec<u8>,
    pub length: usize,
    pub capture_groups: Vec<CaptureGroup>,
}

impl Pattern {
    /// Structural well-formedness: the cached length agrees with both arrays
    /// and every capture group lies inside the pattern.
    pub open spec fn wf(self) -> bool {
        &&& self.bytes@.len() == self.length
        &&& self.mask@.len() == self.length
        &&& forall|i: int|
            0 <= i < self.capture_groups@.len() ==> (#[trigger] self.capture_groups@[i]).start
                <= self.capture_groups@[i].end && self.capture_groups@[i].end <= self.length
    }

    /// Compiles a byte-oriented pattern string (hex bytes, `?` wildcards,
    /// `m`-prefixed bit bytes, capture-group brackets).
    pub fn from_byte_pattern(pattern: &str) -> (r: Result<Pattern, ParserError>)
        ensures
            match r {
                Ok(p) => {
                    &&& parser::spec_parse_byte_pattern(pattern.spec_bytes()) matches Ok(st)
                        && parser::pattern_models(p, st)
                    &&& p.wf()
                    &&& p.length >= 1
                },
                Err(e) => parser::spec_parse_byte_pattern(pattern.spec_bytes()) == Err::<
                    SpecParseState,
                    ParserError,
                >(e),
            },
    {
        parser::parse_byte_pattern(pattern)
    }

    /// Compiles a bit-oriented pattern string (bare eight-character bit
    /// groups and capture-group brackets).
    pub fn from_bit_pattern(pattern: &str) -> (r: Result<Pattern, ParserError>)
        ensures
            match r {
                Ok(p) => {
                    &&& parser::spec_parse_bit_pattern(pattern.spec_bytes()) matches Ok(st)
                        && parser::pattern_models(p, st)
                    &&& p.wf()
                    &&& p.length >= 1
                },
                Err(e) => parser::spec_parse_bit_pattern(pattern.spec_bytes()) == Err::<
                    SpecParseState,
                    ParserError,
                >(e),
            },
    {
        parser::parse_bit_pattern(pattern)
    }

    /// Constructs a pattern from owned bytes: every byte fully specified, no
    /// capture groups.
    pub fn from_byte_vec(bytes: Vec<u8>) -> (p: Pattern)
        ensures
            p.bytes@ == bytes@,
            p.length == bytes@.len(),
            p.mask@.len() == bytes@.len(),
            forall|i: int| 0 <= i < bytes@.len() ==> p.mask@[i] == 255u8,
            p.capture_groups@.len() == 0,
            p.wf(),
    {
        let length = bytes.len();
        let mut mask: Vec<u8> = Vec::new();
        let mut i: usize = 0;
        while i < length
            invariant
                i <= length,
                mask@.len() == i,
                forall|k: int| 0 <= k < i ==> mask@[k] == 255u8,
            decreases length - i,
        {
            mask.push(255);
            i = i + 1;
        }
        let capture_groups: Vec<CaptureGroup> = Vec::new();
        Pattern { bytes, mask, length, capture_groups }
    }

    /// Constructs an all-exact pattern from a borrowed byte slice.
    pub fn from_byte_slice(bytes: &[u8]) -> (p: Pattern)
        ensures
            p.bytes@ == bytes@,
            p.length == bytes@.len(),
            p.mask@.len() == bytes@.len(),
            forall|i: int| 0 <= i < bytes@.len() ==> p.mask@[i] == 255u8,
            p.capture_groups@.len() == 0,
            p.wf(),
    {
        Pattern::from_byte_vec(vstd::slice::slice_to_vec(bytes))
    }
}

} // verus!
