//! The memory-scanning pattern: the IDA-style grammar compiled for use
//! against process memory.

use vstd::prelude::*;
use vstd::string::StringSliceAdditionalSpecFns;

use crate::aob::ida_pattern::{
    any_matched, pair_bytes, pair_mask, parse_ida, spec_ida_pairs, IdaOutcome,
};

verus! {

/// A compiled memory pattern: `bytes[i]` must equal the scanned byte
/// wherever `mask[i]` is set.
#[derive(Debug)]
pub struct MemoryPattern {
    pub bytes: Vec<u8>,
    pub mask: Vec<bool>,
    pub length: usize,
}

#[derive(Debug)]
pub enum MemoryPatternCreationError {
    /// A word that is neither a wildcard nor a hexadecimal byte value.
    ParseError,
    /// Every byte is wildcarded (or the pattern is empty), so it would match
    /// anywhere and is rejected.
    NoMatchableBytesError,
}

impl MemoryPattern {
    /// Compiles an IDA pattern string, rejecting one with no matchable byte.
    pub fn from_ida_pattern(pattern: &str) -> (r: Result<MemoryPattern, MemoryPatternCreationError>)
        ensures
            match r {
                Ok(p) => {
                    &&& spec_ida_pairs(pattern.spec_bytes(), 0) matches Some(pairs) && any_matched(
                        pairs,
                    ) && p.bytes@ == pair_bytes(pairs) && p.mask@ == pair_mask(pairs)
                    &&& p.length == p.bytes@.len() && p.mask@.len() == p.length && p.length >= 1
                },
                Err(MemoryPatternCreationError::ParseError) => spec_ida_pairs(
                    pattern.spec_bytes(),
                    0,
                ) is None,
                Err(MemoryPatternCreationError::NoMatchableBytesError) => spec_ida_pairs(
                    pattern.spec_bytes(),
                    0,
                ) matches Some(pairs) && !any_matched(pairs),
            },
    {
        match parse_ida(pattern) {
            IdaOutcome::Parsed(bytes, mask) => {
                let length = bytes.len();
                Ok(MemoryPattern { bytes, mask, length })
            },
            IdaOutcome::WordFailed => Err(MemoryPatternCreationError::ParseError),
            IdaOutcome::NothingMatchable => Err(MemoryPatternCreationError::NoMatchableBytesError),
        }
    }
}

} // verus!
