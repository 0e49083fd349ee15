//! The AOB pattern: byte values with a boolean per-byte mask, capture
//! groups, and the offset slot the group scanners fill in.

use vstd::prelude::*;
use vstd::string::StringSliceAdditionalSpecFns;

use crate::aob::parser::{self, ParserError, SpecParseState};
use crate::pattern::CaptureGroup;

verus! {

/// Maps a boolean per-byte mask to the bit-level form: a fully matched byte
/// cares about every bit, a wildcarded byte about none.
pub open spec fn bool_mask(m: Seq<bool>) -> Seq<u8> {
    m.map(|i: int, b: bool| if b { 255u8 } else { 0u8 })
}

/// An AOB pattern: `bytes[i]` must equal the scanned byte wherever `mask[i]`
/// is set; a cleared mask entry matches any byte.
#[derive(Debug, Clone)]
pub struct Pattern {
    pub bytes: Vec<u8>,
    pub mask: Vec<bool>,
    pub length: usize,
    pub capture_groups: Vec<CaptureGroup>,
    /// Offset of the first found occurrence; filled in by the group scanners.
    pub offset: Option<usize>,
}

/// Two patterns agree on everything the scanners read.
pub open spec fn same_shape(a: Pattern, b: Pattern) -> bool {
    &&& a.bytes@ == b.bytes@
    &&& a.mask@ == b.mask@
    &&& a.length == b.length
    &&& a.capture_groups@ == b.capture_groups@
}

impl Pattern {
    /// Structural well-formedness: the cached length agrees with both arrays
    /// and every capture group lies inside the pattern.
    pub open spec fn wf(self) -> bool {
        &&& self.bytes@.len() == self.length
        &&& self.mask@.len() == self.length
        &&& forall|i: int|
            0 <= i < self.capture_groups@.len() ==> (#[trigger] self.capture_groups@[i]).start
                <= self.capture_groups@[i].end && self.capture_groups@[i].end <= self.length
    }

    /// Compiles an AOB pattern string: hex bytes, `?` wildcards and capture
    /// groups.
    pub fn from(pattern: &str) -> (r: Result<Pattern, ParserError>)
        ensures
            match r {
                Ok(p) => {
                    &&& parser::spec_parse(pattern.spec_bytes()) matches Ok(st)
                        && parser::pattern_models(p, st)
                    &&& p.wf()
                    &&& p.length >= 1
                    &&& p.offset is None
                },
                Err(e) => parser::spec_parse(pattern.spec_bytes()) == Err::<
                    SpecParseState,
                    ParserError,
                >(e),
            },
    {
        parser::parse_pattern(pattern)
    }

    /// Constructs a pattern from a byte slice: every byte fully matched, no
    /// capture groups, no offset.
    pub fn from_byte_slice(bytes: &[u8]) -> (p: Pattern)
        ensures
            p.bytes@ == bytes@,
            p.length == bytes@.len(),
            p.mask@.len() == bytes@.len(),
            forall|i: int| 0 <= i < bytes@.len() ==> p.mask@[i] == true,
            p.capture_groups@.len() == 0,
            p.offset is None,
            p.wf(),
    {
        let owned = vstd::slice::slice_to_vec(bytes);
        let length = owned.len();
        let mut mask: Vec<bool> = Vec::new();
        let mut i: usize = 0;
        while i < length
            invariant
                i <= length,
                mask@.len() == i,
                forall|k: int| 0 <= k < i ==> mask@[k] == true,
            decreases length - i,
        {
            mask.push(true);
            i = i + 1;
        }
        let capture_groups: Vec<CaptureGroup> = Vec::new();
        Pattern { bytes: owned, mask, length, capture_groups, offset: None }
    }

    /// A structural copy whose fields provably equal the original's.
    pub fn duplicate(&self) -> (r: Pattern)
        ensures
            same_shape(r, *self),
            r.offset == self.offset,
    {
        Pattern {
            bytes: vstd::slice::slice_to_vec(self.bytes.as_slice()),
            mask: vstd::slice::slice_to_vec(self.mask.as_slice()),
            length: self.length,
            capture_groups: vstd::slice::slice_to_vec(self.capture_groups.as_slice()),
            offset: self.offset,
        }
    }
}

} // verus!
