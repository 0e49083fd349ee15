//! Named signature entries as scanning profiles declare them: a key, the
//! pattern source string, and how a hit is turned into a result.

use vstd::prelude::*;

verus! {

/// A whole scanning profile: the signatures to locate.
#[derive(Debug)]
pub struct Profile {
    pub entries: Vec<SignatureEntry>,
}

/// One named signature: the key it is reported under, the pattern source
/// string, and the extraction method.
#[derive(Debug)]
pub struct SignatureEntry {
    pub key: String,
    pub signature: String,
    pub method: SignatureEntryMethod,
}

/// How a match is turned into a reported value: the match offset itself, or
/// the target of the instruction at the first capture.
#[derive(Debug)]
pub enum SignatureEntryMethod {
    Offset,
    CaptureTarget,
}

} // verus!
