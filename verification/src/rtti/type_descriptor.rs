//! The type descriptor: the `type_info` vftable pointer, a spare field and
//! the class's decorated symbol name, read from the raw in-image form.
//! These structures come from 64-bit images, so a pointer is eight bytes;
//! on a narrower host the stored value is truncated.

use vstd::prelude::*;
use vstd::bytes::{spec_u64_from_le_bytes, u64_from_le_bytes};

verus! {

#[derive(Debug)]
pub struct TypeDescriptor {
    /// Points at `type_info`'s vftable.
    pub vftable: usize,
    /// Spare field; always zero in practice.
    pub spare: usize,
    /// The decorated symbol name.
    pub name: String,
}

/// The characters that lossy UTF-8 decoding produces for a byte sequence.
pub uninterp spec fn utf8_lossy_of(bytes: Seq<u8>) -> Seq<char>;

/// Relies on String::from_utf8_lossy: the result depends on the bytes
/// alone, and bytes that are already valid UTF-8 — in particular plain
/// ASCII — decode to themselves.
#[verifier::external_body]
fn decode_utf8_lossy(bytes: &[u8]) -> (r: String)
    ensures
        r@ == utf8_lossy_of(bytes@),
        (forall|i: int| 0 <= i < bytes@.len() ==> bytes@[i] < 128) ==> r@ == bytes@.map(
            |i: int, b: u8| b as char,
        ),
{
    String::from_utf8_lossy(bytes).to_string()
}

/// Position of the first zero byte at or after `from`.
pub open spec fn first_nul(s: Seq<u8>, from: int) -> int
    decreases s.len() - from,
{
    if from < 0 || from >= s.len() || s[from] == 0 {
        from
    } else {
        first_nul(s, from + 1)
    }
}

proof fn lemma_first_nul(s: Seq<u8>, from: int)
    requires
        0 <= from <= s.len(),
    ensures
        from <= first_nul(s, from) <= s.len(),
        forall|k: int| from <= k < first_nul(s, from) ==> s[k] != 0,
        first_nul(s, from) < s.len() ==> s[first_nul(s, from)] == 0,
    decreases s.len() - from,
{
    if from < s.len() && s[from] != 0 {
        lemma_first_nul(s, from + 1);
    }
}

impl TypeDescriptor {
    /// Reads a type descriptor: two 64-bit fields, then the symbol name as a
    /// NUL-terminated string. The input must actually contain the
    /// terminator.
    pub fn from_bytes(input: &[u8]) -> (r: Self)
        requires
            input@.len() >= 16,
            exists|k: int| 16 <= k < input@.len() && input@[k] == 0,
        ensures
            r.vftable == spec_u64_from_le_bytes(input@.subrange(0, 8)) as usize,
            r.spare == spec_u64_from_le_bytes(input@.subrange(8, 16)) as usize,
            r.name@ == utf8_lossy_of(input@.subrange(16, first_nul(input@, 16))),
    {
        let n = input.len();
        let vftable = #[verifier::truncate] (u64_from_le_bytes(vstd::slice::slice_subrange(input, 0, 8)) as usize);
        let spare = #[verifier::truncate] (u64_from_le_bytes(vstd::slice::slice_subrange(input, 8, 16)) as usize);
        proof {
            lemma_first_nul(input@, 16);
        }
        let mut end: usize = 16;
        while end < n && input[end] != 0
            invariant
                n == input@.len(),
                16 <= end <= n,
                forall|k: int| 16 <= k < end ==> input@[k] != 0,
            decreases n - end,
        {
            end = end + 1;
        }
        proof {
            assert(first_nul(input@, 16) == end) by {
                lemma_nul_value(input@, 16, end as int);
            }
            let ghost w = choose|k: int| 16 <= k < input@.len() && input@[k] == 0;
            assert(end < n) by {
                if end == n {
                    assert(input@[w] != 0);
                }
            }
        }
        let name = decode_utf8_lossy(vstd::slice::slice_subrange(input, 16, end));
        TypeDescriptor { vftable, spare, name }
    }
}

/// The scanned terminator position equals `first_nul`.
proof fn lemma_nul_value(s: Seq<u8>, from: int, end: int)
    requires
        0 <= from <= end <= s.len(),
        forall|k: int| from <= k < end ==> s[k] != 0,
        end == s.len() || s[end] == 0,
    ensures
        first_nul(s, from) == end,
    decreases end - from,
{
    if from < end {
        lemma_nul_value(s, from + 1, end);
    }
}

} // verus!
