//! Heuristics on MSVC decorated symbol names, and the undecoration pipeline
//! built on an outside demangler.

use vstd::prelude::*;
use vstd::string::{StrSliceExecFns, StringExecFns, StringSliceAdditionalSpecFns};
use vstd::utf8::is_char_boundary;

verus! {

/// A decorated MSVC symbol name as this toolkit meets them: it opens with
/// ".?" and closes with '@'.
pub open spec fn spec_is_decorated(s: Seq<char>) -> bool {
    s.len() >= 2 && s[0] == '.' && s[1] == '?' && s[s.len() - 1] == '@'
}

/// An educated guess as to whether a string is a decorated symbol name.
pub fn is_decorated_symbol(input: &str) -> (r: bool)
    ensures
        r == spec_is_decorated(input@),
{
    let len = input.unicode_len();
    if len < 2 {
        return false;
    }
    let first = input.get_char(0);
    let second = input.get_char(1);
    let last = input.get_char(len - 1);
    first == '.' && second == '?' && last == '@'
}

/// What msvc_demangler::demangle with the llvm flag set returns for a
/// mangled name, when it succeeds.
pub uninterp spec fn demangled_llvm_of(s: Seq<char>) -> Option<Seq<char>>;

/// What replacing the leftmost match of a regular expression yields, or
/// `None` for an invalid expression.
pub uninterp spec fn regex_replace_first_of(pat: Seq<char>, text: Seq<char>, rep: Seq<char>) -> Option<
    Seq<char>,
>;

/// The byte offset where the leftmost match of a regular expression begins,
/// `Some(None)` when there is no match, `None` for an invalid expression.
pub uninterp spec fn regex_find_start_of(pat: Seq<char>, text: Seq<char>) -> Option<Option<int>>;

/// Relies on msvc_demangler::demangle with DemangleFlags::llvm(): the
/// result depends on the mangled name alone.
#[verifier::external_body]
pub(crate) fn demangle_llvm(name: &str) -> (r: Option<String>)
    ensures
        match r {
            Some(d) => demangled_llvm_of(name@) == Some(d@),
            None => demangled_llvm_of(name@) is None,
        },
{
    msvc_demangler::demangle(name, msvc_demangler::DemangleFlags::llvm()).ok()
}

/// Relies on regex::Regex::new and Regex::replace: replaces the leftmost
/// match of `pat` in `text` with `rep`; `None` when `pat` is not a valid
/// regular expression. The result depends on the arguments alone.
#[verifier::external_body]
pub(crate) fn regex_replace_first(pat: &str, text: &str, rep: &str) -> (r: Option<String>)
    ensures
        match r {
            Some(c) => regex_replace_first_of(pat@, text@, rep@) == Some(c@),
            None => regex_replace_first_of(pat@, text@, rep@) is None,
        },
{
    match regex::Regex::new(pat) {
        Ok(re) => Some(re.replace(text, rep).to_string()),
        Err(_) => None,
    }
}

/// Relies on regex::Regex::find: match offsets are byte indices into the
/// haystack and always lie on character boundaries. `None` when `pat` is
/// not a valid regular expression.
#[verifier::external_body]
pub(crate) fn regex_find_start(pat: &str, text: &str) -> (r: Option<Option<usize>>)
    ensures
        match r {
            Some(found) => {
                &&& regex_find_start_of(pat@, text@) matches Some(f) && (match (found, f) {
                    (Some(k), Some(fk)) => k as int == fk,
                    (None, None) => true,
                    _ => false,
                })
                &&& found matches Some(k) ==> k <= text.spec_bytes().len() && is_char_boundary(
                    text.spec_bytes(),
                    k as int,
                )
            },
            None => regex_find_start_of(pat@, text@) is None,
        },
{
    match regex::Regex::new(pat) {
        Ok(re) => Some(re.find(text).map(|m| m.start())),
        Err(_) => None,
    }
}

/// The destructor-style mangled name the pipeline builds for a ".?A"
/// type-info name: the input without its first four characters, wrapped as
/// a destructor signature.
pub open spec fn mangled_for(s: Seq<char>) -> Seq<char> {
    "??1"@ + s.subrange(4, s.len() as int) + "QAE@XZ"@
}

/// The undecoration pipeline succeeded on `s` with the steps `d` (the
/// demangler's output), `c` (that output with its access/convention prefix
/// stripped) and `k` (where the destructor suffix begins in `c`).
pub open spec fn undecorate_steps(s: Seq<char>, d: Seq<char>, c: Seq<char>, k: int) -> bool {
    &&& s.len() >= 4 && s[0] == '.' && s[1] == '?' && s[2] == 'A'
    &&& demangled_llvm_of(mangled_for(s)) == Some(d)
    &&& regex_replace_first_of("^(?:(public|private): (?:.+? )?__.+? )"@, d, ""@) == Some(c)
    &&& regex_find_start_of("::~(.*)$"@, c) == Some(Some(k))
}

/// Attempts to recover the plain class name behind an RTTI type-info symbol
/// name by round-tripping it through the demangler and trimming the
/// destructor scaffolding off the result.
pub fn undecorate_symbol(input: &str) -> (r: Option<String>)
    ensures
        match r {
            Some(out) => exists|d: Seq<char>, c: Seq<char>, k: int|
                undecorate_steps(input@, d, c, k) && #[trigger] vstd::utf8::encode_utf8(out@)
                    == vstd::utf8::encode_utf8(c).subrange(0, k),
            None => !(exists|d: Seq<char>, c: Seq<char>, k: int| #[trigger] undecorate_steps(
                input@,
                d,
                c,
                k,
            )),
        },
{
    let len = input.unicode_len();
    if !(len >= 4 && input.get_char(0) == '.' && input.get_char(1) == '?' && input.get_char(2)
        == 'A') {
        return None;
    }
    let tail = input.substring_char(4, len);
    let mut name = String::from_str("??1");
    name.append(tail);
    name.append("QAE@XZ");
    proof {
        assert(name@ == mangled_for(input@));
    }
    let demangled = match demangle_llvm(name.as_str()) {
        Some(d) => d,
        None => {
            return None;
        },
    };
    // Strip access specifiers and calling-convention noise off the front.
    let cleaned = match regex_replace_first(
        "^(?:(public|private): (?:.+? )?__.+? )",
        demangled.as_str(),
        "",
    ) {
        Some(c) => c,
        None => {
            return None;
        },
    };
    // Find the destructor suffix and cut everything from it on.
    match regex_find_start("::~(.*)$", cleaned.as_str()) {
        Some(Some(k)) => {
            let (prefix, _) = cleaned.as_str().split_at(k);
            let out = prefix.to_owned();
            proof {
                assert(undecorate_steps(input@, demangled@, cleaned@, k as int));
                assert(vstd::utf8::encode_utf8(out@) == vstd::utf8::encode_utf8(cleaned@).subrange(
                    0,
                    k as int,
                ));
            }
            Some(out)
        },
        Some(None) => None,
        None => None,
    }
}

} // verus!
