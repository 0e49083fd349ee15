//! Type-info symbol names as the hierarchy analysis sees them: the class
//! name with its namespace path.

use vstd::prelude::*;
use vstd::string::{StrSliceExecFns, StringExecFns};

use crate::rtti::symbol::{
    demangle_llvm, mangled_for, regex_find_start, regex_replace_first, spec_is_decorated,
    undecorate_steps,
};

verus! {

/// A type-info symbol split into its class name and enclosing namespaces.
#[derive(Debug)]
pub struct TypeInfoSymbol {
    pub name: String,
    pub namespaces: Vec<String>,
}

impl Default for TypeInfoSymbol {
    /// The anonymous symbol: no name, no namespaces.
    fn default() -> (r: Self)
        ensures
            r.name@.len() == 0,
            r.namespaces@.len() == 0,
    {
        TypeInfoSymbol { name: String::new(), namespaces: Vec::new() }
    }
}

/// An educated guess as to whether a string is a mangled symbol name.
pub fn is_decorated_symbol(input: &str) -> (r: bool)
    ensures
        r == spec_is_decorated(input@),
{
    let len = input.unicode_len();
    if len < 2 {
        return false;
    }
    let first = input.get_char(0);
    let second = input.get_char(1);
    let last = input.get_char(len - 1);
    first == '.' && second == '?' && last == '@'
}


/// How often `c` occurs in `s`.
pub open spec fn count_char(s: Seq<char>, c: char) -> int
    decreases s.len(),
{
    if s.len() == 0 {
        0
    } else {
        count_char(s.drop_last(), c) + (if s.last() == c {
            1int
        } else {
            0int
        })
    }
}

/// Generic and function brackets pair up in `s`.
pub open spec fn balanced(s: Seq<char>) -> bool {
    count_char(s, '<') == count_char(s, '>') && count_char(s, '(') == count_char(s, ')')
}

/// The namespace pieces of `s`: "::" separators split it, but a piece only
/// closes once its brackets balance, and an unbalanced tail is dropped.
pub open spec fn spec_split_parts(s: Seq<char>, cs: int, i: int) -> Seq<Seq<char>>
    decreases s.len() - i,
        when 0 <= cs <= i <= s.len()
{
    if i >= s.len() - 1 {
        if balanced(s.subrange(cs, s.len() as int)) {
            seq![s.subrange(cs, s.len() as int)]
        } else {
            Seq::empty()
        }
    } else if s[i] == ':' && s[i + 1] == ':' {
        if balanced(s.subrange(cs, i)) {
            seq![s.subrange(cs, i)] + spec_split_parts(s, i + 2, i + 2)
        } else {
            spec_split_parts(s, cs, i + 2)
        }
    } else {
        spec_split_parts(s, cs, i + 1)
    }
}

/// Whether the brackets of `s.subrange(from, to)` pair up.
fn balanced_range(s: &str, from: usize, to: usize) -> (r: bool)
    requires
        from <= to <= s@.len(),
    ensures
        r == balanced(s@.subrange(from as int, to as int)),
{
    let mut opens_lt: usize = 0;
    let mut closes_gt: usize = 0;
    let mut opens_paren: usize = 0;
    let mut closes_paren: usize = 0;
    let mut k: usize = from;
    while k < to
        invariant
            from <= k <= to <= s@.len(),
            opens_lt == count_char(s@.subrange(from as int, k as int), '<'),
            closes_gt == count_char(s@.subrange(from as int, k as int), '>'),
            opens_paren == count_char(s@.subrange(from as int, k as int), '('),
            closes_paren == count_char(s@.subrange(from as int, k as int), ')'),
            opens_lt <= k - from,
            closes_gt <= k - from,
            opens_paren <= k - from,
            closes_paren <= k - from,
        decreases to - k,
    {
        let c = s.get_char(k);
        proof {
            assert(s@.subrange(from as int, k + 1).drop_last() =~= s@.subrange(
                from as int,
                k as int,
            ));
            assert(s@.subrange(from as int, k + 1).last() == s@[k as int]);
        }
        if c == '<' {
            opens_lt = opens_lt + 1;
        } else if c == '>' {
            closes_gt = closes_gt + 1;
        } else if c == '(' {
            opens_paren = opens_paren + 1;
        } else if c == ')' {
            closes_paren = closes_paren + 1;
        }
        k = k + 1;
    }
    opens_lt == closes_gt && opens_paren == closes_paren
}

/// Splits a namespace path on "::", keeping "::" sequences that sit inside
/// unbalanced generic or function brackets attached to their piece. A final
/// piece whose brackets never balance is dropped.
pub fn into_parts(input: String) -> (r: Vec<String>)
    ensures
        r.deep_view() == spec_split_parts(input@, 0, 0),
{
    let s = input.as_str();
    let n = s.unicode_len();
    let ghost sv = s@;
    let mut parts: Vec<String> = Vec::new();
    let mut cs: usize = 0;
    let mut i: usize = 0;
    while n - i > 1
        invariant
            sv == s@,
            sv == input@,
            n == sv.len(),
            cs <= i <= n,
            spec_split_parts(sv, 0, 0) == parts.deep_view() + spec_split_parts(
                sv,
                cs as int,
                i as int,
            ),
        decreases n - i,
    {
        if s.get_char(i) == ':' && s.get_char(i + 1) == ':' {
            if balanced_range(s, cs, i) {
                let piece = s.substring_char(cs, i).to_owned();
                let ghost old_parts = parts.deep_view();
                proof {
                    assert((old_parts + seq![sv.subrange(cs as int, i as int)])
                        + spec_split_parts(sv, i + 2, i + 2) =~= old_parts + (seq![
                        sv.subrange(cs as int, i as int),
                    ] + spec_split_parts(sv, i + 2, i + 2)));
                }
                parts.push(piece);
                proof {
                    assert(parts.deep_view() =~= old_parts + seq![sv.subrange(
                        cs as int,
                        i as int,
                    )]);
                }
                cs = i + 2;
                i = i + 2;
            } else {
                i = i + 2;
            }
        } else {
            i = i + 1;
        }
    }
    if balanced_range(s, cs, n) {
        let piece = s.substring_char(cs, n).to_owned();
        let ghost old_parts = parts.deep_view();
        proof {
            assert(spec_split_parts(sv, cs as int, i as int) == seq![sv.subrange(
                cs as int,
                n as int,
            )]);
        }
        parts.push(piece);
        proof {
            assert(parts.deep_view() =~= old_parts + seq![sv.subrange(cs as int, n as int)]);
        }
    } else {
        proof {
            assert(parts.deep_view() + Seq::<Seq<char>>::empty() =~= parts.deep_view());
        }
    }
    parts
}

impl TypeInfoSymbol {
    /// Recovers the class name and namespace path behind an RTTI type-info
    /// symbol name: the demangled, prefix-stripped name up to its destructor
    /// suffix, split on "::". Anything the pipeline cannot process comes
    /// back as the anonymous symbol.
    pub fn from(input: &str) -> (r: Self)
        ensures
            !(exists|d: Seq<char>, c: Seq<char>, k: int| #[trigger] undecorate_steps(
                input@,
                d,
                c,
                k,
            )) ==> r.name@.len() == 0 && r.namespaces@.len() == 0,
            forall|d: Seq<char>, c: Seq<char>, k: int|
                #[trigger] undecorate_steps(input@, d, c, k) ==> ({
                    let clean = vstd::utf8::decode_utf8(vstd::utf8::encode_utf8(c).subrange(0, k));
                    let parts = spec_split_parts(clean, 0, 0);
                    if parts.len() == 0 {
                        r.name@.len() == 0 && r.namespaces@.len() == 0
                    } else {
                        r.name@ == parts.last() && r.namespaces.deep_view() == parts.drop_last()
                    }
                }),
    {
        let len = input.unicode_len();
        if !(len >= 4 && input.get_char(0) == '.' && input.get_char(1) == '?' && input.get_char(2)
            == 'A') {
            return TypeInfoSymbol::default();
        }
        let tail = input.substring_char(4, len);
        let mut name = String::from_str("??1");
        name.append(tail);
        name.append("QAE@XZ");
        proof {
            assert(name@ == mangled_for(input@));
        }
        let demangled = match demangle_llvm(name.as_str()) {
            Some(d) => d,
            None => {
                return TypeInfoSymbol::default();
            },
        };
        let cleaned = match regex_replace_first(
            "^(?:(public|private): (?:.+? )?__.+? )",
            demangled.as_str(),
            "",
        ) {
            Some(c) => c,
            None => {
                return TypeInfoSymbol::default();
            },
        };
        let k = match regex_find_start("::~(.*)$", cleaned.as_str()) {
            Some(Some(k)) => k,
            Some(None) => {
                return TypeInfoSymbol::default();
            },
            None => {
                return TypeInfoSymbol::default();
            },
        };
        let (prefix, _) = cleaned.as_str().split_at(k);
        let clean_string = prefix.to_owned();
        proof {
            assert(undecorate_steps(input@, demangled@, cleaned@, k as int));
            vstd::utf8::encode_utf8_decode_utf8(clean_string@);
            assert(vstd::utf8::decode_utf8(vstd::utf8::encode_utf8(cleaned@).subrange(0, k as int))
                == clean_string@);
        }
        let ghost clean_view = clean_string@;
        let mut parts = into_parts(clean_string);
        let ghost spec_parts = spec_split_parts(clean_view, 0, 0);
        match parts.pop() {
            Some(class_name) => {
                proof {
                    assert(class_name@ == parts.deep_view().push(class_name@).last());
                    assert(parts.deep_view() =~= spec_parts.drop_last());
                    assert(class_name@ == spec_parts.last()) by {
                        assert(spec_parts[spec_parts.len() - 1] == parts@.push(class_name)[
                            parts@.len() as int].deep_view());
                    }
                }
                TypeInfoSymbol { name: class_name, namespaces: parts }
            },
            None => {
                proof {
                    assert(spec_parts.len() == 0);
                }
                TypeInfoSymbol::default()
            },
        }
    }
}
} // verus!
